//! Text helpers: strings are modelled as sequences of characters.

use vstd::prelude::*;
use vstd::utf8::{decode_utf8, encode_utf8, is_ascii_chars, is_char_boundary};

verus! {

/// `String::push` appends one character to the string.
pub assume_specification[ String::push ](s: &mut String, c: char)
    ensures
        final(s)@ == old(s)@.push(c),
;

// ---------------------------------------------------------------------------
// Models
// ---------------------------------------------------------------------------
/// The text of an optional string slice.
pub open spec fn str_view(o: Option<&str>) -> Option<Seq<char>> {
    match o {
        Some(s) => Some(s@),
        None => None,
    }
}

/// The views of a sequence of strings.
pub open spec fn views(v: Seq<String>) -> Seq<Seq<char>> {
    Seq::new(v.len(), |i: int| v[i]@)
}

/// The view of an optional string.
pub open spec fn opt_view(o: Option<String>) -> Option<Seq<char>> {
    match o {
        Some(s) => Some(s@),
        None => None,
    }
}

/// The Unicode `White_Space` property.
pub open spec fn is_space(c: char) -> bool {
    ||| '\u{9}' <= c <= '\u{d}'
    ||| c == ' '
    ||| c == '\u{85}'
    ||| c == '\u{a0}'
    ||| c == '\u{1680}'
    ||| '\u{2000}' <= c <= '\u{200a}'
    ||| c == '\u{2028}'
    ||| c == '\u{2029}'
    ||| c == '\u{202f}'
    ||| c == '\u{205f}'
    ||| c == '\u{3000}'
}

pub open spec fn is_digit(c: char) -> bool {
    '0' <= c <= '9'
}

pub open spec fn is_ascii_alnum(c: char) -> bool {
    ||| '0' <= c <= '9'
    ||| 'a' <= c <= 'z'
    ||| 'A' <= c <= 'Z'
}

/// The predicate that holds of white space.
pub open spec fn spaces() -> spec_fn(char) -> bool {
    |c: char| is_space(c)
}

/// The predicate that holds of the characters of `set`.
pub open spec fn one_of(set: Seq<char>) -> spec_fn(char) -> bool {
    |c: char| set.contains(c)
}

/// `s` without the longest prefix whose characters all satisfy `p`.
pub open spec fn trim_start_by(s: Seq<char>, p: spec_fn(char) -> bool) -> Seq<char>
    decreases s.len(),
{
    if s.len() > 0 && p(s[0]) {
        trim_start_by(s.drop_first(), p)
    } else {
        s
    }
}

/// `s` without the longest suffix whose characters all satisfy `p`.
pub open spec fn trim_end_by(s: Seq<char>, p: spec_fn(char) -> bool) -> Seq<char>
    decreases s.len(),
{
    if s.len() > 0 && p(s.last()) {
        trim_end_by(s.drop_last(), p)
    } else {
        s
    }
}

/// `s` without white space at either end.
pub open spec fn trimmed(s: Seq<char>) -> Seq<char> {
    trim_end_by(trim_start_by(s, spaces()), spaces())
}

pub open spec fn lower_char(c: char) -> char {
    if 'A' <= c <= 'Z' {
        (c as u32 + 32) as char
    } else {
        c
    }
}

/// `s` with its ASCII capitals made small.
pub open spec fn lowered(s: Seq<char>) -> Seq<char> {
    Seq::new(s.len(), |i: int| lower_char(s[i]))
}

/// `pat` stands in `s` at position `i`.
pub open spec fn occurs_at(s: Seq<char>, pat: Seq<char>, i: int) -> bool {
    &&& 0 <= i
    &&& i + pat.len() <= s.len()
    &&& s.subrange(i, i + pat.len()) == pat
}

/// `pat` stands somewhere in `s`.
pub open spec fn holds_text(s: Seq<char>, pat: Seq<char>) -> bool {
    exists|i: int| occurs_at(s, pat, i)
}

pub open spec fn has_prefix(s: Seq<char>, pat: Seq<char>) -> bool {
    occurs_at(s, pat, 0)
}

pub open spec fn has_suffix(s: Seq<char>, pat: Seq<char>) -> bool {
    occurs_at(s, pat, s.len() - pat.len())
}

/// `i` is the first position of `pat` in `s`.
pub open spec fn first_at(s: Seq<char>, pat: Seq<char>, i: int) -> bool {
    &&& occurs_at(s, pat, i)
    &&& forall|j: int| 0 <= j < i ==> !occurs_at(s, pat, j)
}

/// `i` is the last position of `pat` in `s`.
pub open spec fn last_at(s: Seq<char>, pat: Seq<char>, i: int) -> bool {
    &&& occurs_at(s, pat, i)
    &&& forall|j: int| i < j ==> !occurs_at(s, pat, j)
}

/// The first position of `pat` in `s`, where it stands in it.
pub open spec fn find_pos(s: Seq<char>, pat: Seq<char>) -> Option<int> {
    if holds_text(s, pat) {
        Some(choose|i: int| first_at(s, pat, i))
    } else {
        None
    }
}

/// The last position of `pat` in `s`, where it stands in it.
pub open spec fn rfind_pos(s: Seq<char>, pat: Seq<char>) -> Option<int> {
    if holds_text(s, pat) {
        Some(choose|i: int| last_at(s, pat, i))
    } else {
        None
    }
}

pub open spec fn opt_int(o: Option<usize>) -> Option<int> {
    match o {
        Some(i) => Some(i as int),
        None => None,
    }
}

/// `s` with every `from` made a `to`.
pub open spec fn replaced(s: Seq<char>, from: char, to: char) -> Seq<char> {
    Seq::new(
        s.len(),
        |i: int|
            if s[i] == from {
                to
            } else {
                s[i]
            },
    )
}

/// The predicate that holds of all characters but `c`.
pub open spec fn other_than(c: char) -> spec_fn(char) -> bool {
    |x: char| x != c
}

/// `s` without any `c`.
pub open spec fn without_char(s: Seq<char>, c: char) -> Seq<char> {
    s.filter(other_than(c))
}

/// The position of the first `c` in `s`, or the length of `s` without one.
pub open spec fn char_pos(s: Seq<char>, c: char) -> int
    decreases s.len(),
{
    if s.len() == 0 || s[0] == c {
        0
    } else {
        1 + char_pos(s.drop_first(), c)
    }
}

/// The part of `s` before the first `c`; all of `s` without one.
pub open spec fn before_char(s: Seq<char>, c: char) -> Seq<char> {
    s.take(char_pos(s, c))
}

/// The part of `s` after the first `c`.
pub open spec fn after_char(s: Seq<char>, c: char) -> Seq<char> {
    s.skip(char_pos(s, c) + 1)
}

/// The pieces of `s` between the characters `c`: one more than `s` has of them.
pub open spec fn pieces(s: Seq<char>, c: char) -> Seq<Seq<char>>
    decreases s.len(),
    via pieces_decreases
{
    if s.contains(c) {
        seq![before_char(s, c)] + pieces(after_char(s, c), c)
    } else {
        seq![s]
    }
}

#[via_fn]
proof fn pieces_decreases(s: Seq<char>, c: char) {
    if s.contains(c) {
        lemma_char_pos(s, c);
    }
}

/// A line without the carriage return before its line feed.
pub open spec fn without_cr(s: Seq<char>) -> Seq<char> {
    if s.len() > 0 && s.last() == '\r' {
        s.drop_last()
    } else {
        s
    }
}

/// The lines of `s`: ended by a line feed, which a carriage return may
/// precede; the last line may lack its line feed.
pub open spec fn text_lines(s: Seq<char>) -> Seq<Seq<char>>
    decreases s.len(),
    via text_lines_decreases
{
    if s.len() == 0 {
        Seq::empty()
    } else if s.contains('\n') {
        seq![without_cr(before_char(s, '\n'))] + text_lines(after_char(s, '\n'))
    } else {
        seq![s]
    }
}

#[via_fn]
proof fn text_lines_decreases(s: Seq<char>) {
    if s.contains('\n') {
        lemma_char_pos(s, '\n');
    }
}

/// The predicate that holds of ASCII white space.
pub open spec fn ascii_spaces() -> spec_fn(char) -> bool {
    |c: char| c == ' ' || c == '\t' || c == '\n' || c == '\u{c}' || c == '\r'
}

/// The white space that separates words: that of ASCII, or all of it.
pub open spec fn separators(ascii: bool) -> spec_fn(char) -> bool {
    if ascii {
        ascii_spaces()
    } else {
        spaces()
    }
}

/// The position of the first character in `s` that satisfies `p`, or the length
/// of `s`.
pub open spec fn pos_by(s: Seq<char>, p: spec_fn(char) -> bool) -> int
    decreases s.len(),
{
    if s.len() == 0 || p(s[0]) {
        0
    } else {
        1 + pos_by(s.drop_first(), p)
    }
}

/// The words of `s`: its longest runs of characters that do not satisfy `p`.
pub open spec fn words(s: Seq<char>, p: spec_fn(char) -> bool) -> Seq<Seq<char>>
    decreases s.len(),
    via words_decreases
{
    let t = trim_start_by(s, p);
    if t.len() == 0 {
        Seq::empty()
    } else {
        seq![t.take(pos_by(t, p))] + words(t.skip(pos_by(t, p)), p)
    }
}

#[via_fn]
proof fn words_decreases(s: Seq<char>, p: spec_fn(char) -> bool) {
    let t = trim_start_by(s, p);
    lemma_trim_start_shape(s, p);
    if t.len() > 0 {
        lemma_pos_by(t, p);
    }
}

/// The decimal digits of `n`, without leading zeros.
pub open spec fn decimal(n: nat) -> Seq<char>
    decreases n,
{
    if n < 10 {
        seq![digit_char(n)]
    } else {
        decimal(n / 10).push(digit_char(n % 10))
    }
}

pub open spec fn digit_char(d: nat) -> char {
    (d + 48) as char
}

/// The decimal digits of `n`, after a minus sign where it is negative.
pub open spec fn signed_decimal(n: int) -> Seq<char> {
    if n < 0 {
        seq!['-'] + decimal((-n) as nat)
    } else {
        decimal(n as nat)
    }
}

pub open spec fn all_digits(s: Seq<char>) -> bool {
    forall|i: int| 0 <= i < s.len() ==> is_digit(#[trigger] s[i])
}

/// The number that a sequence of digits writes.
pub open spec fn digits_value(s: Seq<char>) -> nat
    decreases s.len(),
{
    if s.len() == 0 {
        0
    } else {
        digits_value(s.drop_last()) * 10 + (s.last() as nat - 48) as nat
    }
}

/// The integer that `s` writes: digits, after one sign at most.
pub open spec fn parsed_int(s: Seq<char>) -> Option<int> {
    if s.len() > 1 && s[0] == '-' && all_digits(s.skip(1)) {
        Some(-(digits_value(s.skip(1)) as int))
    } else if s.len() > 1 && s[0] == '+' && all_digits(s.skip(1)) {
        Some(digits_value(s.skip(1)) as int)
    } else if s.len() > 0 && all_digits(s) {
        Some(digits_value(s) as int)
    } else {
        None
    }
}

/// The number that `s` writes, where it fits: digits, after a plus sign at most.
pub open spec fn parsed_u64(s: Seq<char>) -> Option<u64> {
    if s.len() > 0 && s[0] == '-' {
        None
    } else {
        match parsed_int(s) {
            Some(n) if n <= u64::MAX => Some(n as u64),
            _ => None,
        }
    }
}

/// The integer that `s` writes, where it fits in 64 bits.
pub open spec fn parsed_i64(s: Seq<char>) -> Option<i64> {
    match parsed_int(s) {
        Some(n) if i64::MIN <= n <= i64::MAX => Some(n as i64),
        _ => None,
    }
}

/// `parts` one after the other, with `sep` between them.
pub open spec fn joined(parts: Seq<Seq<char>>, sep: Seq<char>) -> Seq<char>
    decreases parts.len(),
{
    if parts.len() == 0 {
        Seq::empty()
    } else if parts.len() == 1 {
        parts[0]
    } else {
        joined(parts.drop_last(), sep) + sep + parts.last()
    }
}

/// A text may be cut after its first `n` bytes: no character is split there.
pub open spec fn cut_ok(s: Seq<char>, n: int) -> bool {
    is_char_boundary(encode_utf8(s), n)
}

/// The text of the first `n` bytes of `s`.
pub open spec fn byte_prefix(s: Seq<char>, n: int) -> Seq<char> {
    decode_utf8(encode_utf8(s).take(n))
}

/// The text of `s` behind its first `n` bytes.
pub open spec fn byte_suffix(s: Seq<char>, n: int) -> Seq<char> {
    decode_utf8(encode_utf8(s).skip(n))
}

pub open spec fn min_int(a: int, b: int) -> int {
    if a <= b {
        a
    } else {
        b
    }
}

/// What `str::to_lowercase` makes of a string.
pub uninterp spec fn unicode_lowered(s: Seq<char>) -> Seq<char>;

// ---------------------------------------------------------------------------
// Lemmas
// ---------------------------------------------------------------------------
pub proof fn lemma_char_pos(s: Seq<char>, c: char)
    ensures
        0 <= char_pos(s, c) <= s.len(),
        char_pos(s, c) < s.len() <==> s.contains(c),
        char_pos(s, c) < s.len() ==> s[char_pos(s, c)] == c,
        forall|j: int| 0 <= j < char_pos(s, c) ==> s[j] != c,
    decreases s.len(),
{
    if s.len() == 0 {
    } else if s[0] == c {
        assert(s.contains(c));
    } else {
        let t = s.drop_first();
        lemma_char_pos(t, c);
        assert forall|j: int| 0 <= j < char_pos(s, c) implies s[j] != c by {
            if j > 0 {
                assert(t[j - 1] == s[j]);
            }
        }
        if s.contains(c) {
            let k = choose|k: int| 0 <= k < s.len() && s[k] == c;
            assert(t[k - 1] == c);
        }
        if t.contains(c) {
            let k = choose|k: int| 0 <= k < t.len() && t[k] == c;
            assert(s[k + 1] == c);
        }
    }
}

pub proof fn lemma_find_pos(s: Seq<char>, pat: Seq<char>, i: int)
    requires
        first_at(s, pat, i),
    ensures
        find_pos(s, pat) == Some(i),
{
    let w = choose|w: int| first_at(s, pat, w);
    assert(first_at(s, pat, w));
    if w < i {
        assert(!occurs_at(s, pat, w));
    }
    if i < w {
        assert(!occurs_at(s, pat, i));
    }
}

pub proof fn lemma_rfind_pos(s: Seq<char>, pat: Seq<char>, i: int)
    requires
        last_at(s, pat, i),
    ensures
        rfind_pos(s, pat) == Some(i),
{
    let w = choose|w: int| last_at(s, pat, w);
    assert(last_at(s, pat, w));
    if w < i {
        assert(!occurs_at(s, pat, i));
    }
    if i < w {
        assert(!occurs_at(s, pat, w));
    }
}

/// The first position of a character is what `char_pos` says.
pub proof fn lemma_char_pos_is(s: Seq<char>, c: char, k: int)
    requires
        0 <= k <= s.len(),
        forall|j: int| 0 <= j < k ==> s[j] != c,
        k < s.len() ==> s[k] == c,
    ensures
        char_pos(s, c) == k,
{
    lemma_char_pos(s, c);
    let p = char_pos(s, c);
    if p < k {
        assert(s[p] == c);
    }
    if k < p {
        assert(s[k] != c);
    }
}

proof fn lemma_pos_by(s: Seq<char>, p: spec_fn(char) -> bool)
    ensures
        0 <= pos_by(s, p) <= s.len(),
        pos_by(s, p) < s.len() ==> p(s[pos_by(s, p)]),
        forall|j: int| 0 <= j < pos_by(s, p) ==> !p(#[trigger] s[j]),
        s.len() > 0 && !p(s[0]) ==> pos_by(s, p) > 0,
    decreases s.len(),
{
    if s.len() > 0 && !p(s[0]) {
        let t = s.drop_first();
        lemma_pos_by(t, p);
        assert forall|j: int| 0 <= j < pos_by(s, p) implies !p(#[trigger] s[j]) by {
            if j > 0 {
                assert(t[j - 1] == s[j]);
            }
        }
    }
}

proof fn lemma_pos_by_is(s: Seq<char>, p: spec_fn(char) -> bool, k: int)
    requires
        0 <= k <= s.len(),
        forall|j: int| 0 <= j < k ==> !p(#[trigger] s[j]),
        k < s.len() ==> p(s[k]),
    ensures
        pos_by(s, p) == k,
{
    lemma_pos_by(s, p);
    let q = pos_by(s, p);
    if q < k {
        assert(p(s[q]));
    }
    if k < q {
        assert(!p(s[k]));
    }
}

/// Trimming at the start leaves a suffix, which does not start with what was
/// trimmed.
pub proof fn lemma_trim_start_shape(s: Seq<char>, p: spec_fn(char) -> bool)
    ensures
        trim_start_by(s, p).len() <= s.len(),
        trim_start_by(s, p) == s.skip(s.len() - trim_start_by(s, p).len()),
        trim_start_by(s, p).len() > 0 ==> !p(trim_start_by(s, p)[0]),
    decreases s.len(),
{
    if s.len() > 0 && p(s[0]) {
        lemma_trim_start_shape(s.drop_first(), p);
        assert(trim_start_by(s, p) =~= s.skip(s.len() - trim_start_by(s, p).len()));
    } else {
        assert(s =~= s.skip(0));
    }
}

/// Trimming at the end leaves a prefix, which does not end with what was
/// trimmed.
pub proof fn lemma_trim_end_shape(s: Seq<char>, p: spec_fn(char) -> bool)
    ensures
        trim_end_by(s, p).len() <= s.len(),
        trim_end_by(s, p) == s.take(trim_end_by(s, p).len() as int),
        trim_end_by(s, p).len() > 0 ==> !p(trim_end_by(s, p).last()),
    decreases s.len(),
{
    if s.len() > 0 && p(s.last()) {
        lemma_trim_end_shape(s.drop_last(), p);
        assert(trim_end_by(s, p) =~= s.take(trim_end_by(s, p).len() as int));
    } else {
        assert(s =~= s.take(s.len() as int));
    }
}

/// Text without white space at its ends is not changed by trimming.
pub proof fn lemma_trimmed_same(s: Seq<char>)
    requires
        s.len() > 0 ==> !is_space(s[0]) && !is_space(s.last()),
    ensures
        trimmed(s) == s,
{
    if s.len() > 0 {
        lemma_trim_start_skip(s, spaces(), 0);
        assert(s.skip(0) =~= s);
        lemma_trim_end_take(s, spaces(), s.len() as int);
        assert(s.take(s.len() as int) =~= s);
    }
}

/// Trimmed text has no white space at its ends, and is not changed by trimming
/// again.
pub proof fn lemma_trimmed_twice(s: Seq<char>)
    ensures
        trimmed(trimmed(s)) == trimmed(s),
        trimmed(s).len() > 0 ==> !is_space(trimmed(s)[0]) && !is_space(trimmed(s).last()),
{
    let a = trim_start_by(s, spaces());
    let t = trimmed(s);
    lemma_trim_start_shape(s, spaces());
    lemma_trim_end_shape(a, spaces());
    if t.len() > 0 {
        assert(t[0] == a[0]);
    }
    lemma_trimmed_same(t);
}

pub proof fn lemma_trim_start_skip(s: Seq<char>, p: spec_fn(char) -> bool, k: int)
    requires
        0 <= k <= s.len(),
        forall|j: int| 0 <= j < k ==> p(#[trigger] s[j]),
        k < s.len() ==> !p(s[k]),
    ensures
        trim_start_by(s, p) == s.skip(k),
    decreases k,
{
    if k > 0 {
        let t = s.drop_first();
        assert forall|j: int| 0 <= j < k - 1 implies p(#[trigger] t[j]) by {
            assert(t[j] == s[j + 1]);
        }
        lemma_trim_start_skip(t, p, k - 1);
        assert(t.skip(k - 1) =~= s.skip(k));
    } else {
        assert(s.skip(0) =~= s);
    }
}

pub proof fn lemma_trim_end_take(s: Seq<char>, p: spec_fn(char) -> bool, k: int)
    requires
        0 <= k <= s.len(),
        forall|j: int| k <= j < s.len() ==> p(#[trigger] s[j]),
        k > 0 ==> !p(s[k - 1]),
    ensures
        trim_end_by(s, p) == s.take(k),
    decreases s.len() - k,
{
    if k < s.len() {
        let t = s.drop_last();
        assert forall|j: int| k <= j < t.len() implies p(#[trigger] t[j]) by {
            assert(t[j] == s[j]);
        }
        lemma_trim_end_take(t, p, k);
        assert(t.take(k) =~= s.take(k));
    } else {
        assert(s.take(k) =~= s);
    }
}

proof fn lemma_digits_value_grows(s: Seq<char>, k: int)
    requires
        0 <= k <= s.len(),
        all_digits(s),
    ensures
        digits_value(s.take(k)) <= digits_value(s),
    decreases s.len(),
{
    if k < s.len() {
        let t = s.drop_last();
        assert(all_digits(t)) by {
            assert forall|i: int| 0 <= i < t.len() implies is_digit(#[trigger] t[i]) by {
                assert(t[i] == s[i]);
            }
        }
        lemma_digits_value_grows(t, k);
        assert(t.take(k) =~= s.take(k));
    } else {
        assert(s.take(k) =~= s);
    }
}

/// A cut in ASCII text falls between two characters.
pub proof fn lemma_ascii_cut(s: Seq<char>, n: int)
    requires
        is_ascii_chars(s),
        0 <= n <= s.len(),
    ensures
        encode_utf8(s).len() == s.len(),
        cut_ok(s, n),
        byte_prefix(s, n) == s.take(n),
        byte_suffix(s, n) == s.skip(n),
{
    broadcast use vstd::utf8::group_utf8_lib;

    let b = encode_utf8(s);
    vstd::utf8::is_ascii_chars_encode_utf8(s);
    let head = s.take(n);
    let tail = s.skip(n);
    assert(is_ascii_chars(head));
    assert(is_ascii_chars(tail));
    vstd::utf8::is_ascii_chars_encode_utf8(head);
    vstd::utf8::is_ascii_chars_encode_utf8(tail);
    assert(encode_utf8(head) =~= b.take(n));
    assert(encode_utf8(tail) =~= b.skip(n));
    if n == b.len() || n == 0 {
        vstd::utf8::is_char_boundary_start_end_of_seq(b);
    } else {
        vstd::utf8::is_char_boundary_iff_not_is_continuation_byte(b, n);
        let x = b[n];
        assert(s[n] as u8 == x);
        assert(x <= 0x7f);
        assert(!vstd::utf8::is_continuation_byte(x));
    }
}

// ---------------------------------------------------------------------------
// Executable helpers
// ---------------------------------------------------------------------------
/// The characters of `s`, as a vector that can be indexed.
pub fn chars_of(s: &str) -> (r: Vec<char>)
    ensures
        r@ == s@,
{
    let mut out: Vec<char> = Vec::new();
    for c in it: s.chars()
        invariant
            out@ == it.seq().take(it.index()),
            it.seq() == s@,
    {
        out.push(c);
    }
    out
}

/// Equality of two strings.
pub fn same(a: &str, b: &str) -> (r: bool)
    ensures
        r == (a@ == b@),
{
    let x = a.as_bytes();
    let y = b.as_bytes();
    proof {
        vstd::utf8::encode_utf8_decode_utf8(a@);
        vstd::utf8::encode_utf8_decode_utf8(b@);
    }
    if x.len() != y.len() {
        return false;
    }
    for i in 0..x.len()
        invariant
            x@ == encode_utf8(a@),
            y@ == encode_utf8(b@),
            x@.len() == y@.len(),
            forall|j: int| 0 <= j < i ==> x@[j] == y@[j],
    {
        if x[i] != y[i] {
            return false;
        }
    }
    proof {
        assert(x@ =~= y@);
    }
    true
}

/// A copy of an optional string.
pub fn clone_opt(o: &Option<String>) -> (r: Option<String>)
    ensures
        r == *o,
{
    match o {
        Some(s) => Some(s.clone()),
        None => None,
    }
}

/// A copy of a list of strings.
pub fn clone_strings(v: &Vec<String>) -> (r: Vec<String>)
    ensures
        r@ == v@,
        views(r@) == views(v@),
{
    let mut out: Vec<String> = Vec::new();
    for i in 0..v.len()
        invariant
            out@ == v@.take(i as int),
    {
        out.push(v[i].clone());
    }
    out
}

/// Whether a list of strings holds `s`.
pub fn list_holds(v: &Vec<String>, s: &str) -> (r: bool)
    ensures
        r == views(v@).contains(s@),
{
    for i in 0..v.len()
        invariant
            forall|j: int| 0 <= j < i ==> v@[j]@ != s@,
    {
        if same(v[i].as_str(), s) {
            proof {
                assert(views(v@)[i as int] == s@);
            }
            return true;
        }
    }
    proof {
        assert forall|j: int| 0 <= j < views(v@).len() implies views(v@)[j] != s@ by {
            assert(views(v@)[j] == v@[j]@);
        }
    }
    false
}

pub fn space_char(c: char) -> (r: bool)
    ensures
        r == is_space(c),
{
    ('\u{9}' <= c && c <= '\u{d}') || c == ' ' || c == '\u{85}' || c == '\u{a0}' || c == '\u{1680}'
        || ('\u{2000}' <= c && c <= '\u{200a}') || c == '\u{2028}' || c == '\u{2029}' || c
        == '\u{202f}' || c == '\u{205f}' || c == '\u{3000}'
}

pub fn set_holds(set: &[char], c: char) -> (r: bool)
    ensures
        r == set@.contains(c),
{
    for i in 0..set.len()
        invariant
            forall|j: int| 0 <= j < i ==> set@[j] != c,
    {
        if set[i] == c {
            return true;
        }
    }
    false
}

/// `str::trim`.
pub fn trim(s: &str) -> (r: &str)
    ensures
        r@ == trimmed(s@),
{
    let v = chars_of(s);
    let mut i: usize = 0;
    while i < v.len() && space_char(v[i])
        invariant
            i <= v.len(),
            forall|j: int| 0 <= j < i ==> spaces()(#[trigger] v@[j]),
        decreases v.len() - i,
    {
        i += 1;
    }
    let ghost t = s@.skip(i as int);
    proof {
        lemma_trim_start_skip(s@, spaces(), i as int);
    }
    let mut j: usize = v.len();
    while i < j && space_char(v[j - 1])
        invariant
            i <= j <= v.len(),
            forall|k: int| j <= k < v.len() ==> spaces()(#[trigger] v@[k]),
        decreases j - i,
    {
        j -= 1;
    }
    proof {
        assert forall|k: int| j - i <= k < t.len() implies spaces()(#[trigger] t[k]) by {
            assert(t[k] == v@[k + i]);
        }
        lemma_trim_end_take(t, spaces(), j - i);
        assert(t.take(j - i) =~= s@.subrange(i as int, j as int));
    }
    s.substring_char(i, j)
}

/// `str::trim_start_matches`, for a set of characters.
pub fn trim_start_set<'a>(s: &'a str, set: &[char]) -> (r: &'a str)
    ensures
        r@ == trim_start_by(s@, one_of(set@)),
{
    let v = chars_of(s);
    let mut i: usize = 0;
    while i < v.len() && set_holds(set, v[i])
        invariant
            i <= v.len(),
            forall|j: int| 0 <= j < i ==> one_of(set@)(#[trigger] v@[j]),
        decreases v.len() - i,
    {
        i += 1;
    }
    proof {
        lemma_trim_start_skip(s@, one_of(set@), i as int);
        assert(s@.skip(i as int) =~= s@.subrange(i as int, v.len() as int));
    }
    s.substring_char(i, v.len())
}

/// `str::trim_end_matches`, for a set of characters.
pub fn trim_end_set<'a>(s: &'a str, set: &[char]) -> (r: &'a str)
    ensures
        r@ == trim_end_by(s@, one_of(set@)),
{
    let v = chars_of(s);
    let mut j: usize = v.len();
    while 0 < j && set_holds(set, v[j - 1])
        invariant
            j <= v.len(),
            forall|k: int| j <= k < v.len() ==> one_of(set@)(#[trigger] v@[k]),
        decreases j,
    {
        j -= 1;
    }
    proof {
        lemma_trim_end_take(s@, one_of(set@), j as int);
        assert(s@.take(j as int) =~= s@.subrange(0, j as int));
    }
    s.substring_char(0, j)
}

pub fn lower_of(c: char) -> (r: char)
    ensures
        r == lower_char(c),
{
    if 'A' <= c && c <= 'Z' {
        ((c as u8) + 32) as char
    } else {
        c
    }
}

/// `str::to_ascii_lowercase`.
pub fn lower(s: &str) -> (r: String)
    ensures
        r@ == lowered(s@),
{
    let v = chars_of(s);
    let mut out = String::new();
    for i in 0..v.len()
        invariant
            v@ == s@,
            out@ == lowered(s@).take(i as int),
    {
        out.push(lower_of(v[i]));
        proof {
            assert(lowered(s@).take(i + 1) =~= lowered(s@).take(i as int).push(lower_char(s@[i as int])));
        }
    }
    proof {
        assert(lowered(s@).take(v@.len() as int) =~= lowered(s@));
    }
    out
}

/// `str::replace`, of one character by another.
pub fn replace_char(s: &str, from: char, to: char) -> (r: String)
    ensures
        r@ == replaced(s@, from, to),
{
    let v = chars_of(s);
    let mut out = String::new();
    for i in 0..v.len()
        invariant
            v@ == s@,
            out@ == replaced(s@, from, to).take(i as int),
    {
        let c = if v[i] == from {
            to
        } else {
            v[i]
        };
        out.push(c);
        proof {
            assert(replaced(s@, from, to).take(i + 1) =~= replaced(s@, from, to).take(
                i as int,
            ).push(c));
        }
    }
    proof {
        assert(replaced(s@, from, to).take(v@.len() as int) =~= replaced(s@, from, to));
    }
    out
}

/// `str::replace`, of one character by nothing.
pub fn remove_char(s: &str, c: char) -> (r: String)
    ensures
        r@ == without_char(s@, c),
{
    let v = chars_of(s);
    let ghost keep = other_than(c);
    let mut out = String::new();
    proof {
        reveal(Seq::filter);
        assert(s@.take(0).filter(keep) =~= Seq::empty());
    }
    for i in 0..v.len()
        invariant
            v@ == s@,
            keep == other_than(c),
            out@ == s@.take(i as int).filter(keep),
    {
        proof {
            reveal(Seq::filter);
            assert(s@.take(i + 1).drop_last() =~= s@.take(i as int));
            assert(s@.take(i + 1).last() == v@[i as int]);
        }
        if v[i] != c {
            out.push(v[i]);
        }
    }
    proof {
        assert(s@.take(v@.len() as int) =~= s@);
    }
    out
}

/// `str::eq_ignore_ascii_case`.
pub fn same_ignoring_case(a: &str, b: &str) -> (r: bool)
    ensures
        r == (lowered(a@) == lowered(b@)),
{
    let x = lower(a);
    let y = lower(b);
    same(x.as_str(), y.as_str())
}

/// `str::to_lowercase`: what comes out is a function of the string alone, and on
/// ASCII text it is the text with its capitals made small. What Unicode makes of
/// other text is not stated.
#[verifier::external_body]
pub(crate) fn unicode_lower(s: &str) -> (r: String)
    ensures
        r@ == unicode_lowered(s@),
        (forall|i: int| 0 <= i < s@.len() ==> #[trigger] s@[i] <= '\u{7f}') ==> r@ == lowered(s@),
{
    s.to_lowercase()
}

fn piece_occurs(v: &Vec<char>, p: &Vec<char>, i: usize) -> (r: bool)
    requires
        i + p.len() <= v.len(),
    ensures
        r == occurs_at(v@, p@, i as int),
{
    let mut k: usize = 0;
    while k < p.len()
        invariant
            k <= p.len(),
            i + p.len() <= v.len(),
            forall|j: int| 0 <= j < k ==> v@[i + j] == p@[j],
        decreases p.len() - k,
    {
        if v[i + k] != p[k] {
            proof {
                assert(v@.subrange(i as int, i + p.len())[k as int] != p@[k as int]);
            }
            return false;
        }
        k += 1;
    }
    proof {
        assert(v@.subrange(i as int, i + p.len()) =~= p@);
    }
    true
}

/// `str::find`, as a position in characters.
pub fn find(s: &str, pat: &str) -> (r: Option<usize>)
    ensures
        match r {
            Some(i) => first_at(s@, pat@, i as int),
            None => !holds_text(s@, pat@),
        },
        opt_int(r) == find_pos(s@, pat@),
{
    let v = chars_of(s);
    let p = chars_of(pat);
    if p.len() > v.len() {
        return None;
    }
    let last: usize = v.len() - p.len();
    let mut i: usize = 0;
    while i <= last
        invariant
            v@ == s@,
            p@ == pat@,
            last + p.len() == v.len(),
            i <= last + 1,
            forall|j: int| 0 <= j < i ==> !occurs_at(s@, pat@, j),
        decreases last + 1 - i,
    {
        if piece_occurs(&v, &p, i) {
            proof {
                lemma_find_pos(s@, pat@, i as int);
            }
            return Some(i);
        }
        if i == last {
            return None;
        }
        i += 1;
    }
    None
}

/// `str::rfind`, as a position in characters.
pub fn rfind(s: &str, pat: &str) -> (r: Option<usize>)
    ensures
        match r {
            Some(i) => last_at(s@, pat@, i as int),
            None => !holds_text(s@, pat@),
        },
        opt_int(r) == rfind_pos(s@, pat@),
{
    let v = chars_of(s);
    let p = chars_of(pat);
    if p.len() > v.len() {
        return None;
    }
    let mut i: usize = v.len() - p.len();
    loop
        invariant
            v@ == s@,
            p@ == pat@,
            i + p.len() <= v.len(),
            forall|j: int| i < j ==> !occurs_at(s@, pat@, j),
        decreases i,
    {
        if piece_occurs(&v, &p, i) {
            proof {
                lemma_rfind_pos(s@, pat@, i as int);
            }
            return Some(i);
        }
        if i == 0 {
            return None;
        }
        i -= 1;
    }
}

/// `str::contains`.
pub fn contains(s: &str, pat: &str) -> (r: bool)
    ensures
        r == holds_text(s@, pat@),
{
    find(s, pat).is_some()
}

pub fn contains_char(s: &str, c: char) -> (r: bool)
    ensures
        r == s@.contains(c),
{
    let v = chars_of(s);
    set_holds(v.as_slice(), c)
}

/// `str::starts_with`.
pub fn starts_with(s: &str, pat: &str) -> (r: bool)
    ensures
        r == has_prefix(s@, pat@),
{
    let v = chars_of(s);
    let p = chars_of(pat);
    p.len() <= v.len() && piece_occurs(&v, &p, 0)
}

/// `str::ends_with`.
pub fn ends_with(s: &str, pat: &str) -> (r: bool)
    ensures
        r == has_suffix(s@, pat@),
{
    let v = chars_of(s);
    let p = chars_of(pat);
    p.len() <= v.len() && piece_occurs(&v, &p, v.len() - p.len())
}

/// `str::strip_prefix`.
pub fn strip_prefix<'a>(s: &'a str, pat: &str) -> (r: Option<&'a str>)
    ensures
        match r {
            Some(t) => has_prefix(s@, pat@) && t@ == s@.skip(pat@.len() as int),
            None => !has_prefix(s@, pat@),
        },
{
    if starts_with(s, pat) {
        let n: usize = s.unicode_len();
        let k: usize = pat.unicode_len();
        proof {
            assert(s@.subrange(k as int, n as int) =~= s@.skip(k as int));
        }
        Some(s.substring_char(k, n))
    } else {
        None
    }
}

/// `str::split_once`, at a character.
pub fn split_once<'a>(s: &'a str, c: char) -> (r: Option<(&'a str, &'a str)>)
    ensures
        match r {
            Some((a, b)) => s@.contains(c) && a@ == before_char(s@, c) && b@ == after_char(s@, c),
            None => !s@.contains(c),
        },
{
    let v = chars_of(s);
    let mut i: usize = 0;
    while i < v.len()
        invariant
            v@ == s@,
            i <= v.len(),
            forall|j: int| 0 <= j < i ==> v@[j] != c,
        decreases v.len() - i,
    {
        if v[i] == c {
            proof {
                lemma_char_pos_is(s@, c, i as int);
                lemma_char_pos(s@, c);
                assert(s@.subrange(0, i as int) =~= s@.take(i as int));
                assert(s@.subrange(i + 1, v.len() as int) =~= s@.skip(i + 1));
            }
            return Some((s.substring_char(0, i), s.substring_char(i + 1, v.len())));
        }
        i += 1;
    }
    None
}

/// `str::split`, at a character.
pub fn split(s: &str, c: char) -> (r: Vec<String>)
    ensures
        views(r@) == pieces(s@, c),
{
    let mut out: Vec<String> = Vec::new();
    let mut rest: &str = s;
    proof {
        assert(views(out@) + pieces(rest@, c) =~= pieces(s@, c));
    }
    loop
        invariant
            views(out@) + pieces(rest@, c) == pieces(s@, c),
        decreases rest@.len(),
    {
        match split_once(rest, c) {
            Some((a, b)) => {
                proof {
                    lemma_char_pos(rest@, c);
                    let before = out@;
                    let piece = seq![a@];
                    assert(pieces(rest@, c) == piece + pieces(b@, c));
                    assert(views(before) + (piece + pieces(b@, c)) =~= (views(before) + piece)
                        + pieces(b@, c));
                }
                let ghost before = out@;
                out.push(a.to_owned());
                proof {
                    assert(views(out@) =~= views(before) + seq![a@]);
                }
                rest = b;
            },
            None => {
                let ghost before = out@;
                out.push(rest.to_owned());
                proof {
                    assert(views(out@) =~= views(before) + seq![rest@]);
                }
                return out;
            },
        }
    }
}

/// `str::lines`.
pub fn lines(s: &str) -> (r: Vec<String>)
    ensures
        views(r@) == text_lines(s@),
{
    let mut out: Vec<String> = Vec::new();
    let mut rest: &str = s;
    proof {
        assert(views(out@) + text_lines(rest@) =~= text_lines(s@));
    }
    loop
        invariant
            views(out@) + text_lines(rest@) == text_lines(s@),
        decreases rest@.len(),
    {
        if rest.is_empty() {
            proof {
                assert(views(out@) + text_lines(rest@) =~= views(out@));
            }
            return out;
        }
        let ghost before = out@;
        match split_once(rest, '\n') {
            Some((a, b)) => {
                let n: usize = a.unicode_len();
                let line: &str = if n > 0 && a.get_char(n - 1) == '\r' {
                    a.substring_char(0, n - 1)
                } else {
                    a
                };
                proof {
                    lemma_char_pos(rest@, '\n');
                    assert(line@ =~= without_cr(a@));
                    let piece = seq![line@];
                    assert(text_lines(rest@) == piece + text_lines(b@));
                    assert(views(before) + (piece + text_lines(b@)) =~= (views(before) + piece)
                        + text_lines(b@));
                }
                out.push(line.to_owned());
                proof {
                    assert(views(out@) =~= views(before) + seq![line@]);
                }
                rest = b;
            },
            None => {
                out.push(rest.to_owned());
                proof {
                    assert(views(out@) =~= views(before) + seq![rest@]);
                }
                return out;
            },
        }
    }
}

pub proof fn lemma_words_step(s: Seq<char>, p: spec_fn(char) -> bool, a: int, b: int)
    requires
        0 <= a < b <= s.len(),
        forall|j: int| 0 <= j < a ==> p(#[trigger] s[j]),
        forall|j: int| a <= j < b ==> !p(#[trigger] s[j]),
        b < s.len() ==> p(s[b]),
    ensures
        words(s, p) == seq![s.subrange(a, b)] + words(s.skip(b), p),
{
    let t = s.skip(a);
    lemma_trim_start_skip(s, p, a);
    lemma_pos_by_is(t, p, b - a);
    assert(t.take(b - a) =~= s.subrange(a, b));
    assert(t.skip(b - a) =~= s.skip(b));
}

proof fn lemma_words_none(s: Seq<char>, p: spec_fn(char) -> bool)
    requires
        forall|j: int| 0 <= j < s.len() ==> p(#[trigger] s[j]),
    ensures
        words(s, p) == Seq::<Seq<char>>::empty(),
{
    lemma_trim_start_skip(s, p, s.len() as int);
}

fn separator_char(c: char, ascii: bool) -> (r: bool)
    ensures
        r == separators(ascii)(c),
{
    if ascii {
        c == ' ' || c == '\t' || c == '\n' || c == '\u{c}' || c == '\r'
    } else {
        space_char(c)
    }
}

/// `str::split_ascii_whitespace` or `str::split_whitespace`.
pub fn split_words(s: &str, ascii: bool) -> (r: Vec<String>)
    ensures
        views(r@) == words(s@, separators(ascii)),
{
    let v = chars_of(s);
    let ghost p = separators(ascii);
    let mut out: Vec<String> = Vec::new();
    let mut i: usize = 0;
    proof {
        assert(s@.skip(0) =~= s@);
        assert(views(out@) + words(s@, p) =~= words(s@, p));
    }
    loop
        invariant
            v@ == s@,
            p == separators(ascii),
            i <= v.len(),
            views(out@) + words(s@.skip(i as int), p) == words(s@, p),
        decreases v.len() - i,
    {
        let ghost here = s@.skip(i as int);
        let mut a: usize = i;
        while a < v.len() && separator_char(v[a], ascii)
            invariant
                v@ == s@,
                p == separators(ascii),
                i <= a <= v.len(),
                here == s@.skip(i as int),
                forall|j: int| 0 <= j < a - i ==> p(#[trigger] here[j]),
            decreases v.len() - a,
        {
            a += 1;
        }
        if a == v.len() {
            proof {
                lemma_words_none(here, p);
                assert(views(out@) + words(here, p) =~= views(out@));
            }
            return out;
        }
        let mut b: usize = a + 1;
        while b < v.len() && !separator_char(v[b], ascii)
            invariant
                v@ == s@,
                p == separators(ascii),
                i <= a < b <= v.len(),
                here == s@.skip(i as int),
                !p(v@[a as int]),
                forall|j: int| a - i <= j < b - i ==> !p(#[trigger] here[j]),
            decreases v.len() - b,
        {
            b += 1;
        }
        let word = s.substring_char(a, b);
        let ghost before = out@;
        proof {
            lemma_words_step(here, p, a - i, b - i);
            assert(here.subrange(a - i, b - i) =~= word@);
            assert(here.skip(b - i) =~= s@.skip(b as int));
            lemma_append_one(views(before), word@, words(s@.skip(b as int), p));
        }
        out.push(word.to_owned());
        proof {
            assert(views(out@) =~= views(before).push(word@));
        }
        i = b;
    }
}

proof fn lemma_append_one<A>(a: Seq<A>, x: A, b: Seq<A>)
    ensures
        a + (seq![x] + b) == a.push(x) + b,
{
    assert(a + (seq![x] + b) =~= a.push(x) + b);
}

/// The decimal writing of a long number.
pub fn long_decimal_of(n: u128) -> (r: String)
    ensures
        r@ == decimal(n as nat),
    decreases n,
{
    let d: u8 = (n % 10) as u8;
    let c = (d + 48) as char;
    if n < 10 {
        let mut s = String::new();
        s.push(c);
        proof {
            assert(s@ =~= decimal(n as nat));
        }
        s
    } else {
        let mut s = long_decimal_of(n / 10);
        s.push(c);
        s
    }
}

/// The decimal writing of `n`.
pub fn decimal_of(n: u64) -> (r: String)
    ensures
        r@ == decimal(n as nat),
    decreases n,
{
    let d: u8 = (n % 10) as u8;
    let c = (d + 48) as char;
    if n < 10 {
        let mut s = String::new();
        s.push(c);
        proof {
            assert(s@ =~= decimal(n as nat));
        }
        s
    } else {
        let mut s = decimal_of(n / 10);
        s.push(c);
        s
    }
}

/// The decimal writing of a signed number.
pub fn signed_decimal_of(n: i64) -> (r: String)
    ensures
        r@ == signed_decimal(n as int),
{
    if n < 0 {
        let m: u64 = (-(n as i128)) as u64;
        let mut s = String::new();
        s.push('-');
        let d = decimal_of(m);
        s.append(d.as_str());
        proof {
            assert(s@ =~= signed_decimal(n as int));
        }
        s
    } else {
        decimal_of(n as u64)
    }
}

/// The number that the digits write, unless it is greater than `max`.
fn digits_of(v: &Vec<char>, from: usize, max: u64) -> (r: Option<u64>)
    requires
        from <= v.len(),
    ensures
        match r {
            Some(n) => all_digits(v@.skip(from as int)) && n == digits_value(v@.skip(from as int))
                && n <= max,
            None => !all_digits(v@.skip(from as int)) || digits_value(v@.skip(from as int)) > max,
        },
{
    let ghost t = v@.skip(from as int);
    let mut i: usize = from;
    let mut n: u64 = 0;
    proof {
        assert(t.take(0) =~= Seq::empty());
    }
    while i < v.len()
        invariant
            from <= i <= v.len(),
            t == v@.skip(from as int),
            n <= max,
            n == digits_value(t.take(i - from)),
            forall|j: int| 0 <= j < i - from ==> is_digit(#[trigger] t[j]),
        decreases v.len() - i,
    {
        let c = v[i];
        if !('0' <= c && c <= '9') {
            proof {
                assert(!is_digit(t[i - from]));
            }
            return None;
        }
        let d: u64 = (c as u32 - 48) as u64;
        let wide: u128 = (n as u128) * 10 + d as u128;
        proof {
            assert(t.take(i - from + 1).drop_last() =~= t.take(i - from));
            assert(t.take(i - from + 1).last() == c);
            assert(digits_value(t.take(i - from + 1)) == wide);
            if all_digits(t) {
                lemma_digits_value_grows(t, i - from + 1);
            }
        }
        if wide > max as u128 {
            return None;
        }
        n = wide as u64;
        i += 1;
    }
    proof {
        assert(t.take(i - from) =~= t);
    }
    Some(n)
}

/// `str::parse::<u64>`; `None` where that fails.
pub fn parse_u64(s: &str) -> (r: Option<u64>)
    ensures
        r == parsed_u64(s@),
{
    let v = chars_of(s);
    if v.len() == 0 {
        return None;
    }
    if v[0] == '-' {
        return None;
    }
    if v[0] == '+' {
        proof {
            assert(!is_digit(v@[0]));
        }
        if v.len() == 1 {
            return None;
        }
        return digits_of(&v, 1, u64::MAX);
    }
    proof {
        assert(v@.skip(0) =~= v@);
    }
    digits_of(&v, 0, u64::MAX)
}

/// `str::parse::<i64>`; `None` where that fails.
pub fn parse_i64(s: &str) -> (r: Option<i64>)
    ensures
        r == parsed_i64(s@),
{
    let v = chars_of(s);
    if v.len() == 0 {
        return None;
    }
    let max: u64 = 0x7fff_ffff_ffff_ffff;
    if v[0] == '-' {
        proof {
            assert(!is_digit(v@[0]));
        }
        if v.len() == 1 {
            return None;
        }
        return match digits_of(&v, 1, max + 1) {
            Some(n) => {
                let wide: i128 = -(n as i128);
                Some(wide as i64)
            },
            None => None,
        };
    }
    if v[0] == '+' {
        proof {
            assert(!is_digit(v@[0]));
        }
        if v.len() == 1 {
            return None;
        }
        return match digits_of(&v, 1, max) {
            Some(n) => Some(n as i64),
            None => None,
        };
    }
    proof {
        assert(v@.skip(0) =~= v@);
    }
    match digits_of(&v, 0, max) {
        Some(n) => Some(n as i64),
        None => None,
    }
}

/// The length of `s` in bytes.
pub fn byte_len(s: &str) -> (r: usize)
    ensures
        r == encode_utf8(s@).len(),
{
    s.as_bytes().len()
}

/// The first `n` bytes of `s`.
pub fn byte_take(s: &str, n: usize) -> (r: &str)
    requires
        cut_ok(s@, n as int),
        n <= encode_utf8(s@).len(),
    ensures
        r@ == byte_prefix(s@, n as int),
{
    let (head, _tail) = s.split_at(n);
    proof {
        vstd::utf8::encode_utf8_decode_utf8(head@);
        assert(encode_utf8(s@).subrange(0, n as int) =~= encode_utf8(s@).take(n as int));
    }
    head
}

/// What follows the first `n` bytes of `s`.
pub fn byte_skip(s: &str, n: usize) -> (r: &str)
    requires
        cut_ok(s@, n as int),
        n <= encode_utf8(s@).len(),
    ensures
        r@ == byte_suffix(s@, n as int),
{
    let (_head, tail) = s.split_at(n);
    proof {
        vstd::utf8::encode_utf8_decode_utf8(tail@);
        assert(encode_utf8(s@).subrange(n as int, encode_utf8(s@).len() as int) =~= encode_utf8(
            s@,
        ).skip(n as int));
    }
    tail
}

/// Two texts, one after the other.
pub fn concat2(a: &str, b: &str) -> (r: String)
    ensures
        r@ == a@ + b@,
{
    let mut s = a.to_owned();
    s.append(b);
    s
}

/// Three texts, one after the other.
pub fn concat3(a: &str, b: &str, c: &str) -> (r: String)
    ensures
        r@ == a@ + b@ + c@,
{
    let mut s = a.to_owned();
    s.append(b);
    s.append(c);
    s
}

/// `[T]::join` on strings.
pub fn join(parts: &Vec<String>, sep: &str) -> (r: String)
    ensures
        r@ == joined(views(parts@), sep@),
{
    let mut out = String::new();
    for i in 0..parts.len()
        invariant
            out@ == joined(views(parts@).take(i as int), sep@),
    {
        let ghost whole = views(parts@).take(i + 1);
        proof {
            assert(whole.drop_last() =~= views(parts@).take(i as int));
            assert(whole.last() == parts@[i as int]@);
        }
        if i > 0 {
            out.append(sep);
        }
        out.append(parts[i].as_str());
        proof {
            assert(out@ =~= joined(whole, sep@));
        }
    }
    proof {
        assert(views(parts@).take(parts@.len() as int) =~= views(parts@));
    }
    out
}

} // verus!

//! What texts are made of.

use crate::log_frame::{frame_of, is_named, MemberModel};
use crate::order::{is_stable_order, item_before, text_before, KeyModel};
use crate::text::{
    after_char, all_digits, before_char, decimal, digit_char, digits_value, find_pos, first_at,
    holds_text, is_space, joined, last_at, lemma_char_pos_is, lemma_find_pos, lemma_rfind_pos,
    lemma_trim_end_take, lemma_trim_start_skip, lemma_words_step, lowered, occurs_at, pieces,
    replaced, rfind_pos, separators, signed_decimal, spaces, text_lines, trim_start_by, trimmed,
    without_char, words,
};
use vstd::prelude::*;

verus! {

pub proof fn lemma_without_char(s: Seq<char>, c: char)
    ensures
        without_char(s, c).len() <= s.len(),
        !without_char(s, c).contains(c),
        !s.contains(c) ==> without_char(s, c) == s,
    decreases s.len(),
{
    reveal(Seq::filter);
    if s.len() > 0 {
        let t = s.drop_last();
        lemma_without_char(t, c);
        let before = without_char(t, c);
        let here = without_char(s, c);
        assert(s[s.len() - 1] == s.last());
        if here.contains(c) {
            let i = choose|i: int| 0 <= i < here.len() && here[i] == c;
            if i < before.len() {
                assert(before[i] == c);
            }
        }
        if !s.contains(c) {
            if t.contains(c) {
                let i = choose|i: int| 0 <= i < t.len() && t[i] == c;
                assert(s[i] == c);
            }
            assert(here =~= s);
        }
    } else {
        assert(without_char(s, c) =~= s);
    }
}

/// White space around a text is dropped, and nothing else is.
pub proof fn law_space_around_is_dropped(a: Seq<char>, m: Seq<char>, b: Seq<char>)
    requires
        forall|i: int| 0 <= i < a.len() ==> is_space(#[trigger] a[i]),
        forall|i: int| 0 <= i < b.len() ==> is_space(#[trigger] b[i]),
        m.len() > 0 ==> !is_space(m[0]) && !is_space(m.last()),
    ensures
        trimmed(a + m + b) == m,
{
    let s = a + m + b;
    let p = spaces();
    if m.len() > 0 {
        assert forall|j: int| 0 <= j < a.len() implies p(#[trigger] s[j]) by {
            assert(s[j] == a[j]);
        }
        assert(s[a.len() as int] == m[0]);
        lemma_trim_start_skip(s, p, a.len() as int);
        let t = s.skip(a.len() as int);
        assert(t =~= m + b);
        assert forall|j: int| m.len() <= j < t.len() implies p(#[trigger] t[j]) by {
            assert(t[j] == b[j - m.len()]);
        }
        assert(t[m.len() - 1] == m.last());
        lemma_trim_end_take(t, p, m.len() as int);
        assert(t.take(m.len() as int) =~= m);
    } else {
        assert forall|j: int| 0 <= j < s.len() implies p(#[trigger] s[j]) by {
            if j < a.len() {
                assert(s[j] == a[j]);
            } else {
                assert(s[j] == b[j - a.len()]);
            }
        }
        lemma_trim_start_skip(s, p, s.len() as int);
        assert(trimmed(s) =~= m);
    }
}

/// Blanks, tabs and line ends are white space; letters, digits and marks are not.
pub proof fn law_what_white_space_is(c: char)
    ensures
        c == ' ' || c == '\t' || c == '\n' || c == '\r' ==> is_space(c),
        '!' <= c <= '~' ==> !is_space(c),
{
}

/// Capitals are made small, and no other character changes.
pub proof fn law_capitals_are_made_small(s: Seq<char>, i: int)
    requires
        0 <= i < s.len(),
    ensures
        lowered(s).len() == s.len(),
        'A' <= s[i] <= 'Z' ==> lowered(s)[i] as int == s[i] as int + 32,
        !('A' <= s[i] <= 'Z') ==> lowered(s)[i] == s[i],
        lowered(lowered(s)) == lowered(s),
{
    assert(lowered(lowered(s)) =~= lowered(s));
}

/// A number reads back from its digits, of which the first is no zero unless it is the only
/// one.
pub proof fn law_numbers_read_back(n: nat)
    ensures
        all_digits(decimal(n)),
        digits_value(decimal(n)) == n,
        decimal(n).len() > 0,
        n > 0 ==> decimal(n)[0] != '0',
        signed_decimal(n as int) == decimal(n),
        n > 0 ==> signed_decimal(-(n as int)) == seq!['-'] + decimal(n),
    decreases n,
{
    reveal_with_fuel(digits_value, 2);
    if n < 10 {
        let d = decimal(n);
        assert(d.drop_last().len() == 0);
        assert(d.last() == digit_char(n));
    } else {
        law_numbers_read_back(n / 10);
        let t = decimal(n / 10);
        let d = decimal(n);
        assert(d.drop_last() =~= t);
        assert(d.last() == digit_char(n % 10));
        assert forall|i: int| 0 <= i < d.len() implies crate::text::is_digit(#[trigger] d[i]) by {
            if i < t.len() {
                assert(d[i] == t[i]);
            }
        }
        assert(d[0] == t[0]);
    }
}

/// A text is cut at each of the marks: the piece before the first, and those of what follows.
pub proof fn law_pieces_are_between_marks(a: Seq<char>, c: char, rest: Seq<char>)
    requires
        !a.contains(c),
    ensures
        pieces(a, c) == seq![a],
        pieces(a.push(c) + rest, c) == seq![a] + pieces(rest, c),
{
    let s = a.push(c) + rest;
    let n = a.len() as int;
    assert(s[n] == c);
    assert forall|j: int| 0 <= j < n implies s[j] != c by {
        assert(s[j] == a[j]);
        assert(a.contains(a[j]));
    }
    lemma_char_pos_is(s, c, n);
    assert(s.contains(c));
    assert(before_char(s, c) =~= a);
    assert(after_char(s, c) =~= rest);
}

/// The lines of a text are ended by a line feed; a carriage return before it does not count.
pub proof fn law_lines_end_with_a_line_feed(line: Seq<char>, rest: Seq<char>)
    requires
        !line.contains('\n'),
    ensures
        line.len() == 0 || line.last() != '\r' ==> text_lines(line.push('\n') + rest) == seq![line]
            + text_lines(rest),
        text_lines(line.push('\r').push('\n') + rest) == seq![line] + text_lines(rest),
        line.len() > 0 ==> text_lines(line) == seq![line],
        text_lines(Seq::empty()).len() == 0,
{
    let s = line.push('\n') + rest;
    let n = line.len() as int;
    assert(s[n] == '\n');
    assert forall|j: int| 0 <= j < n implies s[j] != '\n' by {
        assert(s[j] == line[j]);
        assert(line.contains(line[j]));
    }
    lemma_char_pos_is(s, '\n', n);
    assert(s.contains('\n'));
    assert(before_char(s, '\n') =~= line);
    assert(after_char(s, '\n') =~= rest);
    let r = line.push('\r').push('\n') + rest;
    assert(r[n + 1] == '\n' && r[n] == '\r');
    assert forall|j: int| 0 <= j < n + 1 implies r[j] != '\n' by {
        if j < n {
            assert(r[j] == line[j]);
            assert(line.contains(line[j]));
        }
    }
    lemma_char_pos_is(r, '\n', n + 1);
    assert(r.contains('\n'));
    assert(before_char(r, '\n') =~= line.push('\r'));
    assert(line.push('\r').drop_last() =~= line);
    assert(after_char(r, '\n') =~= rest);
}

/// The words of a text are what stands between white space.
pub proof fn law_words_are_between_spaces(w: Seq<char>, gap: char, rest: Seq<char>)
    requires
        w.len() > 0,
        forall|i: int| 0 <= i < w.len() ==> !is_space(#[trigger] w[i]),
        is_space(gap),
    ensures
        words(w.push(gap) + rest, separators(false)) == seq![w] + words(rest, separators(false)),
        words(w, separators(false)) == seq![w],
        words(seq![gap] + rest, separators(false)) == words(rest, separators(false)),
{
    let p = separators(false);
    let s = w.push(gap) + rest;
    let n = w.len() as int;
    assert forall|j: int| 0 <= j < n implies !p(#[trigger] s[j]) by {
        assert(s[j] == w[j]);
    }
    assert(p(s[n]));
    lemma_words_step(s, p, 0, n);
    assert(s.subrange(0, n) =~= w);
    let tail = s.skip(n);
    assert(tail =~= seq![gap] + rest);
    assert(tail.drop_first() =~= rest);
    assert(p(tail[0]));
    assert(trim_start_by(tail, p) == trim_start_by(rest, p));
    lemma_words_step(w, p, 0, n);
    assert(w.subrange(0, n) =~= w);
    let none = w.skip(n);
    assert(none.len() == 0);
    assert(words(none, p) =~= Seq::empty());
    assert(words(w, p) =~= seq![w]);
}

/// Texts are joined with a mark between each two.
pub proof fn law_joined_texts_have_marks_between(parts: Seq<Seq<char>>, more: Seq<char>, sep: Seq<char>)
    ensures
        joined(Seq::empty(), sep).len() == 0,
        joined(seq![more], sep) == more,
        parts.len() > 0 ==> joined(parts.push(more), sep) == joined(parts, sep) + sep + more,
{
    if parts.len() > 0 {
        assert(parts.push(more).drop_last() =~= parts);
    }
}

/// A text is found where it stands, first from the front or last from the back.
pub proof fn law_texts_are_found(a: Seq<char>, pat: Seq<char>, b: Seq<char>, i: int)
    ensures
        holds_text(a + pat + b, pat),
        find_pos(a + pat + b, pat) is Some,
        first_at(a + pat + b, pat, i) ==> find_pos(a + pat + b, pat) == Some(i),
        last_at(a + pat + b, pat, i) ==> rfind_pos(a + pat + b, pat) == Some(i),
{
    let s = a + pat + b;
    let n = a.len() as int;
    assert(s.subrange(n, n + pat.len()) =~= pat);
    assert(occurs_at(s, pat, n));
    if first_at(s, pat, i) {
        lemma_find_pos(s, pat, i);
    }
    if last_at(s, pat, i) {
        lemma_rfind_pos(s, pat, i);
    }
}

/// One character takes the place of another, and no other changes.
pub proof fn law_characters_are_replaced(s: Seq<char>, from: char, to: char, i: int)
    requires
        0 <= i < s.len(),
    ensures
        replaced(s, from, to).len() == s.len(),
        s[i] == from ==> replaced(s, from, to)[i] == to,
        s[i] != from ==> replaced(s, from, to)[i] == s[i],
{
}

/// Items stand by their rank; of the same rank by their names; and of the same name as they
/// came.
pub proof fn law_order_is_by_rank_then_name(keys: Seq<KeyModel>, p: Seq<int>, i: int, j: int)
    requires
        is_stable_order(keys, p),
        0 <= i < j < p.len(),
    ensures
        keys[p[i]].rank <= keys[p[j]].rank,
        keys[p[i]].rank == keys[p[j]].rank ==> !text_before(keys[p[j]].name, keys[p[i]].name),
        keys[p[i]] == keys[p[j]] ==> p[i] < p[j],
{
    assert(item_before(keys, p[i], p[j]));
    crate::order::lemma_text_total(keys[p[i]].name, keys[p[j]].name);
    crate::order::lemma_text_total(keys[p[i]].name, keys[p[i]].name);
}

/// A text comes before one that it begins, and else the first character in which they differ
/// decides.
pub proof fn law_texts_are_ordered_by_characters(head: Seq<char>, a: Seq<char>, b: Seq<char>)
    ensures
        b.len() > 0 && a.len() == 0 ==> text_before(head + a, head + b),
        a.len() > 0 && b.len() > 0 && a[0] < b[0] ==> text_before(head + a, head + b)
            && !text_before(head + b, head + a),
        !text_before(head, head),
    decreases head.len(),
{
    if head.len() > 0 {
        let t = head.drop_first();
        law_texts_are_ordered_by_characters(t, a, b);
        assert((head + a).drop_first() =~= t + a);
        assert((head + b).drop_first() =~= t + b);
        assert((head + a)[0] == head[0] && (head + b)[0] == head[0]);
    } else {
        assert(head + a =~= a);
        assert(head + b =~= b);
    }
}

proof fn lemma_only_one<A>(s: Seq<A>, p: spec_fn(A) -> bool, i: int)
    requires
        0 <= i < s.len(),
        p(s[i]),
        forall|k: int| 0 <= k < s.len() && k != i ==> !p(#[trigger] s[k]),
    ensures
        s.filter(p) == seq![s[i]],
    decreases s.len(),
{
    reveal(Seq::filter);
    let t = s.drop_last();
    let last = s.len() - 1;
    if i < last {
        assert(!p(s[last]));
        assert forall|k: int| 0 <= k < t.len() && k != i implies !p(#[trigger] t[k]) by {
            assert(!p(s[k]));
        }
        assert(t[i] == s[i]);
        lemma_only_one(t, p, i);
    } else {
        assert forall|k: int| 0 <= k < t.len() implies !p(#[trigger] t[k]) by {
            assert(!p(s[k]));
        }
        lemma_none(t, p);
        assert(t.filter(p).push(s.last()) =~= seq![s[i]]);
    }
}

proof fn lemma_none<A>(s: Seq<A>, p: spec_fn(A) -> bool)
    requires
        forall|k: int| 0 <= k < s.len() ==> !p(#[trigger] s[k]),
    ensures
        s.filter(p) == Seq::<A>::empty(),
    decreases s.len(),
{
    reveal(Seq::filter);
    if s.len() > 0 {
        let t = s.drop_last();
        assert(!p(s[s.len() - 1]));
        assert forall|k: int| 0 <= k < t.len() implies !p(#[trigger] t[k]) by {
            assert(!p(s[k]));
        }
        lemma_none(t, p);
    } else {
        assert(s.filter(p) =~= Seq::empty());
    }
}

/// A frame of the log says its level and its line, whatever the order of its members and
/// whatever else it says; without one of them, or with two, it says nothing.
pub proof fn law_frames_say_level_and_line(members: Seq<MemberModel>, i: int, j: int)
    requires
        0 <= i < members.len(),
        0 <= j < members.len(),
        members[i].0 == "type"@,
        members[j].0 == "payload"@,
        forall|k: int| 0 <= k < members.len() && k != i ==> (#[trigger] members[k]).0 != "type"@,
        forall|k: int| 0 <= k < members.len() && k != j ==> (#[trigger] members[k]).0 != "payload"@,
    ensures
        members[i].1 is Some && members[j].1 is Some ==> frame_of(members) == Some(
            (members[i].1->0, members[j].1->0),
        ),
        members[i].1 is None || members[j].1 is None ==> frame_of(members) is None,
{
    lemma_only_one(members, is_named("type"@), i);
    lemma_only_one(members, is_named("payload"@), j);
}

/// A frame without a level, or without a line, says nothing.
pub proof fn law_frames_need_both(members: Seq<MemberModel>)
    ensures
        (forall|k: int| 0 <= k < members.len() ==> (#[trigger] members[k]).0 != "type"@)
            ==> frame_of(members) is None,
        (forall|k: int| 0 <= k < members.len() ==> (#[trigger] members[k]).0 != "payload"@)
            ==> frame_of(members) is None,
{
    if forall|k: int| 0 <= k < members.len() ==> (#[trigger] members[k]).0 != "type"@ {
        assert forall|k: int| 0 <= k < members.len() implies !is_named("type"@)(
            #[trigger] members[k],
        ) by {}
        lemma_none(members, is_named("type"@));
    }
    if forall|k: int| 0 <= k < members.len() ==> (#[trigger] members[k]).0 != "payload"@ {
        assert forall|k: int| 0 <= k < members.len() implies !is_named("payload"@)(
            #[trigger] members[k],
        ) by {}
        lemma_none(members, is_named("payload"@));
    }
}

} // verus!

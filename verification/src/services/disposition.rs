//! The file name that a `Content-Disposition` header offers.

use crate::services::quota::{unquote, unquoted};
use crate::text::{
    after_char, before_char, chars_of, ends_with, find, find_pos, has_suffix, lower, lowered,
    one_of, opt_view, pieces, same_ignoring_case, split, split_once, trim, trim_start_by,
    trim_start_set, trimmed, views,
};
use crate::web::{hex_value, lossy_text, percent_decode, percent_decoded, text_lossy};
use crate::web::{header_value_to_string, header_words};
use vstd::prelude::*;
use vstd::utf8::encode_utf8;

verus! {

/// The value of a parameter in one part of the header, where the part has that key.
pub open spec fn part_param(part: Seq<char>, key: Seq<char>) -> Option<Seq<char>> {
    let p = trimmed(part);
    if p.contains('=') && lowered(trimmed(before_char(p, '='))) == lowered(key) {
        Some(trimmed(after_char(p, '=')))
    } else {
        None
    }
}

/// The value of the first parameter of that key.
pub open spec fn param_of(parts: Seq<Seq<char>>, key: Seq<char>) -> Option<Seq<char>>
    decreases parts.len(),
{
    if parts.len() == 0 {
        None
    } else if part_param(parts[0], key) is Some {
        part_param(parts[0], key)
    } else {
        param_of(parts.drop_first(), key)
    }
}

/// The value of a parameter of the header; its key is found in any case.
pub fn find_disposition_param(disposition: &str, key: &str) -> (r: Option<String>)
    ensures
        opt_view(r) == param_of(pieces(disposition@, ';'), key@),
{
    let parts = split(disposition, ';');
    let ghost models = pieces(disposition@, ';');
    let mut i: usize = 0;
    proof {
        assert(models.skip(0) =~= models);
    }
    while i < parts.len()
        invariant
            i <= parts.len(),
            models == views(parts@),
            models == pieces(disposition@, ';'),
            param_of(models, key@) == param_of(models.skip(i as int), key@),
        decreases parts.len() - i,
    {
        proof {
            assert(models.skip(i as int)[0] == parts@[i as int]@);
            assert(models.skip(i as int).drop_first() =~= models.skip(i + 1));
        }
        if let Some((k, v)) = split_once(trim(parts[i].as_str()), '=') {
            if same_ignoring_case(trim(k), key) {
                return Some(trim(v).to_owned());
            }
        }
        i += 1;
    }
    None
}

/// The value behind the character set and the language, such as `UTF-8''`.
pub open spec fn star_value(raw: Seq<char>) -> Seq<char> {
    let t = unquoted(trimmed(raw));
    match find_pos(t, "''"@) {
        Some(i) => trimmed(t.skip(i + 2)),
        None => if t.contains('\'') {
            trimmed(trim_start_by(after_char(t, '\''), one_of(seq!['\''])))
        } else {
            trimmed(t)
        },
    }
}

/// The byte that two characters behind `%` stand for, where a sign may take the
/// place of the first digit.
pub open spec fn loose_byte(a: u8, b: u8) -> Option<u8> {
    if hex_value(b) is None {
        None
    } else if hex_value(a) is Some {
        Some((hex_value(a)->0 * 16 + hex_value(b)->0) as u8)
    } else if a == 43 {
        hex_value(b)
    } else {
        None
    }
}

/// The bytes of a text, with what stands behind `%` made bytes.
pub open spec fn loose_bytes(b: Seq<u8>) -> Seq<u8>
    decreases b.len(),
{
    if b.len() == 0 {
        Seq::empty()
    } else if b.len() >= 3 && b[0] == 37 && loose_byte(b[1], b[2]) is Some {
        seq![loose_byte(b[1], b[2])->0] + loose_bytes(b.skip(3))
    } else {
        seq![b[0]] + loose_bytes(b.skip(1))
    }
}

/// The text of a parameter `filename*`.
pub open spec fn star_text(raw: Seq<char>) -> Option<Seq<char>> {
    let value = star_value(raw);
    if value.len() == 0 {
        None
    } else {
        let text = match percent_decoded(value) {
            Some(s) => s,
            None => lossy_text(loose_bytes(encode_utf8(value))),
        };
        if text.len() == 0 {
            None
        } else {
            Some(text)
        }
    }
}

fn hex_digit_value(b: u8) -> (r: Option<u8>)
    ensures
        r == hex_value(b),
{
    if 48 <= b && b <= 57 {
        Some(b - 48)
    } else if 65 <= b && b <= 70 {
        Some(b - 55)
    } else if 97 <= b && b <= 102 {
        Some(b - 87)
    } else {
        None
    }
}

fn loose_value(a: u8, b: u8) -> (r: Option<u8>)
    ensures
        r == loose_byte(a, b),
{
    match hex_digit_value(b) {
        None => None,
        Some(low) => match hex_digit_value(a) {
            Some(high) => Some(high * 16 + low),
            None => if a == 43 {
                Some(low)
            } else {
                None
            },
        },
    }
}

fn decode_loosely(s: &str) -> (r: Vec<u8>)
    ensures
        r@ == loose_bytes(encode_utf8(s@)),
{
    let b = s.as_bytes();
    let mut out: Vec<u8> = Vec::new();
    let mut i: usize = 0;
    proof {
        assert(b@.skip(0) =~= b@);
        assert(out@ + loose_bytes(b@) =~= loose_bytes(b@));
    }
    while i < b.len()
        invariant
            i <= b@.len(),
            out@ + loose_bytes(b@.skip(i as int)) == loose_bytes(b@),
        decreases b@.len() - i,
    {
        let ghost rest = b@.skip(i as int);
        let ghost before = out@;
        if b[i] == 37 && b.len() - i >= 3 {
            if let Some(n) = loose_value(b[i + 1], b[i + 2]) {
                out.push(n);
                proof {
                    assert(rest.skip(3) =~= b@.skip(i + 3));
                    assert(loose_bytes(rest) == seq![n] + loose_bytes(b@.skip(i + 3)));
                    assert(out@ + loose_bytes(b@.skip(i + 3)) =~= before + loose_bytes(rest));
                }
                i += 3;
                continue ;
            }
        }
        out.push(b[i]);
        proof {
            assert(rest.skip(1) =~= b@.skip(i + 1));
            assert(loose_bytes(rest) == seq![rest[0]] + loose_bytes(b@.skip(i + 1)));
            assert(out@ + loose_bytes(b@.skip(i + 1)) =~= before + loose_bytes(rest));
        }
        i += 1;
    }
    proof {
        assert(out@ + loose_bytes(b@.skip(i as int)) =~= out@);
    }
    out
}

/// The text of a parameter `filename*`, such as `UTF-8''%E8%89%AF`: percent-encoded,
/// behind a character set and a language.
pub fn decode_filename_star(raw: &str) -> (r: Option<String>)
    ensures
        opt_view(r) == star_text(raw@),
{
    let t = unquote(trim(raw));
    let value: &str = match find(t, "''") {
        Some(i) => {
            let n: usize = t.unicode_len();
            proof {
                reveal_strlit("''");
                assert(t@.subrange(i + 2, n as int) =~= t@.skip(i + 2));
            }
            trim(t.substring_char(i + 2, n))
        },
        None => match split_once(t, '\'') {
            Some((_, rest)) => {
                let set: [char; 1] = ['\''];
                proof {
                    assert(set@ =~= seq!['\'']);
                }
                trim(trim_start_set(rest, &set))
            },
            None => trim(t),
        },
    };
    if value.is_empty() {
        return None;
    }
    let text = match percent_decode(value) {
        Some(s) => s,
        None => {
            let bytes = decode_loosely(value);
            text_lossy(bytes.as_slice())
        },
    };
    if text.as_str().is_empty() {
        None
    } else {
        Some(text)
    }
}

/// What follows the last slash or backslash; all of `s` without one.
pub open spec fn base_name(s: Seq<char>) -> Seq<char>
    decreases s.len(),
{
    if s.len() == 0 {
        s
    } else if s.last() == '/' || s.last() == '\\' {
        Seq::empty()
    } else {
        base_name(s.drop_last()).push(s.last())
    }
}

/// A name without an extension, in any case; the others are not looked at then.
pub open spec fn without_extension(s: Seq<char>, exts: Seq<Seq<char>>) -> Seq<char>
    decreases exts.len(),
{
    if exts.len() == 0 {
        s
    } else if has_suffix(lowered(s), exts[0]) {
        s.take(s.len() - exts[0].len())
    } else {
        without_extension(s, exts.drop_first())
    }
}

pub open spec fn config_extensions() -> Seq<Seq<char>> {
    seq![".yaml"@, ".yml"@, ".txt"@, ".conf"@, ".json"@]
}

/// A file name as the name of a subscription: without its folder and extension.
pub open spec fn clean_name(name: Seq<char>) -> Seq<char> {
    trimmed(without_extension(base_name(trimmed(name)), config_extensions()))
}

proof fn lemma_base_name(s: Seq<char>, k: int)
    requires
        0 <= k <= s.len(),
        forall|j: int| k <= j < s.len() ==> s[j] != '/' && s[j] != '\\',
        k > 0 ==> s[k - 1] == '/' || s[k - 1] == '\\',
    ensures
        base_name(s) == s.skip(k),
    decreases s.len(),
{
    if k < s.len() {
        lemma_base_name(s.drop_last(), k);
        assert(s.drop_last().skip(k).push(s.last()) =~= s.skip(k));
    } else if s.len() > 0 {
        assert(s.last() == s[k - 1]);
        assert(s.skip(k) =~= Seq::empty());
    } else {
        assert(s.skip(k) =~= s);
    }
}

/// A file name as the name of a subscription.
pub fn clean_disposition_name(name: &str) -> (r: String)
    ensures
        r@ == clean_name(name@),
{
    let t = trim(name);
    let v = chars_of(t);
    let mut k: usize = v.len();
    while k > 0 && v[k - 1] != '/' && v[k - 1] != '\\'
        invariant
            v@ == t@,
            k <= v.len(),
            forall|j: int| k <= j < v@.len() ==> v@[j] != '/' && v@[j] != '\\',
        decreases k,
    {
        k -= 1;
    }
    proof {
        lemma_base_name(t@, k as int);
        assert(t@.subrange(k as int, v.len() as int) =~= t@.skip(k as int));
    }
    let base = t.substring_char(k, v.len());
    let low = lower(base);
    let l = low.as_str();
    let cut: usize = if ends_with(l, ".yaml") {
        5
    } else if ends_with(l, ".yml") {
        4
    } else if ends_with(l, ".txt") {
        4
    } else if ends_with(l, ".conf") {
        5
    } else if ends_with(l, ".json") {
        5
    } else {
        0
    };
    let n: usize = base.unicode_len();
    proof {
        reveal_strlit(".yaml");
        reveal_strlit(".yml");
        reveal_strlit(".txt");
        reveal_strlit(".conf");
        reveal_strlit(".json");
        let e = config_extensions();
        reveal_with_fuel(without_extension, 6);
        assert(e.drop_first() =~= seq![".yml"@, ".txt"@, ".conf"@, ".json"@]);
        assert(e.drop_first().drop_first() =~= seq![".txt"@, ".conf"@, ".json"@]);
        assert(e.drop_first().drop_first().drop_first() =~= seq![".conf"@, ".json"@]);
        assert(e.drop_first().drop_first().drop_first().drop_first() =~= seq![".json"@]);
        assert(e.drop_first().drop_first().drop_first().drop_first().drop_first() =~= Seq::empty());
        assert(cut <= n);
        assert(base@.subrange(0, n - cut) =~= base@.take(n - cut));
        assert(base@.take(n as int) =~= base@);
        assert(base@.take(n - cut) == without_extension(base@, e));
    }
    trim(base.substring_char(0, n - cut)).to_owned()
}

/// The name that a header offers: from `filename*`, or else from `filename`.
pub open spec fn disposition_name(disposition: Seq<char>) -> Option<Seq<char>> {
    let parts = pieces(disposition, ';');
    let star = param_of(parts, "filename*"@);
    if star is Some && star_text(star->0) is None {
        None
    } else if star is Some && clean_name(star_text(star->0)->0).len() > 0 {
        Some(clean_name(star_text(star->0)->0))
    } else {
        match param_of(parts, "filename"@) {
            Some(plain) => {
                let bare = unquoted(trimmed(plain));
                let cleaned = clean_name(
                    match percent_decoded(bare) {
                        Some(s) => s,
                        None => bare,
                    },
                );
                if cleaned.len() > 0 {
                    Some(cleaned)
                } else {
                    None
                }
            },
            None => None,
        }
    }
}

/// The name that a `Content-Disposition` header offers for a subscription:
/// `filename*=UTF-8''%E8%89%AF` before `filename="foo.yaml"`.
pub fn parse_disposition_filename_str(disposition: &str) -> (r: Option<String>)
    ensures
        opt_view(r) == disposition_name(disposition@),
{
    if let Some(star) = find_disposition_param(disposition, "filename*") {
        match decode_filename_star(star.as_str()) {
            Some(text) => {
                let cleaned = clean_disposition_name(text.as_str());
                if !cleaned.as_str().is_empty() {
                    return Some(cleaned);
                }
            },
            None => {
                return None;
            },
        }
    }
    if let Some(plain) = find_disposition_param(disposition, "filename") {
        let bare = unquote(trim(plain.as_str()));
        let text = match percent_decode(bare) {
            Some(s) => s,
            None => bare.to_owned(),
        };
        let cleaned = clean_disposition_name(text.as_str());
        if !cleaned.as_str().is_empty() {
            return Some(cleaned);
        }
    }
    None
}

/// The name that the value of a `Content-Disposition` header offers, where there is one.
pub fn parse_content_disposition_filename(value: Option<&Vec<u8>>) -> (r: Option<String>)
    ensures
        opt_view(r) == match value {
            Some(b) => match header_words(b@) {
                Some(s) => disposition_name(s),
                None => None,
            },
            None => None,
        },
{
    match value {
        Some(b) => match header_value_to_string(b.as_slice()) {
            Some(s) => parse_disposition_filename_str(s.as_str()),
            None => None,
        },
        None => None,
    }
}

} // verus!

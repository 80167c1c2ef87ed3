//! Moments that texts name.

use crate::services::quota::{date_part, law_days_follow_the_calendar, moment_named};
use crate::text::{
    after_char, all_digits, before_char, digit_char, digits_value, is_space, lemma_char_pos_is,
    lemma_trim_end_shape, lemma_trimmed_same, lemma_words_step, parsed_i64, parsed_int, pieces,
    replaced, separators, spaces, trim_end_by, trim_start_by, trimmed, words,
};
use vstd::prelude::*;

verus! {

/// A mark between the parts of a date.
pub open spec fn is_date_mark(c: char) -> bool {
    c == '-' || c == '/' || c == '.'
}

/// A date of four, two and two digits, with a mark between them.
pub open spec fn date_text(y: nat, m: nat, d: nat, a: char, b: char) -> Seq<char> {
    seq![
        digit_char(y / 1000),
        digit_char(y / 100 % 10),
        digit_char(y / 10 % 10),
        digit_char(y % 10),
        a,
        digit_char(m / 10),
        digit_char(m % 10),
        b,
        digit_char(d / 10),
        digit_char(d % 10),
    ]
}

/// A text that starts with a date: nothing follows it, or white space does.
pub open spec fn starts_with_date(s: Seq<char>, y: nat, m: nat, d: nat) -> bool {
    &&& s.len() >= 10
    &&& is_date_mark(s[4]) && is_date_mark(s[7])
    &&& s.take(10) == date_text(y, m, d, s[4], s[7])
    &&& s.len() > 10 ==> is_space(s[10])
}

proof fn lemma_end_keeps(s: Seq<char>, p: spec_fn(char) -> bool, k: int)
    requires
        0 <= k < s.len(),
        !p(s[k]),
    ensures
        trim_end_by(s, p).len() > k,
    decreases s.len(),
{
    if p(s.last()) {
        lemma_end_keeps(s.drop_last(), p, k);
    }
}

proof fn lemma_two_digits(s: Seq<char>, n: nat)
    requires
        n < 100,
        s.len() == 2,
        s[0] == digit_char(n / 10),
        s[1] == digit_char(n % 10),
    ensures
        parsed_i64(s) == Some(n as i64),
{
    reveal_with_fuel(digits_value, 3);
    assert(all_digits(s));
    assert(s.drop_last().last() == s[0]);
    assert(digits_value(s) == n);
    assert(s[0] != '-' && s[0] != '+');
    assert(parsed_int(s) == Some(n as int));
}

proof fn lemma_four_digits(s: Seq<char>, n: nat)
    requires
        n < 10000,
        s.len() == 4,
        s[0] == digit_char(n / 1000),
        s[1] == digit_char(n / 100 % 10),
        s[2] == digit_char(n / 10 % 10),
        s[3] == digit_char(n % 10),
    ensures
        parsed_i64(s) == Some(n as i64),
{
    reveal_with_fuel(digits_value, 5);
    assert(all_digits(s));
    let t = s.drop_last();
    let u = t.drop_last();
    let v = u.drop_last();
    assert(t.last() == s[2] && u.last() == s[1] && v.last() == s[0]);
    assert(v.drop_last().len() == 0);
    assert(digits_value(v) == n / 1000);
    assert(digits_value(u) == (n / 1000) * 10 + n / 100 % 10);
    assert(digits_value(s) == n);
    assert(s[0] != '-' && s[0] != '+');
    assert(parsed_int(s) == Some(n as int));
}

/// Between dashes stand the three parts of a date.
proof fn lemma_three_parts(s: Seq<char>, y: nat, m: nat, d: nat)
    requires
        y < 10000,
        m < 100,
        d < 100,
        s == date_text(y, m, d, '-', '-'),
    ensures
        pieces(s, '-').len() == 3,
        parsed_i64(pieces(s, '-')[0]) == Some(y as i64),
        parsed_i64(pieces(s, '-')[1]) == Some(m as i64),
        parsed_i64(pieces(s, '-')[2]) == Some(d as i64),
{
    assert(s[4] == '-' && s[7] == '-');
    lemma_char_pos_is(s, '-', 4);
    assert(s.contains('-'));
    let p0 = before_char(s, '-');
    let r1 = after_char(s, '-');
    assert(r1 =~= s.skip(5));
    assert(r1[2] == '-');
    lemma_char_pos_is(r1, '-', 2);
    assert(r1.contains('-'));
    let p1 = before_char(r1, '-');
    let r2 = after_char(r1, '-');
    assert(r2 =~= s.skip(8));
    assert(!r2.contains('-'));
    assert(pieces(r2, '-') == seq![r2]);
    assert(pieces(r1, '-') == seq![p1] + pieces(r2, '-'));
    assert(pieces(s, '-') == seq![p0] + pieces(r1, '-'));
    assert(pieces(s, '-')[0] == p0 && pieces(s, '-')[1] == p1 && pieces(s, '-')[2] == r2);
    lemma_four_digits(p0, y);
    lemma_two_digits(p1, m);
    lemma_two_digits(r2, d);
}

proof fn lemma_date_parts(s: Seq<char>, y: nat, m: nat, d: nat)
    requires
        y < 10000,
        m < 100,
        d < 100,
        starts_with_date(s, y, m, d),
    ensures
        parsed_i64(trimmed(s)) is None,
        pieces(date_part(s), '-').len() == 3,
        parsed_i64(pieces(date_part(s), '-')[0]) == Some(y as i64),
        parsed_i64(pieces(date_part(s), '-')[1]) == Some(m as i64),
        parsed_i64(pieces(date_part(s), '-')[2]) == Some(d as i64),
{
    let date = date_text(y, m, d, s[4], s[7]);
    assert forall|i: int| 0 <= i < 10 implies #[trigger] s[i] == date[i] by {
        assert(s.take(10)[i] == s[i]);
    }
    let t = trimmed(s);
    assert(!is_space(s[0]));
    assert(trim_start_by(s, spaces()) == s);
    assert(!is_space(s[9]));
    lemma_end_keeps(s, spaces(), 9);
    lemma_trim_end_shape(s, spaces());
    assert(t == s.take(t.len() as int));
    assert(t.len() >= 10);
    assert forall|i: int| 0 <= i < 10 implies #[trigger] t[i] == date[i] by {
        assert(t[i] == s[i]);
    }
    assert(t.len() > 10 ==> is_space(t[10]));
    // No number: a mark stands in the middle.
    assert(!crate::text::is_digit(t[4]));
    assert(!all_digits(t));
    assert(t[0] != '-' && t[0] != '+');
    assert(parsed_int(t) is None);
    // The date part.
    let n = replaced(replaced(t, '/', '-'), '.', '-');
    assert(n.len() == t.len());
    let p = separators(false);
    assert forall|j: int| 0 <= j < 10 implies !p(#[trigger] n[j]) by {
        assert(t[j] == date[j]);
    }
    if n.len() > 10 {
        assert(p(n[10]));
    }
    lemma_words_step(n, p, 0, 10);
    let w = n.subrange(0, 10);
    assert(words(n, p)[0] == w);
    assert(date_part(s) == w);
    let dashed = date_text(y, m, d, '-', '-');
    assert forall|i: int| 0 <= i < 10 implies #[trigger] w[i] == dashed[i] by {
        assert(w[i] == n[i]);
        assert(t[i] == date[i]);
    }
    assert(w =~= dashed);
    lemma_three_parts(w, y, m, d);
}

/// A text that is a date names a moment where the year is 1970 to 2100, the month 1 to 12 and
/// the day 1 to 31: a whole number of days from 1970 on.
pub proof fn law_dates_are_moments(s: Seq<char>, y: nat, m: nat, d: nat)
    requires
        y < 10000,
        m < 100,
        d < 100,
        starts_with_date(s, y, m, d),
    ensures
        moment_named(s) is Some <==> 1970 <= y <= 2100 && 1 <= m <= 12 && 1 <= d <= 31,
        moment_named(s) matches Some(n) ==> n % 86400 == 0,
{
    lemma_date_parts(s, y, m, d);
    if 1970 <= y <= 2100 && 1 <= m <= 12 && 1 <= d <= 31 {
        lemma_days_fit(y as int, m as int, d as int);
    }
}

proof fn lemma_days_fit(y: int, m: int, d: int)
    requires
        1970 <= y <= 2100,
        1 <= m <= 12,
        1 <= d <= 31,
    ensures
        0 <= crate::services::quota::civil_days(y, m, d) < 100_000,
{
}

/// The first day of 1970 begins with second 0.
pub proof fn law_seconds_are_counted_from_1970(s: Seq<char>)
    requires
        starts_with_date(s, 1970, 1, 1),
    ensures
        moment_named(s) == Some(0i64),
{
    lemma_date_parts(s, 1970, 1, 1);
    law_days_follow_the_calendar(1970, 1, 1);
}

/// The day `(y2, m2, d2)` follows the day `(y, m, d)` in the calendar.
pub open spec fn next_day(y: nat, m: nat, d: nat, y2: nat, m2: nat, d2: nat) -> bool {
    let last = if m == 2 {
        if y % 400 == 0 || (y % 4 == 0 && y % 100 != 0) {
            29nat
        } else {
            28
        }
    } else if m == 4 || m == 6 || m == 9 || m == 11 {
        30
    } else {
        31
    };
    if d < last {
        y2 == y && m2 == m && d2 == d + 1
    } else if m < 12 {
        d == last && y2 == y && m2 == m + 1 && d2 == 1
    } else {
        d == last && y2 == y + 1 && m2 == 1 && d2 == 1
    }
}

/// The next day of the calendar begins 86400 seconds later. With the first of them, this says
/// which second each day begins with.
pub proof fn law_next_day_is_a_day_later(
    s: Seq<char>,
    y: nat,
    m: nat,
    d: nat,
    s2: Seq<char>,
    y2: nat,
    m2: nat,
    d2: nat,
)
    requires
        1970 <= y <= 2100,
        y2 <= 2100,
        1 <= m <= 12,
        1 <= d <= 31,
        next_day(y, m, d, y2, m2, d2),
        starts_with_date(s, y, m, d),
        starts_with_date(s2, y2, m2, d2),
    ensures
        moment_named(s) is Some,
        moment_named(s2) == Some((moment_named(s)->0 + 86400) as i64),
        moment_named(s)->0 + 86400 <= i64::MAX,
{
    lemma_date_parts(s, y, m, d);
    lemma_date_parts(s2, y2, m2, d2);
    lemma_days_fit(y as int, m as int, d as int);
    lemma_days_fit(y2 as int, m2 as int, d2 as int);
    law_days_follow_the_calendar(y as int, m as int, d as int);
}

/// A number of seconds behind 2001 names itself; a smaller one names nothing.
pub proof fn law_seconds_name_themselves(s: Seq<char>)
    requires
        s.len() > 0,
        all_digits(s),
        digits_value(s) <= i64::MAX,
    ensures
        digits_value(s) > 1_000_000_000 ==> moment_named(s) == Some(digits_value(s) as i64),
        digits_value(s) <= 1_000_000_000 ==> moment_named(s) is None,
{
    assert forall|i: int| 0 <= i < s.len() implies !is_space(#[trigger] s[i]) by {
        assert(crate::text::is_digit(s[i]));
    }
    lemma_trimmed_same(s);
    assert(crate::text::is_digit(s[0]));
    assert(parsed_int(s) == Some(digits_value(s) as int));
    let n = replaced(replaced(s, '/', '-'), '.', '-');
    assert forall|i: int| 0 <= i < s.len() implies #[trigger] n[i] == s[i] by {
        assert(crate::text::is_digit(s[i]));
    }
    assert(n =~= s);
    lemma_words_step(s, separators(false), 0, s.len() as int);
    assert(s.subrange(0, s.len() as int) =~= s);
    assert(date_part(s) == s);
    if s.contains('-') {
        let i = choose|i: int| 0 <= i < s.len() && s[i] == '-';
        assert(crate::text::is_digit(s[i]));
    }
    assert(pieces(s, '-') == seq![s]);
}

/// White space around a text does not count.
pub proof fn law_moments_ignore_spaces_around(s: Seq<char>)
    ensures
        moment_named(trimmed(s)) == moment_named(s),
{
    crate::text::lemma_trimmed_twice(s);
}

} // verus!

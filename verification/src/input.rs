//! Reading a deadline typed by the user: `YYYY-MM-DD`, a day count such as
//! `3d` (relative to today), or a weekday name such as `friday` or `mon`.

use vstd::prelude::*;
use chrono::Weekday;
use crate::date::{Date, ends_in_digit, in_calendar, parse_ymd, shift_days, today, weekday_of, ymd_day_number};
use crate::text::{chars_of, lower_ascii, lower_ascii_text};

verus! {

/// Why a deadline could not be read.
#[derive(Clone, Copy, Debug, PartialEq, Eq, Structural)]
pub enum DateInputError {
    /// Ends in `d` but what comes before is not a whole number.
    BadDayCount,
    /// Neither a weekday, nor a day count, nor a `YYYY-MM-DD` date.
    BadDate,
    /// The date lies outside the calendar range.
    OutOfRange,
}

pub open spec fn is_digit(c: char) -> bool {
    '0' <= c && c <= '9'
}

pub open spec fn digit_value(c: char) -> int {
    (c as int) - ('0' as int)
}

/// Value of a run of decimal digits.
pub open spec fn digits_value(s: Seq<char>) -> int
    decreases s.len(),
{
    if s.len() == 0 {
        0
    } else {
        digits_value(s.drop_last()) * 10 + digit_value(s.last())
    }
}

pub open spec fn all_digits(s: Seq<char>) -> bool {
    forall|i: int| 0 <= i < s.len() ==> is_digit(#[trigger] s[i])
}

/// What `str::parse::<i64>` accepts: an optional `+` or `-`, then one or more
/// ASCII digits, with a value that fits in an `i64`.
pub open spec fn int_literal(s: Seq<char>) -> Option<int> {
    let negative = s.len() > 0 && s[0] == '-';
    let body = if s.len() > 0 && (s[0] == '-' || s[0] == '+') { s.drop_first() } else { s };
    let value = if negative { -digits_value(body) } else { digits_value(body) };
    if body.len() > 0 && all_digits(body) && i64::MIN <= value <= i64::MAX {
        Some(value)
    } else {
        None
    }
}

proof fn lemma_digits_value_nonneg(s: Seq<char>)
    requires
        all_digits(s),
    ensures
        digits_value(s) >= 0,
    decreases s.len(),
{
    if s.len() > 0 {
        lemma_digits_value_nonneg(s.drop_last());
    }
}

/// Reads a whole number the way `str::parse::<i64>` does.
pub fn parse_int(chars: &Vec<char>) -> (r: Option<i64>)
    ensures
        r matches Some(v) ==> int_literal(chars@) == Some(v as int),
        r is None ==> int_literal(chars@) is None,
{
    let cap: u64 = 0x8000_0000_0000_0001;
    let n = chars.len();
    let mut start: usize = 0;
    let mut negative = false;
    if n > 0 && (chars[0] == '-' || chars[0] == '+') {
        negative = chars[0] == '-';
        start = 1;
    }
    let ghost body = if n > 0 && (chars@[0] == '-' || chars@[0] == '+') { chars@.drop_first() } else { chars@ };
    assert(body =~= chars@.subrange(start as int, n as int));
    if start == n {
        return None;
    }
    let mut acc: u64 = 0;
    let mut i: usize = start;
    while i < n
        invariant
            start <= i <= n,
            n == chars.len(),
            body =~= chars@.subrange(start as int, n as int),
            body == (if chars@.len() > 0 && (chars@[0] == '-' || chars@[0] == '+') { chars@.drop_first() } else { chars@ }),
            all_digits(chars@.subrange(start as int, i as int)),
            acc as int == if digits_value(chars@.subrange(start as int, i as int)) < cap {
                digits_value(chars@.subrange(start as int, i as int))
            } else {
                cap as int
            },
        decreases n - i,
    {
        let c = chars[i];
        if !('0' <= c && c <= '9') {
            assert(!is_digit(body[i - start]));
            assert(!all_digits(body));
            return None;
        }
        let d: u64 = (c as u32 - '0' as u32) as u64;
        let ghost prefix = chars@.subrange(start as int, i as int);
        let ghost next = chars@.subrange(start as int, i as int + 1);
        assert(next.drop_last() =~= prefix);
        assert(next.last() == c);
        proof {
            lemma_digits_value_nonneg(prefix);
        }
        if acc >= cap {
            acc = cap;
        } else {
            let grown: u128 = acc as u128 * 10 + d as u128;
            acc = if grown >= cap as u128 { cap } else { grown as u64 };
        }
        assert(all_digits(next)) by {
            assert forall|k: int| 0 <= k < next.len() implies is_digit(#[trigger] next[k]) by {
                if k < prefix.len() {
                    assert(next[k] == prefix[k]);
                }
            }
        }
        i = i + 1;
    }
    assert(chars@.subrange(start as int, n as int) =~= body);
    if negative {
        if acc > 0x8000_0000_0000_0000 {
            None
        } else if acc == 0x8000_0000_0000_0000 {
            Some(i64::MIN)
        } else {
            Some(0i64 - acc as i64)
        }
    } else {
        if acc > 0x7FFF_FFFF_FFFF_FFFF {
            None
        } else {
            Some(acc as i64)
        }
    }
}

/// The weekday (0 for Monday to 6 for Sunday) that a name denotes: its
/// three-letter abbreviation or its full English name, in any ASCII case.
pub open spec fn weekday_named(s: Seq<char>) -> Option<int> {
    let l = lower_ascii_text(s);
    if l == seq!['m', 'o', 'n'] || l == seq!['m', 'o', 'n', 'd', 'a', 'y'] {
        Some(0)
    } else if l == seq!['t', 'u', 'e'] || l == seq!['t', 'u', 'e', 's', 'd', 'a', 'y'] {
        Some(1)
    } else if l == seq!['w', 'e', 'd'] || l == seq!['w', 'e', 'd', 'n', 'e', 's', 'd', 'a', 'y'] {
        Some(2)
    } else if l == seq!['t', 'h', 'u'] || l == seq!['t', 'h', 'u', 'r', 's', 'd', 'a', 'y'] {
        Some(3)
    } else if l == seq!['f', 'r', 'i'] || l == seq!['f', 'r', 'i', 'd', 'a', 'y'] {
        Some(4)
    } else if l == seq!['s', 'a', 't'] || l == seq!['s', 'a', 't', 'u', 'r', 'd', 'a', 'y'] {
        Some(5)
    } else if l == seq!['s', 'u', 'n'] || l == seq!['s', 'u', 'n', 'd', 'a', 'y'] {
        Some(6)
    } else {
        None
    }
}

/// Reads a weekday name with `chrono`'s `FromStr` for `Weekday`. By its
/// source (`scan::short_or_long_weekday`) it takes the first three letters
/// in either ASCII case, then the rest of the full name if it follows, and
/// accepts the text only when nothing is left over.
#[verifier::external_body]
pub(crate) fn parse_weekday(text: &str) -> (r: Option<u8>)
    ensures
        match r {
            Some(w) => weekday_named(text@) == Some(w as int),
            None => weekday_named(text@) is None,
        },
{
    match text.parse::<Weekday>() {
        Ok(Weekday::Mon) => Some(0),
        Ok(Weekday::Tue) => Some(1),
        Ok(Weekday::Wed) => Some(2),
        Ok(Weekday::Thu) => Some(3),
        Ok(Weekday::Fri) => Some(4),
        Ok(Weekday::Sat) => Some(5),
        Ok(Weekday::Sun) => Some(6),
        Err(_) => None,
    }
}

/// A weekday name ends in a letter, never in a digit.
proof fn lemma_weekday_ends_in_letter(s: Seq<char>)
    requires
        weekday_named(s) is Some,
    ensures
        !ends_in_digit(s),
{
    let l = lower_ascii_text(s);
    assert(l.len() == s.len());
    if s.len() > 0 {
        assert(l[l.len() - 1] == lower_ascii(s[s.len() - 1]));
    }
}

/// Days from a day of the week to the next given one: one to seven, a week
/// when it is the same day.
pub open spec fn days_until_weekday(from: int, target: int) -> int {
    let k = (target - from) % 7;
    if k == 0 { 7 } else { k }
}

/// The deadline a text denotes on `today`, as a day number.
pub open spec fn deadline_spec(text: Seq<char>, today: int) -> Result<int, DateInputError> {
    let moved = |n: int| if in_calendar(today + n) { Ok(today + n) } else { Err(DateInputError::OutOfRange) };
    if weekday_named(text) is Some {
        moved(days_until_weekday(weekday_of(today), weekday_named(text)->0))
    } else if text.len() > 0 && text.last() == 'd' {
        match int_literal(text.drop_last()) {
            Some(n) => moved(n),
            None => Err(DateInputError::BadDayCount),
        }
    } else {
        match ymd_day_number(text) {
            Some(n) => Ok(n),
            None => Err(DateInputError::BadDate),
        }
    }
}

/// A weekday name gives a day one to seven days ahead that falls on that
/// weekday; the same weekday as today gives next week's.
pub proof fn law_weekday_deadline(text: Seq<char>, today: int)
    requires
        weekday_named(text) is Some,
        in_calendar(today),
        in_calendar(today + 7),
    ensures
        deadline_spec(text, today) matches Ok(d) && weekday_of(d) == weekday_named(text)->0
            && 1 <= d - today <= 7
            && (weekday_of(today) == weekday_named(text)->0 ==> d == today + 7),
{
    let w = weekday_named(text)->0;
    let wd = weekday_of(today);
    let k = days_until_weekday(wd, w);
    assert(0 <= w < 7);
    assert(0 <= wd < 7);
    let q = (today - 1) / 7;
    assert(today - 1 == 7 * q + wd);
    assert(1 <= k <= 7);
    assert(k == w - wd || k == w - wd + 7);
    assert(today + k - 1 == 7 * q + w || today + k - 1 == 7 * (q + 1) + w);
    assert(in_calendar(today + k));
    assert((today + k - 1) % 7 == w);
}

pub open spec fn day_result(r: Result<Date, DateInputError>) -> Result<int, DateInputError> {
    match r {
        Ok(d) => Ok(d@),
        Err(e) => Err(e),
    }
}

fn moved_by(today: Date, n: i64) -> (r: Result<Date, DateInputError>)
    ensures
        day_result(r) == (if in_calendar(today@ + n) { Ok(today@ + n) } else { Err::<int, DateInputError>(DateInputError::OutOfRange) }),
{
    match shift_days(today, n) {
        Some(d) => Ok(d),
        None => Err(DateInputError::OutOfRange),
    }
}

/// Reads a deadline on `today`. A weekday name gives the next such day (a
/// week ahead when it is today's); `Nd` gives `N` days from today (`N` may be
/// negative); anything else must be a `YYYY-MM-DD` date.
pub fn parse_deadline(text: &str, today: Date) -> (r: Result<Date, DateInputError>)
    ensures
        day_result(r) == deadline_spec(text@, today@),
        ymd_day_number(text@) matches Some(n) ==> day_result(r) == Ok::<int, DateInputError>(n),
{
    let as_date = parse_ymd(text);
    if let Some(w) = parse_weekday(text) {
        proof {
            lemma_weekday_ends_in_letter(text@);
        }
        let current = today.weekday();
        let k: i64 = ((w as i64 - current as i64) + 7) % 7;
        proof {
            vstd::arithmetic::div_mod::lemma_mod_multiples_vanish(1, w - current, 7);
        }
        let ahead: i64 = if k == 0 { 7 } else { k };
        return moved_by(today, ahead);
    }
    let chars = chars_of(text);
    let n = chars.len();
    if n > 0 && chars[n - 1] == 'd' {
        assert(!ends_in_digit(text@));
        let mut body = chars;
        body.pop();
        assert(body@ =~= text@.drop_last());
        match parse_int(&body) {
            Some(days) => moved_by(today, days),
            None => Err(DateInputError::BadDayCount),
        }
    } else {
        match as_date {
            Some(d) => Ok(d),
            None => Err(DateInputError::BadDate),
        }
    }
}

/// Reads a deadline relative to the current day (`parse_deadline` on today).
pub fn parse_date(text: &str) -> (r: Result<Date, DateInputError>)
    ensures
        exists|day: Date| day_result(r) == deadline_spec(text@, day@),
        ymd_day_number(text@) matches Some(n) ==> day_result(r) == Ok::<int, DateInputError>(n),
{
    let day = today();
    parse_deadline(text, day)
}

} // verus!

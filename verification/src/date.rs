//! Calendar dates as day numbers, and the calls into `chrono` that read the
//! clock, parse dates and move a date by a number of days.

use vstd::prelude::*;
use chrono::{Datelike, Local, NaiveDate, TimeDelta};

verus! {

/// Day number of the earliest date that `chrono::NaiveDate` can hold
/// (1 January of the year -262143).
pub const FIRST_DAY: i32 = -95746129;

/// Day number of the latest date that `chrono::NaiveDate` can hold
/// (31 December of the year 262142).
pub const LAST_DAY: i32 = 95745399;

/// A date of the proleptic Gregorian calendar, held as its day number:
/// 1 January of the year 1 is day 1, and each following day counts one up.
/// Only dates that `chrono::NaiveDate` can hold are dates here.
#[derive(Clone, Copy, Debug, PartialEq, Eq, Structural)]
pub struct Date {
    days: i32,
}

/// Whether a day number names a date that `chrono` can represent.
pub open spec fn in_calendar(n: int) -> bool {
    FIRST_DAY <= n <= LAST_DAY
}

/// Day of the week of day number `n`, counted from Monday (0) to Sunday (6);
/// day 1 (1 January of the year 1) is a Monday.
pub open spec fn weekday_of(n: int) -> int {
    (n - 1) % 7
}

impl View for Date {
    type V = int;

    /// The day number.
    closed spec fn view(&self) -> int {
        self.days as int
    }
}

impl Date {
    #[verifier::type_invariant]
    spec fn inside_calendar(self) -> bool {
        in_calendar(self.days as int)
    }

    /// The date with day number `n`; `None` when `n` lies outside the range
    /// that `chrono` can represent.
    pub fn from_day_number(n: i64) -> (r: Option<Date>)
        ensures
            r matches Some(d) ==> d@ == n,
            r is Some <==> in_calendar(n as int),
    {
        if FIRST_DAY as i64 <= n && n <= LAST_DAY as i64 {
            Some(Date { days: n as i32 })
        } else {
            None
        }
    }

    /// The day number.
    pub fn day_number(self) -> (r: i32)
        ensures
            r == self@,
            in_calendar(r as int),
    {
        proof {
            use_type_invariant(&self);
        }
        self.days
    }

    /// Signed number of days from `other` to `self` (what
    /// `(self - other).num_days()` gives in `chrono`).
    pub fn days_since(self, other: Date) -> (r: i64)
        ensures
            r == self@ - other@,
    {
        self.days as i64 - other.days as i64
    }

    /// Day of the week, counted from Monday (0) to Sunday (6).
    pub fn weekday(self) -> (r: u8)
        ensures
            r == weekday_of(self@),
    {
        proof {
            use_type_invariant(&self);
            vstd::arithmetic::div_mod::lemma_mod_multiples_vanish(14_000_000, self@ - 1, 7);
        }
        let shifted: i64 = self.days as i64 - 1 + 98_000_000;
        (shifted % 7) as u8
    }

    /// Whether `self` comes strictly before `other`.
    pub fn is_before(self, other: Date) -> (r: bool)
        ensures
            r == (self@ < other@),
    {
        self.days < other.days
    }
}

/// The local calendar date, read from the system clock with
/// `chrono::Local::now().date_naive()`. Nothing is promised of which day it
/// is; `chrono` only ever returns a date inside its own range.
#[verifier::external_body]
pub(crate) fn today() -> (d: Date)
    ensures
        in_calendar(d@),
{
    Date { days: Local::now().date_naive().num_days_from_ce() }
}

/// What `chrono::NaiveDate::parse_from_str(text, "%Y-%m-%d")` yields for a
/// text, as a day number; `None` where it reports an error.
pub uninterp spec fn ymd_day_number(text: Seq<char>) -> Option<int>;

/// A text whose last character is an ASCII digit.
pub open spec fn ends_in_digit(s: Seq<char>) -> bool {
    s.len() > 0 && '0' <= s.last() && s.last() <= '9'
}

/// Parses `text` with `chrono::NaiveDate::parse_from_str` and the format
/// `"%Y-%m-%d"`. The result is named (`ymd_day_number`): the accepted syntax
/// (signs, digit counts, leading spaces) is `chrono`'s and is not restated
/// here. One fact is stated: the format ends with the day number, which
/// `chrono` reads as ASCII digits, and it refuses any text left over
/// (`format::parse`, "TOO_LONG"), so a parsed text ends in a digit. A parsed
/// `NaiveDate` always lies in `chrono`'s range, so it is a `Date`.
#[verifier::external_body]
pub(crate) fn parse_ymd(text: &str) -> (r: Option<Date>)
    ensures
        match r {
            Some(d) => ymd_day_number(text@) == Some(d@),
            None => ymd_day_number(text@) is None,
        },
        r is Some ==> ends_in_digit(text@),
{
    match NaiveDate::parse_from_str(text, "%Y-%m-%d") {
        Ok(d) => Some(Date { days: d.num_days_from_ce() }),
        Err(_) => None,
    }
}

/// Moves `d` by `n` days with `chrono::TimeDelta::try_days` and
/// `chrono::NaiveDate::checked_add_signed`, the checked form of
/// `date + Duration::days(n)`. By `chrono`'s source the result is the date
/// `n` days away whenever that date lies in its range, and `None` otherwise
/// (an `n` that `try_days` refuses lies far outside that range).
#[verifier::external_body]
pub(crate) fn shift_days(d: Date, n: i64) -> (r: Option<Date>)
    ensures
        r matches Some(e) ==> e@ == d@ + n,
        r is Some <==> in_calendar(d@ + n),
{
    let start = NaiveDate::from_num_days_from_ce_opt(d.days).unwrap();
    match TimeDelta::try_days(n) {
        Some(delta) => match start.checked_add_signed(delta) {
            Some(e) => Some(Date { days: e.num_days_from_ce() }),
            None => None,
        },
        None => None,
    }
}

} // verus!

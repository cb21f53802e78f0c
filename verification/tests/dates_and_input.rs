use deadline::date::{Date, FIRST_DAY, LAST_DAY};
use deadline::input::{parse_date, parse_deadline, parse_int, DateInputError};

fn day(n: i64) -> Date {
    Date::from_day_number(n).unwrap()
}

// 2026-03-10, a Tuesday.
const TUESDAY: i64 = 739685;

#[test]
fn calendar_range_edges() {
    assert!(Date::from_day_number(FIRST_DAY as i64).is_some());
    assert!(Date::from_day_number(FIRST_DAY as i64 - 1).is_none());
    assert!(Date::from_day_number(LAST_DAY as i64).is_some());
    assert!(Date::from_day_number(LAST_DAY as i64 + 1).is_none());
    assert_eq!(day(730000).day_number(), 730000);
}

#[test]
fn date_arithmetic_and_weekdays() {
    assert_eq!(day(TUESDAY).days_since(day(TUESDAY - 4)), 4);
    assert_eq!(day(TUESDAY - 4).days_since(day(TUESDAY)), -4);
    assert!(day(1).is_before(day(2)));
    assert!(!day(2).is_before(day(2)));
    assert_eq!(day(1).weekday(), 0);
    assert_eq!(day(TUESDAY).weekday(), 1);
    assert_eq!(day(0).weekday(), 6);
    assert_eq!(day(FIRST_DAY as i64).weekday(), day(FIRST_DAY as i64 + 7).weekday());
}

#[test]
fn day_counts_are_relative_to_today() {
    let today = day(TUESDAY);
    assert_eq!(parse_deadline("3d", today), Ok(day(TUESDAY + 3)));
    assert_eq!(parse_deadline("0d", today), Ok(today));
    assert_eq!(parse_deadline("-2d", today), Ok(day(TUESDAY - 2)));
    assert_eq!(parse_deadline("+5d", today), Ok(day(TUESDAY + 5)));
}

#[test]
fn bad_day_counts() {
    let today = day(TUESDAY);
    assert_eq!(parse_deadline("xd", today), Err(DateInputError::BadDayCount));
    assert_eq!(parse_deadline("d", today), Err(DateInputError::BadDayCount));
    assert_eq!(parse_deadline("3 d", today), Err(DateInputError::BadDayCount));
    assert_eq!(parse_deadline("9223372036854775808d", today), Err(DateInputError::BadDayCount));
}

#[test]
fn day_counts_past_the_calendar() {
    let today = day(TUESDAY);
    assert_eq!(parse_deadline("99999999999d", today), Err(DateInputError::OutOfRange));
    assert_eq!(parse_deadline("-999999999d", today), Err(DateInputError::OutOfRange));
    assert_eq!(parse_deadline("9223372036854775807d", today), Err(DateInputError::OutOfRange));
    assert_eq!(parse_deadline("1d", day(LAST_DAY as i64)), Err(DateInputError::OutOfRange));
}

#[test]
fn weekday_names_give_the_next_such_day() {
    let today = day(TUESDAY);
    assert_eq!(parse_deadline("friday", today), Ok(day(TUESDAY + 3)));
    assert_eq!(parse_deadline("Fri", today), Ok(day(TUESDAY + 3)));
    assert_eq!(parse_deadline("WED", today), Ok(day(TUESDAY + 1)));
    assert_eq!(parse_deadline("wed", today), Ok(day(TUESDAY + 1)));
    assert_eq!(parse_deadline("Sunday", today), Ok(day(TUESDAY + 5)));
    assert_eq!(parse_deadline("mon", today), Ok(day(TUESDAY + 6)));
    // the same weekday as today means next week
    assert_eq!(parse_deadline("tue", today), Ok(day(TUESDAY + 7)));
    assert_eq!(parse_deadline("Tuesday", today), Ok(day(TUESDAY + 7)));
    // not a weekday name
    assert_eq!(parse_deadline("thurs", today), Err(DateInputError::BadDate));
}

#[test]
fn calendar_dates() {
    let today = day(TUESDAY);
    assert_eq!(parse_deadline("2026-03-10", today), Ok(day(TUESDAY)));
    assert_eq!(parse_deadline("1999-09-03", today), Ok(day(730000)));
    assert_eq!(parse_deadline("2026/03/10", today), Err(DateInputError::BadDate));
    assert_eq!(parse_deadline("tomorrow", today), Err(DateInputError::BadDate));
    assert_eq!(parse_deadline("", today), Err(DateInputError::BadDate));
}

#[test]
fn parse_date_reads_the_clock_only_for_relative_input() {
    assert_eq!(parse_date("2026-03-10"), Ok(day(TUESDAY)));
    assert!(parse_date("5d").is_ok());
    assert_eq!(parse_date("nonsense"), Err(DateInputError::BadDate));
}

#[test]
fn whole_numbers_as_std_reads_them() {
    let chars = |s: &str| s.chars().collect::<Vec<char>>();
    assert_eq!(parse_int(&chars("42")), Some(42));
    assert_eq!(parse_int(&chars("-42")), Some(-42));
    assert_eq!(parse_int(&chars("+7")), Some(7));
    assert_eq!(parse_int(&chars("007")), Some(7));
    assert_eq!(parse_int(&chars("-9223372036854775808")), Some(i64::MIN));
    assert_eq!(parse_int(&chars("9223372036854775807")), Some(i64::MAX));
    assert_eq!(parse_int(&chars("9223372036854775808")), None);
    assert_eq!(parse_int(&chars("-9223372036854775809")), None);
    assert_eq!(parse_int(&chars("")), None);
    assert_eq!(parse_int(&chars("-")), None);
    assert_eq!(parse_int(&chars("+")), None);
    assert_eq!(parse_int(&chars("1_000")), None);
    assert_eq!(parse_int(&chars(" 1")), None);
    for s in ["0", "12", "-5", "+3", "x", "", "99999999999999999999"] {
        assert_eq!(parse_int(&chars(s)), s.parse::<i64>().ok());
    }
}

#[test]
fn dates_do_not_depend_on_today() {
    for today in [day(TUESDAY), day(1), day(LAST_DAY as i64)] {
        assert_eq!(parse_deadline("2026-03-10", today), Ok(day(TUESDAY)));
        assert_eq!(parse_deadline(" 2026-03-10", today), Ok(day(TUESDAY)));
    }
}

use deadline::calendar::CalendarEvent;
use deadline::date::Date;
use deadline::task::Task;
use deadline::view::{item, plan_calendar, plan_view, window, DisplayItem, Source, ViewFlags};

fn day(n: i64) -> Date {
    Date::from_day_number(n).unwrap()
}

const TODAY: i64 = 739685;

fn task(title: &str, end: i64, completed: Option<i64>) -> Task {
    Task { title: title.to_string(), end: day(end), autostrike: false, hash: None, completed: completed.map(day) }
}

fn event(title: &str, start: &str, calendar: &str, struck: bool) -> CalendarEvent {
    CalendarEvent {
        title: title.to_string(),
        start: start.to_string(),
        end: start.to_string(),
        all_day: false,
        calendar: calendar.to_string(),
        hash: 0,
        struck,
    }
}

fn flags(all: bool, completed: bool, overdue: bool) -> ViewFlags {
    ViewFlags { all, completed, overdue }
}

fn tasks() -> Vec<Task> {
    vec![
        task("overdue", TODAY - 5, None),
        task("later", TODAY + 5, None),
        task("done", TODAY - 80, Some(TODAY - 79)),
        task("soon", TODAY + 1, None),
    ]
}

use Source::{Calendar as C, Task as T};

#[test]
fn default_view_shows_current_tasks_overdue_first() {
    let l = plan_view(&tasks(), &vec![], day(TODAY), flags(false, false, false), None, false, None).unwrap();
    assert_eq!(l.sources, vec![T(0), T(3), T(1)]);
    assert_eq!((l.shown, l.remaining), (3, 0));
}

#[test]
fn all_view_puts_struck_tasks_last() {
    let l = plan_view(&tasks(), &vec![], day(TODAY), flags(true, false, false), None, false, None).unwrap();
    assert_eq!(l.sources, vec![T(0), T(3), T(1), T(2)]);
    let r = plan_view(&tasks(), &vec![], day(TODAY), flags(true, false, false), None, true, None).unwrap();
    assert_eq!(r.sources, vec![T(2), T(1), T(3), T(0)]);
}

#[test]
fn completed_and_overdue_views() {
    let c = plan_view(&tasks(), &vec![], day(TODAY), flags(false, true, false), None, false, None).unwrap();
    assert_eq!(c.sources, vec![T(2)]);
    let o = plan_view(&tasks(), &vec![], day(TODAY), flags(false, false, true), None, false, None).unwrap();
    assert_eq!(o.sources, vec![T(0)]);
    // `all` wins over the other filters, `completed` over `overdue`
    let a = plan_view(&tasks(), &vec![], day(TODAY), flags(true, true, true), None, false, None).unwrap();
    assert_eq!(a.sources.len(), 4);
    let co = plan_view(&tasks(), &vec![], day(TODAY), flags(false, true, true), None, false, None).unwrap();
    assert_eq!(co.sources, vec![T(2)]);
}

#[test]
fn equal_keys_keep_their_order() {
    let ts = vec![task("b", TODAY + 2, None), task("a", TODAY + 2, None), task("c", TODAY + 1, None)];
    let l = plan_view(&ts, &vec![], day(TODAY), flags(false, false, false), None, false, None).unwrap();
    assert_eq!(l.sources, vec![T(2), T(0), T(1)]);
}

#[test]
fn events_merge_into_the_view() {
    let events = vec![
        event("retro", "2026-03-13T10:00:00Z", "Work", false),
        event("gym", "2026-03-11T10:00:00Z", "Home", false),
        event("old", "2026-03-01T10:00:00Z", "Work", true),
        event("yesterday", "2026-03-09", "Work", false),
    ];
    let l = plan_view(&tasks(), &events, day(TODAY), flags(false, false, false), None, false, None).unwrap();
    assert_eq!(l.sources, vec![T(0), C(3), T(3), C(1), C(0), T(1)]);
    let work = plan_view(&tasks(), &events, day(TODAY), flags(false, false, false), Some("work"), false, None).unwrap();
    assert_eq!(work.sources, vec![T(0), C(3), T(3), C(0), T(1)]);
    let all = plan_view(&tasks(), &events, day(TODAY), flags(true, false, false), Some("Work,Home"), false, None).unwrap();
    assert_eq!(all.sources, vec![T(0), C(3), T(3), C(1), C(0), T(1), T(2), C(2)]);
    let done = plan_view(&tasks(), &events, day(TODAY), flags(false, true, false), None, false, None).unwrap();
    assert_eq!(done.sources, vec![T(2), C(2)]);
}

#[test]
fn line_limit_keeps_room_for_the_closing_line() {
    let l = plan_view(&tasks(), &vec![], day(TODAY), flags(true, false, false), None, false, Some(3)).unwrap();
    assert_eq!((l.shown, l.remaining), (2, 2));
    let fits = plan_view(&tasks(), &vec![], day(TODAY), flags(true, false, false), None, false, Some(4)).unwrap();
    assert_eq!((fits.shown, fits.remaining), (4, 0));
    assert_eq!(window(5, Some(3)), (2, 3));
    assert_eq!(window(5, Some(1)), (0, 5));
    assert_eq!(window(5, Some(0)), (0, 5));
    assert_eq!(window(3, Some(3)), (3, 0));
    assert_eq!(window(4, None), (4, 0));
    assert_eq!(window(0, Some(2)), (0, 0));
}

#[test]
fn calendar_listing_sorts_by_start() {
    let events = vec![
        event("retro", "2026-03-13T10:00:00Z", "Work", false),
        event("gym", "2026-03-11T10:00:00Z", "Home", false),
        event("old", "2026-03-01T10:00:00Z", "Work", true),
        event("undated", "sometime, maybe", "Work", false),
    ];
    let l = plan_calendar(&events, day(TODAY), None, false, None).unwrap();
    assert_eq!(l.sources, vec![C(3), C(1), C(0)]);
    let with_struck = plan_calendar(&events, day(TODAY), None, true, None).unwrap();
    assert_eq!(with_struck.sources, vec![C(2), C(3), C(1), C(0)]);
    let work = plan_calendar(&events, day(TODAY), Some("WORK"), false, Some(2)).unwrap();
    assert_eq!(work.sources, vec![C(3), C(0)]);
    assert_eq!((work.shown, work.remaining), (2, 0));
    let cut = plan_calendar(&events, day(TODAY), None, true, Some(2)).unwrap();
    assert_eq!((cut.shown, cut.remaining), (1, 3));
}

#[test]
fn kept_events_need_a_date_head() {
    let events = vec![event("fine", "2026-03-11T10:00:00Z", "Work", false), event("short", "2026", "Work", false)];
    assert_eq!(plan_calendar(&events, day(TODAY), None, false, None).err(), Some(1));
    assert_eq!(plan_view(&vec![], &events, day(TODAY), flags(false, false, false), None, false, None).err(), Some(1));
    // an event that the filters drop is never read
    assert!(plan_calendar(&events, day(TODAY), Some("Home"), false, None).is_ok());
    // a cut inside a character
    let odd = vec![event("odd", "2026-03-1\u{e9}", "Work", false)];
    assert_eq!(plan_calendar(&odd, day(TODAY), None, false, None).err(), Some(0));
}

#[test]
fn items_point_back_to_their_sources() {
    let ts = tasks();
    let es = vec![event("gym", "2026-03-11T10:00:00Z", "Home", true)];
    match item(T(1), &ts, &es) {
        DisplayItem::Task(t) => assert_eq!(t.title, "later"),
        DisplayItem::Calendar(_) => panic!("expected a task"),
    }
    let e = item(C(0), &ts, &es);
    assert!(e.is_struck());
    assert_eq!(e.sort_key(day(TODAY)), (2, TODAY as i32 + 1));
    assert_eq!(item(T(0), &ts, &es).sort_key(day(TODAY)), (0, TODAY as i32 - 5));
    assert_eq!(item(T(3), &ts, &es).sort_key(day(TODAY)), (1, TODAY as i32 + 1));
    assert!(!item(T(3), &ts, &es).is_struck());
}

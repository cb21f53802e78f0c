use deadline::calendar::{struck_events_text, struck_ids_from_text, calendar_selected, find_calendar_event, prepare_events, struck_hashes, CalendarEvent};
use deadline::date::Date;
use deadline::display::{DisplayOpts, RowKind, Tone};
use deadline::lookup::Lookup;
use deadline::numerals::id_label;

fn day(n: i64) -> Date {
    Date::from_day_number(n).unwrap()
}

const TODAY: i64 = 739685;

fn event(title: &str, start: &str, calendar: &str) -> CalendarEvent {
    CalendarEvent {
        title: title.to_string(),
        start: start.to_string(),
        end: start.to_string(),
        all_day: false,
        calendar: calendar.to_string(),
        hash: 0,
        struck: false,
    }
}

#[test]
fn event_ids_come_from_title_and_start() {
    let mut a = event("Standup", "2026-03-12T09:00:00Z", "Work");
    let mut b = event("Standup", "2026-03-12T09:00:00Z", "Home");
    let mut c = event("Standup", "2026-03-13T09:00:00Z", "Work");
    a.compute_hash();
    b.compute_hash();
    c.compute_hash();
    assert!(a.get_id() < 0x1000000);
    assert_eq!(a.get_id(), a.hash);
    assert_eq!(a.get_id(), b.get_id());
    assert_ne!(a.get_id(), c.get_id());
}

#[test]
fn event_dates() {
    let e = event("Standup", "2026-03-12T09:00:00Z", "Work");
    assert_eq!(e.start_date(), Some(day(TODAY + 2)));
    assert_eq!(e.end_date(), Some(day(TODAY + 2)));
    assert_eq!(event("x", "2026-03-12", "Work").start_date(), Some(day(TODAY + 2)));
    assert_eq!(event("x", "not a date at all", "Work").start_date(), None);
    assert_eq!(event("x", "2026-03-12", "Work").listed_date(day(TODAY)), day(TODAY + 2));
    assert_eq!(event("x", "sometime soon", "Work").listed_date(day(TODAY)), day(TODAY));
}

#[test]
fn event_rows() {
    let mut e = event("Standup", "2026-03-12T09:00:00Z", "Work");
    e.compute_hash();
    let row = e.render(day(TODAY), DisplayOpts::default());
    assert_eq!(row.kind, RowKind::Calendar);
    assert_eq!(row.tag, format!("[{}] ", id_label(e.hash)));
    assert_eq!(row.status, "   2d");
    assert_eq!(row.tone, Tone::Soon);
    assert_eq!(row.title, "Standup (calendar)");
    assert_eq!(row.note, " [Work]");
    assert!(!row.struck);
    e.struck = true;
    let row = e.render(day(TODAY), DisplayOpts::new(false, false));
    assert_eq!(row.status, "✓  2d");
    assert_eq!(row.tone, Tone::Done);
    assert_eq!(row.tag, "");
    assert_eq!(row.note, "");
    assert!(row.struck);
}

#[test]
fn struck_events_round_trip() {
    let mut events = vec![
        event("A", "2026-03-11T10:00:00Z", "Work"),
        event("B", "2026-03-12T10:00:00Z", "Work"),
        event("C", "2026-03-13T10:00:00Z", "Home"),
    ];
    prepare_events(&mut events, &vec![]);
    assert!(events.iter().all(|e| !e.struck));
    events[0].struck = true;
    events[2].struck = true;
    let saved = struck_hashes(&events);
    assert_eq!(saved, vec![events[0].hash, events[2].hash]);

    let mut reloaded = vec![
        event("A", "2026-03-11T10:00:00Z", "Work"),
        event("B", "2026-03-12T10:00:00Z", "Work"),
        event("C", "2026-03-13T10:00:00Z", "Home"),
    ];
    prepare_events(&mut reloaded, &saved);
    let flags: Vec<bool> = reloaded.iter().map(|e| e.struck).collect();
    assert_eq!(flags, vec![true, false, true]);
    for (a, b) in events.iter().zip(reloaded.iter()) {
        assert_eq!(a.hash, b.hash);
    }
}

#[test]
fn finding_events_by_hash() {
    let mut events = vec![event("A", "2026-03-11", "Work"), event("B", "2026-03-12", "Work")];
    events[0].hash = 0x123456;
    events[1].hash = 0x12FFFF;
    assert_eq!(find_calendar_event("1234", &events), Lookup::Found(0));
    assert_eq!(find_calendar_event("12", &events), Lookup::Ambiguous(2));
    assert_eq!(find_calendar_event("9", &events), Lookup::Missing);
}

#[test]
fn calendar_name_filters() {
    assert!(calendar_selected("Work", "work"));
    assert!(calendar_selected("Work", "Work,Personal"));
    assert!(calendar_selected("Personal", "Work,personal"));
    assert!(!calendar_selected("Home", "Work,Personal"));
    assert!(calendar_selected("ÜBER", "über"));
    assert!(!calendar_selected("Work", "Wor"));
    assert!(calendar_selected("", "Work,"));
}

#[test]
fn struck_ids_file_text() {
    let mut events = vec![event("A", "2026-03-11", "Work"), event("B", "2026-03-12", "Work")];
    events[0].hash = 0x123456;
    events[1].hash = 0xABCDEF;
    events[1].struck = true;
    let text = struck_events_text(&events);
    assert_eq!(text, serde_json::to_string_pretty(&vec![0xABCDEFu32]).unwrap());
    assert_eq!(struck_ids_from_text(&text), vec![0xABCDEF]);
    assert_eq!(struck_ids_from_text("[1, 2, 3]"), vec![1, 2, 3]);
    assert_eq!(struck_ids_from_text(""), Vec::<u32>::new());
    assert_eq!(struck_ids_from_text("not json"), Vec::<u32>::new());
    assert_eq!(struck_ids_from_text("[-1]"), Vec::<u32>::new());
    events[1].struck = false;
    assert_eq!(struck_ids_from_text(&struck_events_text(&events)), Vec::<u32>::new());
}

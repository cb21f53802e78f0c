use deadline::date::Date;
use deadline::display::{DisplayOpts, RowKind, Tone};
use deadline::lookup::Lookup;
use deadline::numerals::{id_label, id_tag};
use deadline::task::{apply_autostrike_all, completed_from, ensure_hashes, find_task, read_completed, CompletedField, Task};

fn day(n: i64) -> Date {
    Date::from_day_number(n).unwrap()
}

const TODAY: i64 = 739685;

fn unhashed(title: &str, end: i64, autostrike: bool) -> Task {
    Task { title: title.to_string(), end: day(end), autostrike, hash: None, completed: None }
}

#[test]
fn new_task_stores_its_computed_id() {
    let t = Task::new("Finish assignment".to_string(), day(TODAY + 3), false);
    assert_eq!(t.title, "Finish assignment");
    assert_eq!(t.end, day(TODAY + 3));
    assert!(!t.autostrike);
    assert_eq!(t.completed, None);
    let id = t.hash.unwrap();
    assert!(id < 0x1000000);
    assert_eq!(t.get_id(), id);
    // the same contents give the same id, stored or computed
    assert_eq!(Task::new("Finish assignment".to_string(), day(TODAY + 3), false).hash, Some(id));
    assert_eq!(unhashed("Finish assignment", TODAY + 3, false).get_id(), id);
    // other contents give (here) another id
    assert_ne!(Task::new("Finish assignment".to_string(), day(TODAY + 4), false).hash, Some(id));
}

#[test]
fn ensure_hash_keeps_the_id() {
    let mut t = unhashed("Pay rent", TODAY, true);
    let before = t.get_id();
    t.ensure_hash();
    assert_eq!(t.hash, Some(before));
    assert_eq!(t.get_id(), before);
    t.ensure_hash();
    assert_eq!(t.hash, Some(before));
}

#[test]
fn stored_id_survives_changes() {
    let mut t = Task::new("Standup".to_string(), day(TODAY), false);
    let id = t.get_id();
    t.strike_on(day(TODAY));
    assert_eq!(t.get_id(), id);
    t.unstrike();
    t.toggle_autostrike();
    t.push_to(day(TODAY + 30));
    assert_eq!(t.get_id(), id);
}

#[test]
fn strike_and_unstrike() {
    let mut t = unhashed("Essay", TODAY + 2, false);
    t.strike_on(day(TODAY));
    assert_eq!(t.completed, Some(day(TODAY)));
    // striking again keeps the first day
    t.strike_on(day(TODAY + 1));
    assert_eq!(t.completed, Some(day(TODAY)));
    t.unstrike();
    assert_eq!(t.completed, None);
    assert_eq!(t.end, day(TODAY + 2));
    t.strike();
    assert!(t.completed.is_some());
}

#[test]
fn autostrike_strikes_only_overdue_flagged_tasks() {
    let mut overdue = unhashed("Report", TODAY - 5, true);
    overdue.apply_autostrike_on(day(TODAY));
    assert_eq!(overdue.completed, Some(day(TODAY)));

    let mut due_today = unhashed("Report", TODAY, true);
    due_today.apply_autostrike_on(day(TODAY));
    assert_eq!(due_today.completed, None);

    let mut unflagged = unhashed("Report", TODAY - 5, false);
    unflagged.apply_autostrike_on(day(TODAY));
    assert_eq!(unflagged.completed, None);

    let mut done = unhashed("Report", TODAY - 5, true);
    done.completed = Some(day(TODAY - 6));
    done.apply_autostrike_on(day(TODAY));
    assert_eq!(done.completed, Some(day(TODAY - 6)));

    // running the rule again on the same or an earlier day changes nothing
    let mut again = overdue;
    again.apply_autostrike_on(day(TODAY));
    assert_eq!(again.completed, Some(day(TODAY)));
    again.apply_autostrike_on(day(TODAY - 1));
    assert_eq!(again.completed, Some(day(TODAY)));

    let mut tasks = vec![unhashed("a", TODAY - 1, true), unhashed("b", TODAY + 1, true)];
    apply_autostrike_all(&mut tasks, day(TODAY));
    assert_eq!(tasks[0].completed, Some(day(TODAY)));
    assert_eq!(tasks[1].completed, None);
}

#[test]
fn saving_stores_every_id() {
    let mut tasks = vec![unhashed("a", TODAY, false), Task::new("b".to_string(), day(TODAY), false)];
    let ids: Vec<u32> = tasks.iter().map(|t| t.get_id()).collect();
    ensure_hashes(&mut tasks);
    assert_eq!(tasks[0].hash, Some(ids[0]));
    assert_eq!(tasks[1].hash, Some(ids[1]));
}

#[test]
fn task_rows() {
    let mut t = Task::new("Write tests".to_string(), day(TODAY + 3), true);
    let row = t.render(day(TODAY), DisplayOpts::default());
    assert_eq!(row.kind, RowKind::Task);
    assert_eq!(row.tag, id_tag(t.get_id()));
    assert_eq!(row.tag, format!("[{}] ", id_label(t.get_id())));
    assert_eq!(row.status, "   3d");
    assert_eq!(row.tone, Tone::Soon);
    assert_eq!(row.title, "Write tests");
    assert!(!row.struck);
    assert_eq!(row.note, " [-s]");

    let plain = t.render(day(TODAY), DisplayOpts::new(false, false));
    assert_eq!(plain.tag, "");
    assert_eq!(plain.note, "");

    t.strike_on(day(TODAY - 1));
    let row = t.render(day(TODAY + 10), DisplayOpts::default());
    assert_eq!(row.status, "✓  4d");
    assert_eq!(row.tone, Tone::Done);
    assert!(row.struck);

    let overdue = unhashed("Late", TODAY - 2, false).render(day(TODAY), DisplayOpts::default());
    assert_eq!(overdue.status, "  -2d");
    assert_eq!(overdue.tone, Tone::Urgent);
    assert_eq!(overdue.note, "");
}

#[test]
fn display_opts() {
    let d = DisplayOpts::default();
    assert!(d.show_hash && d.show_flags);
    let o = DisplayOpts::new(false, true);
    assert!(!o.show_hash && o.show_flags);
}

#[test]
fn finding_tasks_by_hash() {
    let mut tasks = vec![unhashed("a", TODAY, false), unhashed("b", TODAY, false), unhashed("c", TODAY, false)];
    tasks[0].hash = Some(0xABC123);
    tasks[1].hash = Some(0xABD456);
    tasks[2].hash = Some(0x00F00D);
    assert_eq!(find_task("abc", &tasks), Lookup::Found(0));
    assert_eq!(find_task("ab", &tasks), Lookup::Ambiguous(2));
    assert_eq!(find_task("00F00D", &tasks), Lookup::Found(2));
    assert_eq!(find_task("123", &tasks), Lookup::Missing);
    let fresh = Task::new("d".to_string(), day(TODAY), false);
    let label = id_label(fresh.get_id());
    tasks.push(fresh);
    assert_eq!(find_task(&label, &tasks), Lookup::Found(3));
    assert_eq!(find_task(&label.to_lowercase(), &tasks), Lookup::Found(3));
}

#[test]
fn completed_field_of_older_files() {
    let today = day(TODAY);
    assert_eq!(completed_from(Some(CompletedField::Bool(true)), today), Some(today));
    assert_eq!(completed_from(Some(CompletedField::Bool(false)), today), None);
    assert_eq!(completed_from(Some(CompletedField::Date(day(5))), today), Some(day(5)));
    assert_eq!(completed_from(None, today), None);
    assert_eq!(read_completed(Some(CompletedField::Date(day(5)))), Some(day(5)));
    assert_eq!(read_completed(None), None);
    assert!(read_completed(Some(CompletedField::Bool(true))).is_some());
}

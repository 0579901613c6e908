use vibe_tasks::codec::LoadError;
use vibe_tasks::model::Priority;
use vibe_tasks::ops::{StartOutcome, StopOutcome, TaskManager};
use vibe_tasks::time::{parse_due_date, DueDateError, Timestamp};

fn chars(s: &str) -> Vec<char> {
    s.chars().collect()
}

fn text(v: &[char]) -> String {
    v.iter().collect()
}

fn at(year: i64, month: u8, day: u8, hour: u8, minute: u8, second: u8) -> Timestamp {
    Timestamp { year, month, day, hour, minute, second, offset_seconds: 3600 }
}

fn sample_manager() -> TaskManager {
    let mut m = TaskManager::new();
    let now = at(2026, 10, 9, 12, 0, 0);
    m.add_task(
        chars("Write report"),
        Some(chars("quarterly numbers\nwith a second line")),
        Priority::High,
        Some(at(2026, 10, 10, 9, 0, 0)),
        now,
    );
    m.add_task(chars("Grocery run 🛒"), None, Priority::Low, None, now);
    let catalog = vibe_tasks::model::catalog();
    m.set_categories(1, vec![catalog[0].clone(), catalog[2].clone()]);
    m.start_timer(1, at(2026, 10, 9, 13, 0, 0));
    m.stop_timer(1, at(2026, 10, 9, 14, 15, 0));
    m.start_timer(2, at(2026, 10, 9, 14, 30, 0));
    m.record_notification(1, at(2026, 10, 9, 6, 0, 0));
    m
}

#[test]
fn save_then_load_round_trips() {
    let m = sample_manager();
    let stored = m.save();
    let reloaded = TaskManager::load(&stored).expect("saved text must load");
    // Identical collection: saving the reloaded collection gives the
    // same bytes, and the visible fields match.
    assert_eq!(text(&stored), text(&reloaded.save()));
    assert_eq!(reloaded.tasks.len(), 2);
    assert_eq!(reloaded.tasks[0].id, 1);
    assert_eq!(text(&reloaded.tasks[0].title), "Write report");
    assert_eq!(reloaded.tasks[0].categories.len(), 2);
    assert_eq!(reloaded.tasks[0].time_entries.len(), 1);
    assert_eq!(reloaded.tasks[0].time_entries[0].duration_seconds, Some(75 * 60));
    assert_eq!(
        reloaded.tasks[0].last_notification,
        Some(at(2026, 10, 9, 6, 0, 0))
    );
    assert_eq!(text(&reloaded.tasks[1].title), "Grocery run 🛒");
    assert!(reloaded.tasks[1].current_time_entry.is_some());
    assert_eq!(
        reloaded.tasks[1].current_time_entry.unwrap().start_time,
        at(2026, 10, 9, 14, 30, 0)
    );
}

#[test]
fn malformed_storage_is_an_error_not_empty() {
    assert_eq!(TaskManager::load(&chars("")).err().unwrap(), LoadError::Malformed);
    assert_eq!(
        TaskManager::load(&chars("not a task file")).err().unwrap(),
        LoadError::Malformed
    );
    assert_eq!(TaskManager::load(&chars("tasks 1\n")).err().unwrap(), LoadError::Malformed);
    // Trailing garbage after a well-formed collection is rejected too.
    let mut stored = sample_manager().save();
    stored.push('x');
    assert_eq!(TaskManager::load(&stored).err().unwrap(), LoadError::Malformed);
}

#[test]
fn ill_formed_task_is_rejected() {
    // Parses, but the task has id 0, which the collection never holds.
    let bad = chars(
        "tasks 1\nid 0\ntitle 1:a\ndescription none\npriority Low\nstatus Todo\ndue none\ncreated 1970 1 1 0 0 0 0\ncategories 0\nentries 0\ncurrent none\nnotified none\n",
    );
    assert_eq!(TaskManager::load(&bad).err().unwrap(), LoadError::Invalid);
    // The same text with id 1 is a valid collection.
    let good = chars(
        "tasks 1\nid 1\ntitle 1:a\ndescription none\npriority Low\nstatus Todo\ndue none\ncreated 1970 1 1 0 0 0 0\ncategories 0\nentries 0\ncurrent none\nnotified none\n",
    );
    let m = TaskManager::load(&good).expect("well-formed text must load");
    assert_eq!(m.tasks[0].id, 1);
    assert_eq!(text(&m.tasks[0].title), "a");
}

#[test]
fn due_date_text_parses_exactly() {
    let ts = parse_due_date(&chars("2026-10-10 09:00"), 3600).unwrap();
    assert_eq!(ts, at(2026, 10, 10, 9, 0, 0));
    assert_eq!(
        parse_due_date(&chars("2026-10-10"), 3600).unwrap_err(),
        DueDateError::BadShape
    );
    assert_eq!(
        parse_due_date(&chars("2026/10/10 09:00"), 3600).unwrap_err(),
        DueDateError::BadShape
    );
    // February 30th is no date; February 29th exists only in leap years.
    assert_eq!(
        parse_due_date(&chars("2026-02-30 09:00"), 3600).unwrap_err(),
        DueDateError::BadRange
    );
    assert_eq!(
        parse_due_date(&chars("2023-02-29 09:00"), 3600).unwrap_err(),
        DueDateError::BadRange
    );
    assert!(parse_due_date(&chars("2024-02-29 09:00"), 3600).is_ok());
    assert_eq!(
        parse_due_date(&chars("2026-13-01 09:00"), 3600).unwrap_err(),
        DueDateError::BadRange
    );
    assert_eq!(
        parse_due_date(&chars("2026-10-10 24:00"), 3600).unwrap_err(),
        DueDateError::BadRange
    );
}

#[test]
fn epoch_seconds_known_values() {
    let epoch = Timestamp { year: 1970, month: 1, day: 1, hour: 0, minute: 0, second: 0, offset_seconds: 0 };
    assert_eq!(epoch.epoch_seconds(), 0);
    let next_day = Timestamp { year: 1970, month: 1, day: 2, hour: 0, minute: 0, second: 0, offset_seconds: 0 };
    assert_eq!(next_day.epoch_seconds(), 86400);
    // A positive local offset pulls the instant earlier.
    let offset = Timestamp { year: 1970, month: 1, day: 1, hour: 1, minute: 0, second: 0, offset_seconds: 3600 };
    assert_eq!(offset.epoch_seconds(), 0);
    // Leap day 2024: 2024-03-01 is day 19783 since the epoch.
    let march = Timestamp { year: 2024, month: 3, day: 1, hour: 0, minute: 0, second: 0, offset_seconds: 0 };
    assert_eq!(march.epoch_seconds(), 19783 * 86400);
}

#[test]
fn write_report_scenario() {
    // Add "Write report" due tomorrow at 09:00, priority High, no
    // description; the listing shows it as TODO / HIGH with the due
    // date rendered as date and minutes.
    let mut m = TaskManager::new();
    let now = at(2026, 10, 9, 12, 0, 0);
    let due = parse_due_date(&chars("2026-10-10 09:00"), 3600).unwrap();
    let id = m.add_task(chars("Write report"), None, Priority::High, Some(due), now);
    assert_eq!(id, 1);
    let listing = text(&m.list_tasks());
    assert!(listing.contains("Task #1: Write report"));
    assert!(listing.contains("Status: TODO"));
    assert!(listing.contains("Priority: HIGH"));
    assert!(listing.contains("Due: 2026-10-10 09:00"));
    assert!(!listing.contains("Description:"));
    // Start its timer, let time pass, stop it: the report shows exactly
    // one session whose duration equals the total.
    assert_eq!(m.start_timer(1, at(2026, 10, 9, 12, 0, 0)), StartOutcome::Started);
    assert_eq!(m.stop_timer(1, at(2026, 10, 9, 13, 30, 0)), StopOutcome::Stopped);
    let report = text(&m.time_report(1, at(2026, 10, 9, 14, 0, 0)).unwrap());
    assert!(report.contains("Time Report for Task #1: Write report"));
    assert!(report.contains("Session 1:"));
    assert!(report.contains("Start: 2026-10-09 12:00:00"));
    assert!(report.contains("End: 2026-10-09 13:30:00"));
    assert!(report.contains("Duration: 1.50 hours"));
    assert!(report.contains("Total time spent: 1.50 hours"));
    assert!(!report.contains("Session 2:"));
    assert!(!report.contains("Current session:"));
}

#[test]
fn listing_and_report_details() {
    let m = sample_manager();
    let listing = text(&m.list_tasks());
    assert!(listing.contains("Categories: 💼 Work, 📚 Study"));
    assert!(listing.contains("⏱️ Total time: 1.25 hours"));
    assert!(listing.contains("🔄 Currently tracking time (started: 14:30:00)"));
    assert!(listing.contains("Description: quarterly numbers"));
    let empty = TaskManager::new();
    assert_eq!(
        text(&empty.list_tasks()),
        "No tasks found. Add some tasks to get started! ✨\n"
    );
    // A task with no closed sessions but a running timer still reports
    // the open session, and the total equals its elapsed time.
    let report2 = text(&m.time_report(2, at(2026, 10, 9, 15, 0, 0)).unwrap());
    assert!(!report2.contains("No time entries recorded yet."));
    assert!(report2.contains("Current session:"));
    assert!(report2.contains("Started: 2026-10-09 14:30:00"));
    assert!(report2.contains("Running for: 0.50 hours"));
    assert!(report2.contains("Total time spent: 0.50 hours"));
    // With history and a running timer, the total is the closed sum
    // plus the in-progress elapsed time: 1.25 closed + 1.00 running.
    let mut m2 = sample_manager();
    m2.start_timer(1, at(2026, 10, 9, 15, 0, 0));
    let report1 = text(&m2.time_report(1, at(2026, 10, 9, 16, 0, 0)).unwrap());
    assert!(report1.contains("Current session:"));
    assert!(report1.contains("Running for: 1.00 hours"));
    assert!(report1.contains("Total time spent: 2.25 hours"));
    assert!(m.time_report(9, at(2026, 10, 9, 15, 0, 0)).is_none());
    // Only a task with nothing at all, closed or running, reports that
    // there is nothing.
    let mut m3 = TaskManager::new();
    m3.add_task(chars("idle"), None, Priority::Low, None, at(2026, 10, 9, 12, 0, 0));
    let report3 = text(&m3.time_report(1, at(2026, 10, 9, 15, 0, 0)).unwrap());
    assert!(report3.contains("No time entries recorded yet."));
    assert!(!report3.contains("Total time spent:"));
}

#[test]
fn selection_maps_to_catalog_snapshots() {
    // Selected indices become the catalog entries in selection order;
    // an index outside the catalog is ignored.
    let picked = vibe_tasks::model::categories_from_selection(&vec![4, 0, 9]);
    assert_eq!(picked.len(), 2);
    assert_eq!(text(&picked[0].name), "Shopping");
    assert_eq!(text(&picked[0].color), "cyan");
    assert_eq!(text(&picked[1].name), "Work");
    assert!(vibe_tasks::model::categories_from_selection(&Vec::new()).is_empty());
}

use vibe_tasks::model::{Priority, Status};
use vibe_tasks::ops::{StartOutcome, StopOutcome, TaskManager};
use vibe_tasks::time::Timestamp;

fn chars(s: &str) -> Vec<char> {
    s.chars().collect()
}

fn text(v: &[char]) -> String {
    v.iter().collect()
}

fn at(year: i64, month: u8, day: u8, hour: u8, minute: u8, second: u8) -> Timestamp {
    Timestamp { year, month, day, hour, minute, second, offset_seconds: 3600 }
}

#[test]
fn ids_run_from_one() {
    let mut m = TaskManager::new();
    let now = at(2026, 10, 9, 12, 0, 0);
    let a = m.add_task(chars("first"), None, Priority::Low, None, now);
    let b = m.add_task(chars("second"), None, Priority::Medium, None, now);
    let c = m.add_task(chars("third"), None, Priority::High, None, now);
    assert_eq!(a, 1);
    assert_eq!(b, 2);
    assert_eq!(c, 3);
}

#[test]
fn id_after_delete_comes_from_length() {
    let mut m = TaskManager::new();
    let now = at(2026, 10, 9, 12, 0, 0);
    m.add_task(chars("first"), None, Priority::Low, None, now);
    m.add_task(chars("second"), None, Priority::Low, None, now);
    m.add_task(chars("third"), None, Priority::Low, None, now);
    assert!(m.delete_task(2));
    // Length now drives the id: the next add repeats id 3, not 4.
    let d = m.add_task(chars("fourth"), None, Priority::Low, None, now);
    assert_eq!(d, 3);
    assert_eq!(m.tasks.len(), 3);
}

#[test]
fn complete_sets_done_and_reports_missing() {
    let mut m = TaskManager::new();
    let now = at(2026, 10, 9, 12, 0, 0);
    m.add_task(chars("work"), None, Priority::Low, None, now);
    assert!(m.complete_task(1));
    assert_eq!(m.tasks[0].status, Status::Done);
    assert!(!m.complete_task(9));
}

#[test]
fn update_status_overwrites() {
    let mut m = TaskManager::new();
    let now = at(2026, 10, 9, 12, 0, 0);
    m.add_task(chars("work"), None, Priority::Low, None, now);
    assert!(m.update_status(1, Status::InProgress));
    assert_eq!(m.tasks[0].status, Status::InProgress);
    assert!(m.update_status(1, Status::Todo));
    assert_eq!(m.tasks[0].status, Status::Todo);
    assert!(!m.update_status(2, Status::Done));
}

#[test]
fn timer_start_stop_exact_duration() {
    let mut m = TaskManager::new();
    let created = at(2026, 10, 9, 8, 0, 0);
    m.add_task(chars("timed"), None, Priority::Medium, None, created);
    let start = at(2026, 10, 9, 9, 0, 0);
    let stop = at(2026, 10, 9, 10, 30, 0);
    assert_eq!(m.start_timer(1, start), StartOutcome::Started);
    // The open entry records exactly the given instant.
    let open = m.tasks[0].current_time_entry.unwrap();
    assert_eq!(open.start_time, start);
    assert_eq!(open.end_time, None);
    assert_eq!(open.duration_seconds, None);
    // A second start is refused while one is running.
    assert_eq!(m.start_timer(1, stop), StartOutcome::AlreadyRunning);
    assert_eq!(m.stop_timer(1, stop), StopOutcome::Stopped);
    assert!(m.tasks[0].current_time_entry.is_none());
    assert_eq!(m.tasks[0].time_entries.len(), 1);
    let closed = m.tasks[0].time_entries[0];
    assert_eq!(closed.start_time, start);
    assert_eq!(closed.end_time, Some(stop));
    // Exactly end minus start: ninety minutes.
    assert_eq!(closed.duration_seconds, Some(90 * 60));
    // Stopping again reports that nothing is running.
    assert_eq!(m.stop_timer(1, stop), StopOutcome::NotRunning);
    assert_eq!(m.stop_timer(77, stop), StopOutcome::NotFound);
}

#[test]
fn categories_replace_wholesale() {
    let mut m = TaskManager::new();
    let now = at(2026, 10, 9, 12, 0, 0);
    m.add_task(chars("labelled"), None, Priority::Low, None, now);
    let catalog = vibe_tasks::model::catalog();
    let first = vec![catalog[0].clone(), catalog[1].clone()];
    let second = vec![catalog[4].clone()];
    assert!(m.set_categories(1, first));
    assert_eq!(m.tasks[0].categories.len(), 2);
    assert!(m.set_categories(1, second));
    // The second selection replaces the first entirely, never merges.
    assert_eq!(m.tasks[0].categories.len(), 1);
    assert_eq!(text(&m.tasks[0].categories[0].name), "Shopping");
    assert!(!m.set_categories(5, Vec::new()));
}

#[test]
fn delete_missing_leaves_storage_identical() {
    let mut m = TaskManager::new();
    let now = at(2026, 10, 9, 12, 0, 0);
    m.add_task(chars("keep me"), Some(chars("desc")), Priority::Urgent, None, now);
    let before = m.save();
    assert!(!m.delete_task(42));
    let after = m.save();
    assert_eq!(text(&before), text(&after));
}

#[test]
fn notification_cooldown() {
    let now = at(2026, 10, 9, 12, 0, 0);
    let due = at(2026, 10, 9, 15, 0, 0); // due in 3 hours
    let mut m = TaskManager::new();
    m.add_task(chars("soon"), None, Priority::High, Some(due), now);
    // Last reminder five hours ago: the six-hour cooldown blocks it.
    m.record_notification(1, at(2026, 10, 9, 7, 0, 0));
    assert_eq!(m.notification_candidates(now).len(), 0);
    // Last reminder seven hours ago: one reminder fires.
    m.record_notification(1, at(2026, 10, 9, 5, 0, 0));
    let cands = m.notification_candidates(now);
    assert_eq!(cands.len(), 1);
    assert_eq!(cands[0].0, 1);
    assert_eq!(text(&cands[0].1), "Task 'soon' is due in 3 hours!");
}

#[test]
fn notification_window_and_text() {
    let now = at(2026, 10, 9, 12, 0, 0);
    let mut m = TaskManager::new();
    // Never notified, due within the hour: "now".
    m.add_task(chars("imminent"), None, Priority::High, Some(at(2026, 10, 9, 12, 30, 0)), now);
    // Due more than 24 whole hours away: outside the window.
    m.add_task(chars("far"), None, Priority::Low, Some(at(2026, 10, 11, 0, 0, 0)), now);
    // No due date at all.
    m.add_task(chars("undated"), None, Priority::Low, None, now);
    let cands = m.notification_candidates(now);
    assert_eq!(cands.len(), 1);
    assert_eq!(text(&cands[0].1), "Task 'imminent' is due now!");
}

#[test]
fn current_time_is_well_formed() {
    // The clock wrapper promises a well-formed timestamp; hold the
    // real call to those bounds.
    let now = vibe_tasks::time::now_local();
    assert!((1..=12).contains(&now.month));
    assert!((1..=31).contains(&now.day));
    assert!(now.hour < 24 && now.minute < 60 && now.second < 60);
    assert!(now.year.abs() <= 262143);
    assert!(now.offset_seconds.abs() <= 86400);
    // A well-formed timestamp converts to epoch seconds without panic.
    let _ = now.epoch_seconds();
}

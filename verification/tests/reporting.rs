use time_tracker::durations::{compute_durations, TaskDuration};
use time_tracker::entry::{Entry, TaskType};
use time_tracker::report::{print_entries, summarize};
use time_tracker::time::SimpleTime;

fn t(hours: u32, minutes: u32) -> SimpleTime {
    SimpleTime::new(hours, minutes)
}

fn entry(description: &str, time: SimpleTime, task_type: TaskType) -> Entry {
    Entry::new(description.to_string(), time, None, task_type)
}

fn minutes_of(rows: &[TaskDuration]) -> Vec<(String, u32)> {
    rows.iter().map(|r| (r.description.clone(), r.minutes)).collect()
}

#[test]
fn minor_time_is_redistributed_proportionally() {
    let ledger = vec![
        entry("Work", t(9, 0), TaskType::Regular),
        entry("Coffee", t(10, 0), TaskType::Minor),
        entry("Work", t(10, 10), TaskType::Regular),
        entry("Stop", t(12, 0), TaskType::Stop),
    ];
    let rows = compute_durations(&ledger, t(12, 0));
    // Coffee's 10 raw minutes split between 60 and 110 raw minutes of work:
    // the preceding entry gets 10*60/170 rounded down, the rest follows it.
    assert_eq!(
        minutes_of(&rows),
        vec![("Work".to_string(), 63), ("Work".to_string(), 117)]
    );
    let report = summarize(rows);
    assert_eq!(report.contexts.len(), 1);
    assert_eq!(report.contexts[0].context, "Work");
    assert_eq!(report.contexts[0].minutes, 180);
}

#[test]
fn lone_minor_entry_gives_empty_report() {
    let ledger = vec![entry("Coffee", t(9, 0), TaskType::Minor)];
    let rows = compute_durations(&ledger, t(10, 0));
    assert!(rows.is_empty());
    let report = summarize(rows);
    assert!(report.contexts.is_empty());
    assert!(report.tasks.is_empty());
}

#[test]
fn minor_with_single_neighbor_gives_it_everything() {
    let ledger = vec![
        entry("Work", t(9, 0), TaskType::Regular),
        entry("Coffee", t(10, 0), TaskType::Minor),
    ];
    let rows = compute_durations(&ledger, t(10, 30));
    // Work ran 60 raw minutes, Coffee's 30 raw minutes all fall back on it.
    assert_eq!(minutes_of(&rows), vec![("Work".to_string(), 90)]);
}

#[test]
fn conservation_holds_on_a_mixed_ledger() {
    let ledger = vec![
        entry("A", t(8, 0), TaskType::Regular),
        entry("Break", t(8, 45), TaskType::Minor),
        entry("B", t(9, 15), TaskType::Regular),
        entry("Lunch", t(12, 0), TaskType::Minor),
        entry("C", t(12, 30), TaskType::Regular),
    ];
    let now = t(14, 0);
    let rows = compute_durations(&ledger, now);
    let total: u32 = rows.iter().map(|r| r.minutes).sum();
    // Raw durations of regular and minor entries: 45+30+165+30+90.
    assert_eq!(total, 360);
}

#[test]
fn trailing_stop_produces_no_open_interval() {
    let ledger = vec![
        entry("Work", t(9, 0), TaskType::Regular),
        entry("Stop", t(10, 0), TaskType::Stop),
    ];
    let rows = compute_durations(&ledger, t(18, 0));
    assert_eq!(minutes_of(&rows), vec![("Work".to_string(), 60)]);
}

#[test]
fn stop_in_the_middle_closes_only_its_predecessor() {
    let ledger = vec![
        entry("A", t(9, 0), TaskType::Regular),
        entry("Stop", t(10, 0), TaskType::Stop),
        entry("B", t(11, 0), TaskType::Regular),
    ];
    let rows = compute_durations(&ledger, t(11, 30));
    assert_eq!(
        minutes_of(&rows),
        vec![("A".to_string(), 60), ("B".to_string(), 30)]
    );
}

#[test]
fn clock_before_last_entry_gives_it_zero() {
    let ledger = vec![entry("Work", t(9, 0), TaskType::Regular)];
    let rows = compute_durations(&ledger, t(8, 0));
    assert_eq!(minutes_of(&rows), vec![("Work".to_string(), 0)]);
}

#[test]
fn summarize_groups_by_context_in_first_appearance_order() {
    let ledger = vec![
        Entry::new("Mail".to_string(), t(9, 0), Some("Admin".to_string()), TaskType::Regular),
        Entry::new("Code".to_string(), t(9, 30), Some("Project".to_string()), TaskType::Regular),
        Entry::new("Calls".to_string(), t(10, 30), Some("Admin".to_string()), TaskType::Regular),
        entry("Stop", t(11, 0), TaskType::Stop),
    ];
    let report = print_entries(&ledger, t(11, 0));
    assert_eq!(report.tasks.len(), 3);
    assert_eq!(report.contexts.len(), 2);
    assert_eq!(report.contexts[0].context, "Admin");
    assert_eq!(report.contexts[0].minutes, 60);
    assert_eq!(report.contexts[1].context, "Project");
    assert_eq!(report.contexts[1].minutes, 60);
}

#[test]
fn context_totals_sum_to_task_minutes() {
    let ledger = vec![
        Entry::new("Mail".to_string(), t(9, 0), Some("Admin".to_string()), TaskType::Regular),
        entry("Break", t(9, 40), TaskType::Minor),
        Entry::new("Code".to_string(), t(10, 0), Some("Project".to_string()), TaskType::Regular),
        Entry::new("Calls".to_string(), t(11, 0), Some("Admin".to_string()), TaskType::Regular),
    ];
    let report = print_entries(&ledger, t(12, 0));
    let by_context: u32 = report.contexts.iter().map(|c| c.minutes).sum();
    let by_task: u32 = report.tasks.iter().map(|r| r.minutes).sum();
    assert_eq!(by_context, by_task);
    assert_eq!(by_task, 180);
}

#[test]
fn reading_twice_gives_identical_reports() {
    let ledger = vec![
        entry("Work", t(9, 0), TaskType::Regular),
        entry("Coffee", t(10, 0), TaskType::Minor),
        entry("Work", t(10, 10), TaskType::Regular),
    ];
    let now = t(12, 0);
    let first = print_entries(&ledger, now);
    let second = print_entries(&ledger, now);
    assert_eq!(first, second);
}

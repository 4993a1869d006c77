use time_tracker::append::{append, resolve_resume, AppendError, AppendParams};
use time_tracker::entry::{Entry, TaskType};
use time_tracker::time::SimpleTime;

fn t(hours: u32, minutes: u32) -> SimpleTime {
    SimpleTime::new(hours, minutes)
}

fn entry(description: &str, time: SimpleTime, task_type: TaskType) -> Entry {
    Entry::new(description.to_string(), time, None, task_type)
}

fn params(description: Option<&str>) -> AppendParams {
    AppendParams {
        description: description.map(|d| d.to_string()),
        context: None,
        time: None,
        stop: false,
        minor: false,
        resume: None,
    }
}

fn abc_ledger() -> Vec<Entry> {
    vec![
        entry("A", t(9, 0), TaskType::Regular),
        entry("B", t(10, 0), TaskType::Regular),
        entry("C", t(11, 0), TaskType::Regular),
    ]
}

#[test]
fn simple_time_ordering_and_totals() {
    assert_eq!(t(9, 30).total_minutes(), 570);
    assert_eq!(t(0, 0).total_minutes(), 0);
    assert_eq!(t(23, 59).total_minutes(), 1439);
}

#[test]
fn parse_time_accepts_padded_form() {
    assert_eq!(SimpleTime::parse("09:05"), Ok(t(9, 5)));
    assert_eq!(SimpleTime::parse("23:59"), Ok(t(23, 59)));
    assert_eq!(SimpleTime::parse("00:00"), Ok(t(0, 0)));
}

#[test]
fn parse_time_rejects_malformed_input() {
    assert!(SimpleTime::parse("24:00").is_err());
    assert!(SimpleTime::parse("12:60").is_err());
    assert!(SimpleTime::parse("9:05").is_err());
    assert!(SimpleTime::parse("abcde").is_err());
    assert!(SimpleTime::parse("12-30").is_err());
    assert!(SimpleTime::parse("").is_err());
}

#[test]
fn entry_context_defaults_to_description() {
    let e = Entry::new("Work".to_string(), t(9, 0), None, TaskType::Regular);
    assert_eq!(e.context, "Work");
    let f = Entry::new("Work".to_string(), t(9, 0), Some("Office".to_string()), TaskType::Regular);
    assert_eq!(f.context, "Office");
}

#[test]
fn resume_references_by_signed_index() {
    let ledger = abc_ledger();
    assert_eq!(resolve_resume(&ledger, 0), Ok(0));
    assert_eq!(resolve_resume(&ledger, 1), Ok(1));
    assert_eq!(resolve_resume(&ledger, -1), Ok(2));
    assert_eq!(resolve_resume(&ledger, -2), Ok(1));
    assert_eq!(resolve_resume(&ledger, 5), Err(AppendError::ResumeIndexError));
    assert_eq!(resolve_resume(&ledger, -4), Err(AppendError::ResumeIndexError));
}

#[test]
fn append_ordinary_entry_sorts_backdated_time() {
    let mut ledger = abc_ledger();
    let mut p = params(Some("Early"));
    p.time = Some(t(8, 0));
    append(&mut ledger, p, t(12, 0)).unwrap();
    assert_eq!(ledger.len(), 4);
    assert_eq!(ledger[0].description, "Early");
    assert_eq!(ledger[1].description, "A");
}

#[test]
fn append_without_description_is_rejected_and_ledger_unchanged() {
    let mut ledger = abc_ledger();
    let r = append(&mut ledger, params(None), t(12, 0));
    assert_eq!(r, Err(AppendError::MissingDescriptionError));
    assert_eq!(ledger.len(), 3);
    assert_eq!(ledger[0].description, "A");
    assert_eq!(ledger[1].description, "B");
    assert_eq!(ledger[2].description, "C");
}

#[test]
fn append_stop_needs_no_description() {
    let mut ledger = abc_ledger();
    let mut p = params(None);
    p.stop = true;
    append(&mut ledger, p, t(12, 0)).unwrap();
    assert_eq!(ledger.len(), 4);
    assert_eq!(ledger[3].task_type, TaskType::Stop);
    assert_eq!(ledger[3].start_time, t(12, 0));
}

#[test]
fn append_minor_entry_uses_now_when_no_time_given() {
    let mut ledger = abc_ledger();
    let mut p = params(Some("Coffee"));
    p.minor = true;
    append(&mut ledger, p, t(11, 30)).unwrap();
    assert_eq!(ledger[3].description, "Coffee");
    assert_eq!(ledger[3].task_type, TaskType::Minor);
    assert_eq!(ledger[3].start_time, t(11, 30));
}

#[test]
fn append_resume_copies_description_and_context() {
    let mut ledger = vec![
        Entry::new("A".to_string(), t(9, 0), Some("Ctx".to_string()), TaskType::Regular),
        entry("B", t(10, 0), TaskType::Regular),
    ];
    let mut p = params(None);
    p.resume = Some(0);
    append(&mut ledger, p, t(11, 0)).unwrap();
    assert_eq!(ledger.len(), 3);
    assert_eq!(ledger[2].description, "A");
    assert_eq!(ledger[2].context, "Ctx");
    assert_eq!(ledger[2].start_time, t(11, 0));
    assert_eq!(ledger[2].task_type, TaskType::Regular);
}

#[test]
fn append_resume_respects_explicit_overrides() {
    let mut ledger = abc_ledger();
    let mut p = params(Some("Other"));
    p.resume = Some(-1);
    p.time = Some(t(11, 45));
    append(&mut ledger, p, t(12, 0)).unwrap();
    assert_eq!(ledger[3].description, "Other");
    assert_eq!(ledger[3].context, "C");
    assert_eq!(ledger[3].start_time, t(11, 45));
}

#[test]
fn append_resume_out_of_bounds_fails() {
    let mut ledger = abc_ledger();
    let mut p = params(None);
    p.resume = Some(5);
    assert_eq!(append(&mut ledger, p, t(12, 0)), Err(AppendError::ResumeIndexError));
    assert_eq!(ledger.len(), 3);
}

#[test]
fn sort_entries_is_stable_on_equal_times() {
    let mut ledger = vec![
        entry("Late", t(10, 0), TaskType::Regular),
        entry("First", t(9, 0), TaskType::Regular),
        entry("Second", t(9, 0), TaskType::Regular),
    ];
    time_tracker::sort::sort_entries(&mut ledger);
    assert_eq!(ledger[0].description, "First");
    assert_eq!(ledger[1].description, "Second");
    assert_eq!(ledger[2].description, "Late");
}

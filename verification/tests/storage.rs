use time_tracker::entry::{Entry, TaskType};
use time_tracker::store::{read_entries, write_entries, StoreError};
use time_tracker::time::SimpleTime;

fn t(hours: u32, minutes: u32) -> SimpleTime {
    SimpleTime::new(hours, minutes)
}

fn entry(description: &str, time: SimpleTime, task_type: TaskType) -> Entry {
    Entry::new(description.to_string(), time, None, task_type)
}

#[test]
fn write_entries_encodes_one_row_per_entry() {
    let ledger = vec![
        entry("Work", t(9, 0), TaskType::Regular),
        Entry::new("Coffee".to_string(), t(10, 5), Some("Breaks".to_string()), TaskType::Minor),
    ];
    let bytes = write_entries(&ledger).unwrap();
    let text = String::from_utf8(bytes).unwrap();
    assert_eq!(text, "Work,09:00,Work,Regular\nCoffee,10:05,Breaks,Minor\n");
}

#[test]
fn read_entries_decodes_and_sorts_out_of_order_rows() {
    let data = b"Late,10:30,Late,Regular\nEarly,09:00,Early,Regular\nStop,11:00,Stop,Stop\n"
        .to_vec();
    let ledger = read_entries(&data).unwrap();
    assert_eq!(ledger.len(), 3);
    assert_eq!(ledger[0].description, "Early");
    assert_eq!(ledger[1].description, "Late");
    assert_eq!(ledger[2].task_type, TaskType::Stop);
    assert!(ledger.windows(2).all(|w| {
        w[0].start_time.total_minutes() <= w[1].start_time.total_minutes()
    }));
}

#[test]
fn read_entries_of_empty_bytes_gives_empty_ledger() {
    let ledger = read_entries(&Vec::new()).unwrap();
    assert!(ledger.is_empty());
}

#[test]
fn read_entries_names_the_row_with_a_bad_time() {
    let data = b"Work,09:00,Work,Regular\nBad,9x:00,Bad,Regular\n".to_vec();
    assert_eq!(read_entries(&data), Err(StoreError::DecodeError { row: 1 }));
}

#[test]
fn read_entries_names_the_row_with_a_bad_task_type() {
    let data = b"Work,09:00,Work,Sometimes\n".to_vec();
    assert_eq!(read_entries(&data), Err(StoreError::DecodeError { row: 0 }));
}

#[test]
fn read_entries_rejects_a_short_row() {
    let data = b"Work,09:00,Work\n".to_vec();
    assert_eq!(read_entries(&data), Err(StoreError::DecodeError { row: 0 }));
}

#[test]
fn round_trip_preserves_the_ledger() {
    let ledger = vec![
        Entry::new("A, with comma".to_string(), t(8, 15), None, TaskType::Regular),
        Entry::new("B".to_string(), t(9, 0), Some("Ctx".to_string()), TaskType::Minor),
        Entry::new("C".to_string(), t(23, 59), None, TaskType::Stop),
    ];
    let bytes = write_entries(&ledger).unwrap();
    let back = read_entries(&bytes).unwrap();
    assert_eq!(back.len(), ledger.len());
    for (a, b) in ledger.iter().zip(back.iter()) {
        assert_eq!(a.description, b.description);
        assert_eq!(a.context, b.context);
        assert_eq!(a.start_time, b.start_time);
        assert_eq!(a.task_type, b.task_type);
    }
}

#[test]
fn write_entries_always_succeeds_on_a_well_formed_ledger() {
    assert_eq!(write_entries(&Vec::new()), Ok(Vec::new()));
    let ledger = vec![entry("Work", t(9, 0), TaskType::Regular)];
    assert!(write_entries(&ledger).is_ok());
}

#[test]
fn format_time_zero_pads() {
    let ledger = vec![entry("X", t(0, 5), TaskType::Regular)];
    let bytes = write_entries(&ledger).unwrap();
    let text = String::from_utf8(bytes).unwrap();
    assert!(text.contains("00:05"));
}

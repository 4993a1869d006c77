//! A personal daily time-tracking ledger.
//!
//! A ledger holds one day's timestamped activity entries. The library models
//! entries and wall-clock times, keeps the ledger sorted by start time,
//! appends new entries (ordinary, stop, minor, or resume-by-index), computes
//! per-entry durations with minor-time redistribution, and groups the result
//! into a report by context. Row encoding and decoding of the on-disk format
//! is delegated to the `csv` crate behind trusted wrappers.

pub mod append;
pub mod durations;
pub mod entry;
pub mod laws;
pub mod report;
pub mod sort;
pub mod store;
pub mod time;

pub use append::append;
pub use append::resolve_resume;
pub use append::AppendError;
pub use append::AppendParams;
pub use durations::compute_durations;
pub use durations::TaskDuration;
pub use entry::Entry;
pub use entry::TaskType;
pub use report::print_entries;
pub use report::summarize;
pub use report::ContextTotal;
pub use report::Report;
pub use sort::sort_entries;
pub use store::read_entries;
pub use store::write_entries;
pub use store::StoreError;
pub use time::ClockParseError;
pub use time::SimpleTime;

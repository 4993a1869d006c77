//! Ledger entries: one recorded event with its start time, description,
//! grouping context and kind.

use vstd::prelude::*;
use crate::time::SimpleTime;

verus! {

/// The kind of a ledger entry.
#[derive(Clone, Copy, Debug, PartialEq, Eq, Structural)]
pub enum TaskType {
    /// A trackable activity; contributes its own duration to its context.
    Regular,
    /// Terminates tracking without starting new work; zero duration.
    Stop,
    /// A trackable interruption; its duration is redistributed among the
    /// neighboring regular entries instead of being reported on its own.
    Minor,
}

/// One ledger row.
#[derive(Debug, PartialEq)]
pub struct Entry {
    pub description: String,
    pub start_time: SimpleTime,
    pub context: String,
    pub task_type: TaskType,
}

/// The start time of `e` as total minutes since midnight.
pub open spec fn entry_time(e: Entry) -> int {
    e.start_time.spec_total()
}

/// The entries are ordered ascending by start time.
pub open spec fn sorted_by_time(s: Seq<Entry>) -> bool {
    forall|i: int, j: int| 0 <= i <= j < s.len() ==> entry_time(s[i]) <= entry_time(s[j])
}

/// Every entry carries a time of day whose fields are in range.
pub open spec fn times_valid(s: Seq<Entry>) -> bool {
    forall|i: int| 0 <= i < s.len() ==> (#[trigger] s[i]).start_time.valid()
}

/// A well-formed day ledger: valid times, sorted ascending by start time.
pub open spec fn valid_ledger(s: Seq<Entry>) -> bool {
    times_valid(s) && sorted_by_time(s)
}

impl Entry {
    /// Builds an entry; the context defaults to the description when absent.
    pub fn new(
        description: String,
        start_time: SimpleTime,
        context: Option<String>,
        task_type: TaskType,
    ) -> (e: Entry)
        ensures
            e.description@ == description@,
            e.start_time == start_time,
            e.context@ == (match context {
                Some(c) => c@,
                None => description@,
            }),
            e.task_type == task_type,
    {
        match context {
            Some(c) => Entry { description, start_time, context: c, task_type },
            None => {
                let context = description.clone();
                Entry { description, start_time, context, task_type }
            },
        }
    }
}

} // verus!

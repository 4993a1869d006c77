//! Appending an entry to a day's ledger: ordinary writes, stop markers,
//! minor interruptions, and resuming an earlier task by relative index.

use vstd::prelude::*;
use crate::entry::{Entry, TaskType, times_valid, valid_ledger};
use crate::sort::{sort_entries, sort_spec};
use crate::time::SimpleTime;

verus! {

/// Why an append was rejected.
#[derive(Clone, Copy, Debug, PartialEq, Eq, Structural)]
pub enum AppendError {
    /// The resume target lies outside the ledger.
    ResumeIndexError,
    /// An ordinary write carried no description.
    MissingDescriptionError,
}

/// The caller's request: what to append.
#[derive(Debug)]
pub struct AppendParams {
    pub description: Option<String>,
    pub context: Option<String>,
    pub time: Option<SimpleTime>,
    pub stop: bool,
    pub minor: bool,
    pub resume: Option<i32>,
}

/// The entry that resume target `n` refers to in a ledger of `len` entries:
/// `n >= 0` counts from the oldest entry, `n < 0` from the newest (`-1` is
/// the current one). Out of either bound, no entry.
pub open spec fn resume_index(len: int, n: int) -> Option<int> {
    if n >= 0 {
        if n < len {
            Some(n)
        } else {
            None
        }
    } else {
        if len + n >= 0 {
            Some(len + n)
        } else {
            None
        }
    }
}

/// The kind an appended entry gets from the two flags.
pub open spec fn chosen_type(stop: bool, minor: bool) -> TaskType {
    if stop {
        TaskType::Stop
    } else if minor {
        TaskType::Minor
    } else {
        TaskType::Regular
    }
}

/// The entry that `append` builds for ledger `old_l` from `p` at time `now`:
/// its start time is the explicit time or `now`; on a resume, description and
/// context come from the referenced entry unless given explicitly; otherwise
/// the context defaults to the description, and a stop entry may leave the
/// description empty.
pub open spec fn new_entry_matches(old_l: Seq<Entry>, p: AppendParams, now: SimpleTime, e: Entry) -> bool {
    &&& e.task_type == chosen_type(p.stop, p.minor)
    &&& e.start_time == (match p.time {
        Some(t) => t,
        None => now,
    })
    &&& match p.resume {
        Some(n) => match resume_index(old_l.len() as int, n as int) {
            Some(k) => {
                &&& e.description@ == (match p.description {
                    Some(d) => d@,
                    None => old_l[k].description@,
                })
                &&& e.context@ == (match p.context {
                    Some(c) => c@,
                    None => old_l[k].context@,
                })
            },
            None => false,
        },
        None => {
            let desc_v = match p.description {
                Some(d) => d@,
                None => Seq::<char>::empty(),
            };
            &&& e.description@ == desc_v
            &&& e.context@ == (match p.context {
                Some(c) => c@,
                None => desc_v,
            })
        },
    }
}

/// A resume request that cannot be satisfied.
pub open spec fn resume_out_of_bounds(old_l: Seq<Entry>, p: AppendParams) -> bool {
    match p.resume {
        Some(n) => resume_index(old_l.len() as int, n as int) is None,
        None => false,
    }
}

/// An ordinary write without a description.
pub open spec fn description_missing(p: AppendParams) -> bool {
    p.resume is None && !p.stop && p.description is None
}

/// Turns a signed resume target into the index of the referenced entry.
pub fn resolve_resume(ledger: &Vec<Entry>, n: i32) -> (r: Result<usize, AppendError>)
    ensures
        match r {
            Ok(k) => resume_index(ledger@.len() as int, n as int) == Some(k as int) && k
                < ledger@.len(),
            Err(e) => resume_index(ledger@.len() as int, n as int) is None && e
                == AppendError::ResumeIndexError,
        },
{
    let len = ledger.len();
    if n >= 0 {
        let k = n as usize;
        if k < len {
            Ok(k)
        } else {
            Err(AppendError::ResumeIndexError)
        }
    } else {
        let neg = (-(n as i64)) as usize;
        if neg <= len {
            Ok(len - neg)
        } else {
            Err(AppendError::ResumeIndexError)
        }
    }
}

/// Appends one entry chosen by `params` and re-sorts the ledger, keeping it
/// well formed; rejects an out-of-bounds resume target and an ordinary write
/// without a description, leaving the ledger unchanged.
pub fn append(ledger: &mut Vec<Entry>, params: AppendParams, now: SimpleTime) -> (r: Result<
    (),
    AppendError,
>)
    requires
        valid_ledger(old(ledger)@),
        now.valid(),
        match params.time {
            Some(t) => t.valid(),
            None => true,
        },
    ensures
        r is Ok <==> !resume_out_of_bounds(old(ledger)@, params) && !description_missing(params),
        match r {
            Ok(u) => {
                &&& exists|e: Entry|
                    #[trigger] new_entry_matches(old(ledger)@, params, now, e) && final(ledger)@
                        == sort_spec(old(ledger)@.push(e))
                &&& valid_ledger(final(ledger)@)
                &&& final(ledger)@.len() == old(ledger)@.len() + 1
            },
            Err(err) => {
                &&& final(ledger)@ == old(ledger)@
                &&& (err == AppendError::ResumeIndexError <==> resume_out_of_bounds(
                    old(ledger)@,
                    params,
                ))
                &&& (err == AppendError::MissingDescriptionError <==> !resume_out_of_bounds(
                    old(ledger)@,
                    params,
                ) && description_missing(params))
            },
        },
{
    let ghost gparams = params;
    let start_time = match params.time {
        Some(t) => t,
        None => now,
    };
    let task_type = if params.stop {
        TaskType::Stop
    } else if params.minor {
        TaskType::Minor
    } else {
        TaskType::Regular
    };
    let e: Entry;
    match params.resume {
        Some(n) => {
            let k = match resolve_resume(ledger, n) {
                Ok(k) => k,
                Err(er) => {
                    return Err(er);
                },
            };
            let desc = match params.description {
                Some(d) => d,
                None => ledger[k].description.clone(),
            };
            let ctx = match params.context {
                Some(c) => c,
                None => ledger[k].context.clone(),
            };
            e = Entry { description: desc, start_time, context: ctx, task_type };
        },
        None => {
            let desc = match params.description {
                Some(d) => d,
                None => {
                    if params.stop {
                        String::new()
                    } else {
                        return Err(AppendError::MissingDescriptionError);
                    }
                },
            };
            e = Entry::new(desc, start_time, params.context, task_type);
        },
    }
    proof {
        assert(new_entry_matches(old(ledger)@, gparams, now, e));
        assert(times_valid(old(ledger)@.push(e)));
    }
    let ghost ge = e;
    ledger.push(e);
    sort_entries(ledger);
    proof {
        assert(new_entry_matches(old(ledger)@, gparams, now, ge) && ledger@ == sort_spec(
            old(ledger)@.push(ge),
        ));
    }
    Ok(())
}

} // verus!

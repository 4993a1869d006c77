//! Per-entry durations with minor-time redistribution.
//!
//! Walking a sorted ledger, each entry's raw duration runs until the next
//! entry's start (the last entry runs until `now`); a stop entry has zero
//! duration. A minor entry's raw duration is not reported on its own: it is
//! split between the nearest preceding and following regular entries,
//! proportionally to their own raw durations (all of it to the one neighbor
//! when only one exists, dropped when the ledger has no regular entry on
//! either side). The report lists every regular entry with its final
//! duration, in chronological order.

use vstd::prelude::*;
use vstd::arithmetic::div_mod::{
    lemma_div_is_ordered,
    lemma_div_multiples_vanish,
    lemma_div_pos_is_pos,
};
use vstd::arithmetic::mul::{lemma_mul_inequality, lemma_mul_nonnegative};
use crate::entry::{Entry, TaskType, entry_time, valid_ledger};
use crate::time::SimpleTime;

verus! {

/// One line of the duration table: a regular entry and its accounted minutes.
#[derive(Debug, Clone, PartialEq)]
pub struct TaskDuration {
    pub description: String,
    pub context: String,
    pub minutes: u32,
}

/// Minutes from `t` until `now`, zero when `now` lies before `t`.
pub open spec fn now_gap(t: int, now: int) -> int {
    if now >= t {
        now - t
    } else {
        0
    }
}

/// Raw duration of entry `i`: until the next entry's start, or until `now`
/// for the last entry; a stop entry has raw duration zero.
pub open spec fn raw_dur(s: Seq<Entry>, now: int, i: int) -> int
    recommends
        0 <= i < s.len(),
{
    if s[i].task_type is Stop {
        0
    } else if i == s.len() - 1 {
        now_gap(entry_time(s[i]), now)
    } else {
        entry_time(s[i + 1]) - entry_time(s[i])
    }
}

/// Index of the nearest regular entry strictly before `i`, if any.
pub open spec fn prev_regular(s: Seq<Entry>, i: int) -> Option<int>
    decreases i,
{
    if i <= 0 {
        None
    } else if s[i - 1].task_type is Regular {
        Some(i - 1)
    } else {
        prev_regular(s, i - 1)
    }
}

/// Index of the nearest regular entry strictly after `i`, if any.
pub open spec fn next_regular(s: Seq<Entry>, i: int) -> Option<int>
    decreases s.len() - i,
{
    if i >= s.len() - 1 {
        None
    } else if s[i + 1].task_type is Regular {
        Some(i + 1)
    } else {
        next_regular(s, i + 1)
    }
}

/// The part of minor entry `i`'s raw duration that goes to its preceding
/// regular neighbor: the proportional share when both neighbors exist (all of
/// it when their raw durations are both zero), everything when only the
/// preceding neighbor exists.
pub open spec fn to_prev_amount(s: Seq<Entry>, now: int, i: int) -> int {
    let d = raw_dur(s, now, i);
    match (prev_regular(s, i), next_regular(s, i)) {
        (Some(p), Some(nx)) => {
            let a = raw_dur(s, now, p);
            let b = raw_dur(s, now, nx);
            if a + b > 0 {
                (d * a) / (a + b)
            } else {
                d
            }
        },
        (Some(p), None) => d,
        _ => 0,
    }
}

/// The part of minor entry `i`'s raw duration that goes to its following
/// regular neighbor: the remainder after the preceding neighbor's share.
pub open spec fn to_next_amount(s: Seq<Entry>, now: int, i: int) -> int {
    let d = raw_dur(s, now, i);
    match (prev_regular(s, i), next_regular(s, i)) {
        (Some(p), Some(nx)) => d - to_prev_amount(s, now, i),
        (None, Some(nx)) => d,
        _ => 0,
    }
}

/// The minutes that entry `i` adds to entry `k`: nonzero only when `i` is a
/// minor entry and `k` is one of its nearest regular neighbors.
pub open spec fn share(s: Seq<Entry>, now: int, i: int, k: int) -> int {
    if 0 <= i < s.len() && s[i].task_type is Minor {
        (if prev_regular(s, i) == Some(k) {
            to_prev_amount(s, now, i)
        } else {
            0
        }) + (if next_regular(s, i) == Some(k) {
            to_next_amount(s, now, i)
        } else {
            0
        })
    } else {
        0
    }
}

/// Minutes added to entry `k` by the entries among the first `n`.
pub open spec fn extra_upto(s: Seq<Entry>, now: int, k: int, n: int) -> int
    decreases n,
{
    if n <= 0 {
        0
    } else {
        extra_upto(s, now, k, n - 1) + share(s, now, n - 1, k)
    }
}

/// Final accounted duration of regular entry `k`: its raw duration plus
/// everything redistributed to it.
pub open spec fn final_dur(s: Seq<Entry>, now: int, k: int) -> int {
    raw_dur(s, now, k) + extra_upto(s, now, k, s.len() as int)
}

/// Sum of the raw durations of the first `n` entries.
pub open spec fn raw_sum(s: Seq<Entry>, now: int, n: int) -> int
    decreases n,
{
    if n <= 0 {
        0
    } else {
        raw_sum(s, now, n - 1) + raw_dur(s, now, n - 1)
    }
}

/// The indices of the regular entries, in order.
pub open spec fn reg_indices(s: Seq<Entry>) -> Seq<int>
    decreases s.len(),
{
    if s.len() == 0 {
        Seq::empty()
    } else {
        let p = reg_indices(s.drop_last());
        if s.last().task_type is Regular {
            p.push(s.len() - 1)
        } else {
            p
        }
    }
}

/// `out` is the duration table of ledger `s` at time `now`: one line per
/// regular entry, in order, carrying its description, its context and its
/// final duration.
pub open spec fn durations_match(s: Seq<Entry>, now: int, out: Seq<TaskDuration>) -> bool {
    let idxs = reg_indices(s);
    &&& out.len() == idxs.len()
    &&& forall|j: int|
        0 <= j < out.len() ==> {
            let k = idxs[j];
            &&& (#[trigger] out[j]).description@ == s[k].description@
            &&& out[j].context@ == s[k].context@
            &&& out[j].minutes == final_dur(s, now, k)
        }
}

/// Every index listed by `reg_indices` is a regular entry's, in range and
/// strictly increasing.
pub proof fn lemma_reg_indices_props(s: Seq<Entry>)
    ensures
        reg_indices(s).len() <= s.len(),
        forall|j: int|
            0 <= j < reg_indices(s).len() ==> 0 <= #[trigger] reg_indices(s)[j] < s.len()
                && s[reg_indices(s)[j]].task_type is Regular,
    decreases s.len(),
{
    if s.len() > 0 {
        lemma_reg_indices_props(s.drop_last());
    }
}

pub proof fn lemma_raw_dur_bounds(s: Seq<Entry>, now: int, i: int)
    requires
        valid_ledger(s),
        0 <= now <= 1439,
        0 <= i < s.len(),
    ensures
        0 <= raw_dur(s, now, i) <= 1439,
{
    assert(entry_time(s[i]) <= 1439);
    if i < s.len() - 1 {
        assert(entry_time(s[i]) <= entry_time(s[i + 1]));
        assert(entry_time(s[i + 1]) <= 1439);
    }
}

pub proof fn lemma_prev_regular_props(s: Seq<Entry>, i: int)
    requires
        0 <= i <= s.len(),
    ensures
        match prev_regular(s, i) {
            Some(p) => 0 <= p < i && s[p].task_type is Regular,
            None => forall|k: int| 0 <= k < i ==> !((#[trigger] s[k]).task_type is Regular),
        },
    decreases i,
{
    if i > 0 && !(s[i - 1].task_type is Regular) {
        lemma_prev_regular_props(s, i - 1);
    }
}

pub proof fn lemma_next_regular_props(s: Seq<Entry>, i: int)
    requires
        0 <= i,
    ensures
        match next_regular(s, i) {
            Some(p) => i < p < s.len() && s[p].task_type is Regular,
            None => forall|k: int| i < k < s.len() ==> !((#[trigger] s[k]).task_type is Regular),
        },
    decreases s.len() - i,
{
    if i < s.len() - 1 && !(s[i + 1].task_type is Regular) {
        lemma_next_regular_props(s, i + 1);
    }
}

/// Both redistributed amounts are nonnegative and together give back the
/// minor entry's raw duration whenever a regular neighbor exists.
pub proof fn lemma_amount_bounds(s: Seq<Entry>, now: int, i: int)
    requires
        valid_ledger(s),
        0 <= now <= 1439,
        0 <= i < s.len(),
    ensures
        0 <= to_prev_amount(s, now, i) <= raw_dur(s, now, i),
        0 <= to_next_amount(s, now, i) <= raw_dur(s, now, i),
        to_prev_amount(s, now, i) + to_next_amount(s, now, i) <= raw_dur(s, now, i),
{
    let d = raw_dur(s, now, i);
    lemma_raw_dur_bounds(s, now, i);
    lemma_prev_regular_props(s, i);
    lemma_next_regular_props(s, i);
    match (prev_regular(s, i), next_regular(s, i)) {
        (Some(p), Some(nx)) => {
            let a = raw_dur(s, now, p);
            let b = raw_dur(s, now, nx);
            lemma_raw_dur_bounds(s, now, p);
            lemma_raw_dur_bounds(s, now, nx);
            if a + b > 0 {
                lemma_mul_nonnegative(d, a);
                lemma_div_pos_is_pos(d * a, a + b);
                lemma_mul_inequality(a, a + b, d);
                lemma_div_is_ordered(d * a, d * (a + b), a + b);
                lemma_div_multiples_vanish(d, a + b);
                assert(d * (a + b) == (a + b) * d) by (nonlinear_arith);
                assert(d * a == a * d) by (nonlinear_arith);
            }
        },
        _ => {},
    }
}

/// A single redistributed share never exceeds the minor entry's raw duration.
pub proof fn lemma_share_bounds(s: Seq<Entry>, now: int, i: int, k: int)
    requires
        valid_ledger(s),
        0 <= now <= 1439,
        0 <= i < s.len(),
    ensures
        0 <= share(s, now, i, k) <= raw_dur(s, now, i),
{
    lemma_raw_dur_bounds(s, now, i);
    if s[i].task_type is Minor {
        lemma_amount_bounds(s, now, i);
        lemma_prev_regular_props(s, i);
        lemma_next_regular_props(s, i);
    }
}

/// The raw durations of a sorted day telescope: the first `n` of them sum to
/// at most two days' worth of minutes.
pub proof fn lemma_raw_sum_bounds(s: Seq<Entry>, now: int, n: int)
    requires
        valid_ledger(s),
        0 <= now <= 1439,
        0 <= n <= s.len(),
    ensures
        0 <= raw_sum(s, now, n) <= 2878,
        n < s.len() ==> raw_sum(s, now, n) <= entry_time(s[n]),
    decreases n,
{
    if n > 0 {
        lemma_raw_sum_bounds(s, now, n - 1);
        lemma_raw_dur_bounds(s, now, n - 1);
        if n < s.len() {
            assert(raw_dur(s, now, n - 1) <= entry_time(s[n]) - entry_time(s[n - 1]));
            assert(raw_sum(s, now, n - 1) <= entry_time(s[n - 1]));
        } else {
            if n - 1 > 0 {
                assert(raw_sum(s, now, n - 1) <= entry_time(s[n - 1]) <= 1439);
            }
        }
        assert(entry_time(s[n - 1]) <= 1439);
    }
}

/// Each entry's contribution keeps the running total below the raw-duration
/// sum.
pub proof fn lemma_extra_upto_bounds(s: Seq<Entry>, now: int, k: int, n: int)
    requires
        valid_ledger(s),
        0 <= now <= 1439,
        0 <= n <= s.len(),
    ensures
        0 <= extra_upto(s, now, k, n) <= raw_sum(s, now, n),
    decreases n,
{
    if n > 0 {
        lemma_extra_upto_bounds(s, now, k, n - 1);
        lemma_share_bounds(s, now, n - 1, k);
    }
}

fn raw_duration(v: &Vec<Entry>, now_m: u32, i: usize) -> (d: u32)
    requires
        valid_ledger(v@),
        now_m <= 1439,
        i < v@.len(),
    ensures
        d == raw_dur(v@, now_m as int, i as int),
        d <= 1439,
{
    proof {
        lemma_raw_dur_bounds(v@, now_m as int, i as int);
    }
    let n = v.len();
    match v[i].task_type {
        TaskType::Stop => 0,
        _ => {
            if i + 1 < n {
                v[i + 1].start_time.total_minutes() - v[i].start_time.total_minutes()
            } else {
                let t = v[i].start_time.total_minutes();
                if now_m >= t {
                    now_m - t
                } else {
                    0
                }
            }
        },
    }
}

fn prev_regular_idx(v: &Vec<Entry>, i: usize) -> (r: Option<usize>)
    requires
        i < v@.len(),
    ensures
        match r {
            Some(p) => prev_regular(v@, i as int) == Some(p as int) && p < v@.len(),
            None => prev_regular(v@, i as int) is None,
        },
{
    let mut j: usize = i;
    while j > 0
        invariant
            j <= i < v@.len(),
            prev_regular(v@, i as int) == prev_regular(v@, j as int),
        decreases j,
    {
        if matches!(v[j - 1].task_type, TaskType::Regular) {
            return Some(j - 1);
        }
        j = j - 1;
    }
    None
}

fn next_regular_idx(v: &Vec<Entry>, i: usize) -> (r: Option<usize>)
    requires
        i < v@.len(),
    ensures
        match r {
            Some(p) => next_regular(v@, i as int) == Some(p as int) && p < v@.len(),
            None => next_regular(v@, i as int) is None,
        },
{
    let n = v.len();
    let mut j: usize = i;
    while j + 1 < n
        invariant
            i <= j < n == v@.len(),
            next_regular(v@, i as int) == next_regular(v@, j as int),
        decreases n - j,
    {
        if matches!(v[j + 1].task_type, TaskType::Regular) {
            return Some(j + 1);
        }
        j = j + 1;
    }
    None
}

fn minor_share(v: &Vec<Entry>, now_m: u32, i: usize, k: usize) -> (r: u32)
    requires
        valid_ledger(v@),
        now_m <= 1439,
        i < v@.len(),
        k < v@.len(),
    ensures
        r == share(v@, now_m as int, i as int, k as int),
        r <= raw_dur(v@, now_m as int, i as int),
{
    proof {
        lemma_share_bounds(v@, now_m as int, i as int, k as int);
        lemma_amount_bounds(v@, now_m as int, i as int);
        lemma_prev_regular_props(v@, i as int);
        lemma_next_regular_props(v@, i as int);
    }
    if !matches!(v[i].task_type, TaskType::Minor) {
        return 0;
    }
    let d = raw_duration(v, now_m, i);
    let p = prev_regular_idx(v, i);
    let nx = next_regular_idx(v, i);
    match (p, nx) {
        (Some(pp), Some(nn)) => {
            let a = raw_duration(v, now_m, pp);
            let b = raw_duration(v, now_m, nn);
            let to_prev = if a + b > 0 {
                proof {
                    assert(d * a <= 1439 * 1439) by (nonlinear_arith)
                        requires
                            0 <= d <= 1439,
                            0 <= a <= 1439,
                    ;
                }
                (d * a) / (a + b)
            } else {
                d
            };
            if k == pp {
                to_prev
            } else if k == nn {
                d - to_prev
            } else {
                0
            }
        },
        (Some(pp), None) => {
            if k == pp {
                d
            } else {
                0
            }
        },
        (None, Some(nn)) => {
            if k == nn {
                d
            } else {
                0
            }
        },
        (None, None) => 0,
    }
}

/// Computes the duration table of a sorted ledger at wall-clock time `now`:
/// one line per regular entry, in chronological order, with minor time
/// redistributed onto its nearest regular neighbors.
pub fn compute_durations(v: &Vec<Entry>, now: SimpleTime) -> (out: Vec<TaskDuration>)
    requires
        valid_ledger(v@),
        now.valid(),
    ensures
        durations_match(v@, now.spec_total(), out@),
{
    let now_m = now.total_minutes();
    let ghost nowi = now.spec_total();
    let n = v.len();
    let mut out: Vec<TaskDuration> = Vec::new();
    let mut k: usize = 0;
    while k < n
        invariant
            valid_ledger(v@),
            now_m == nowi,
            0 <= nowi <= 1439,
            n == v@.len(),
            k <= n,
            out@.len() == reg_indices(v@.take(k as int)).len(),
            forall|j: int|
                0 <= j < out@.len() ==> {
                    let idx = reg_indices(v@.take(k as int))[j];
                    &&& (#[trigger] out@[j]).description@ == v@[idx].description@
                    &&& out@[j].context@ == v@[idx].context@
                    &&& out@[j].minutes == final_dur(v@, nowi, idx)
                },
        decreases n - k,
    {
        let ghost idxs_k = reg_indices(v@.take(k as int));
        proof {
            assert(v@.take(k as int + 1).drop_last() =~= v@.take(k as int));
            assert(v@.take(k as int + 1).last() == v@[k as int]);
        }
        if matches!(v[k].task_type, TaskType::Regular) {
            let raw = raw_duration(v, now_m, k);
            let mut extra: u32 = 0;
            let mut i: usize = 0;
            while i < n
                invariant
                    valid_ledger(v@),
                    now_m == nowi,
                    0 <= nowi <= 1439,
                    n == v@.len(),
                    k < n,
                    i <= n,
                    extra == extra_upto(v@, nowi, k as int, i as int),
                    0 <= extra <= raw_sum(v@, nowi, i as int),
                    raw_sum(v@, nowi, i as int) <= 2878,
                decreases n - i,
            {
                proof {
                    lemma_raw_sum_bounds(v@, nowi, i as int + 1);
                    lemma_share_bounds(v@, nowi, i as int, k as int);
                    lemma_extra_upto_bounds(v@, nowi, k as int, i as int + 1);
                }
                let sh = minor_share(v, now_m, i, k);
                extra = extra + sh;
                i = i + 1;
            }
            proof {
                assert(extra == extra_upto(v@, nowi, k as int, v@.len() as int));
            }
            let total = raw + extra;
            let line = TaskDuration {
                description: v[k].description.clone(),
                context: v[k].context.clone(),
                minutes: total,
            };
            out.push(line);
            proof {
                assert(reg_indices(v@.take(k as int + 1)) =~= idxs_k.push(k as int));
            }
        } else {
            proof {
                assert(reg_indices(v@.take(k as int + 1)) =~= idxs_k);
            }
        }
        k = k + 1;
    }
    proof {
        assert(v@.take(n as int) =~= v@);
    }
    out
}

} // verus!

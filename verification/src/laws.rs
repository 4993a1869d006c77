//! Accounting laws of the duration table.
//!
//! The central fact is conservation: redistribution moves minor time onto
//! regular entries without creating or losing minutes. The final durations of
//! the regular entries sum to the raw durations of the regular entries plus
//! the raw durations of every minor entry that has a regular neighbor; when
//! each minor entry has one, that is exactly the raw-duration sum of all
//! regular and minor entries.

use vstd::prelude::*;
use crate::durations::{
    durations_match,
    extra_upto,
    final_dur,
    next_regular,
    prev_regular,
    raw_dur,
    raw_sum,
    reg_indices,
    share,
    to_next_amount,
    to_prev_amount,
    TaskDuration,
    lemma_prev_regular_props,
    lemma_next_regular_props,
    lemma_raw_dur_bounds,
    lemma_raw_sum_bounds,
};
use crate::entry::{Entry, valid_ledger};

verus! {

/// Sum of the final durations of the regular entries among the first `n`.
pub open spec fn reg_final_sum(s: Seq<Entry>, now: int, n: int) -> int
    decreases n,
{
    if n <= 0 {
        0
    } else {
        reg_final_sum(s, now, n - 1) + if s[n - 1].task_type is Regular {
            final_dur(s, now, n - 1)
        } else {
            0
        }
    }
}

/// Sum of the raw durations of the regular entries among the first `n`.
pub open spec fn reg_raw_sum(s: Seq<Entry>, now: int, n: int) -> int
    decreases n,
{
    if n <= 0 {
        0
    } else {
        reg_raw_sum(s, now, n - 1) + if s[n - 1].task_type is Regular {
            raw_dur(s, now, n - 1)
        } else {
            0
        }
    }
}

/// Sum of the raw durations of the regular and minor entries among the
/// first `n`.
pub open spec fn reg_minor_raw_sum(s: Seq<Entry>, now: int, n: int) -> int
    decreases n,
{
    if n <= 0 {
        0
    } else {
        reg_minor_raw_sum(s, now, n - 1) + if s[n - 1].task_type is Regular || s[n
            - 1].task_type is Minor {
            raw_dur(s, now, n - 1)
        } else {
            0
        }
    }
}

/// Sum of the raw durations of the minor entries among the first `n` that
/// have a regular neighbor on some side.
pub open spec fn minor_distributed_sum(s: Seq<Entry>, now: int, n: int) -> int
    decreases n,
{
    if n <= 0 {
        0
    } else {
        minor_distributed_sum(s, now, n - 1) + if s[n - 1].task_type is Minor && (prev_regular(
            s,
            n - 1,
        ) is Some || next_regular(s, n - 1) is Some) {
            raw_dur(s, now, n - 1)
        } else {
            0
        }
    }
}

/// Everything that entry `i` hands out to the first `m` entries.
pub open spec fn share_row_sum(s: Seq<Entry>, now: int, i: int, m: int) -> int
    decreases m,
{
    if m <= 0 {
        0
    } else {
        share_row_sum(s, now, i, m - 1) + share(s, now, i, m - 1)
    }
}

/// Everything that the first `ib` entries hand out to the first `m` entries.
pub open spec fn extra_col_sum(s: Seq<Entry>, now: int, m: int, ib: int) -> int
    decreases m,
{
    if m <= 0 {
        0
    } else {
        extra_col_sum(s, now, m - 1, ib) + extra_upto(s, now, m - 1, ib)
    }
}

/// What the preceding neighbor of entry `i` has received once the first `m`
/// entries were handed their shares.
pub open spec fn prev_share_upto(s: Seq<Entry>, now: int, i: int, m: int) -> int {
    match prev_regular(s, i) {
        Some(p) => if p < m {
            to_prev_amount(s, now, i)
        } else {
            0
        },
        None => 0,
    }
}

/// What the following neighbor of entry `i` has received once the first `m`
/// entries were handed their shares.
pub open spec fn next_share_upto(s: Seq<Entry>, now: int, i: int, m: int) -> int {
    match next_regular(s, i) {
        Some(q) => if q < m {
            to_next_amount(s, now, i)
        } else {
            0
        },
        None => 0,
    }
}

proof fn lemma_share_row_partial(s: Seq<Entry>, now: int, i: int, m: int)
    requires
        0 <= i < s.len(),
        0 <= m,
    ensures
        share_row_sum(s, now, i, m) == if s[i].task_type is Minor {
            prev_share_upto(s, now, i, m) + next_share_upto(s, now, i, m)
        } else {
            0
        },
    decreases m,
{
    lemma_prev_regular_props(s, i);
    lemma_next_regular_props(s, i);
    if m > 0 {
        lemma_share_row_partial(s, now, i, m - 1);
        if s[i].task_type is Minor {
            let pterm = if prev_regular(s, i) == Some(m - 1) {
                to_prev_amount(s, now, i)
            } else {
                0int
            };
            let nterm = if next_regular(s, i) == Some(m - 1) {
                to_next_amount(s, now, i)
            } else {
                0int
            };
            assert(share(s, now, i, m - 1) == pterm + nterm);
            assert(prev_share_upto(s, now, i, m) == prev_share_upto(s, now, i, m - 1) + pterm);
            assert(next_share_upto(s, now, i, m) == next_share_upto(s, now, i, m - 1) + nterm);
        } else {
            assert(share(s, now, i, m - 1) == 0);
        }
    }
}

/// A minor entry with a regular neighbor hands out exactly its raw duration;
/// every other entry hands out nothing.
proof fn lemma_share_row_total(s: Seq<Entry>, now: int, i: int)
    requires
        0 <= i < s.len(),
    ensures
        share_row_sum(s, now, i, s.len() as int) == if s[i].task_type is Minor && (prev_regular(
            s,
            i,
        ) is Some || next_regular(s, i) is Some) {
            raw_dur(s, now, i)
        } else {
            0
        },
{
    lemma_share_row_partial(s, now, i, s.len() as int);
    lemma_prev_regular_props(s, i);
    lemma_next_regular_props(s, i);
}

proof fn lemma_extra_col_zero(s: Seq<Entry>, now: int, m: int)
    requires
        0 <= m,
    ensures
        extra_col_sum(s, now, m, 0) == 0,
    decreases m,
{
    if m > 0 {
        lemma_extra_col_zero(s, now, m - 1);
    }
}

proof fn lemma_extra_col_step(s: Seq<Entry>, now: int, m: int, ib: int)
    requires
        0 <= m,
        0 <= ib,
    ensures
        extra_col_sum(s, now, m, ib + 1) == extra_col_sum(s, now, m, ib) + share_row_sum(
            s,
            now,
            ib,
            m,
        ),
    decreases m,
{
    if m > 0 {
        lemma_extra_col_step(s, now, m - 1, ib);
    }
}

proof fn lemma_extra_col_total(s: Seq<Entry>, now: int, ib: int)
    requires
        0 <= ib <= s.len(),
    ensures
        extra_col_sum(s, now, s.len() as int, ib) == minor_distributed_sum(s, now, ib),
    decreases ib,
{
    if ib == 0 {
        lemma_extra_col_zero(s, now, s.len() as int);
    } else {
        lemma_extra_col_total(s, now, ib - 1);
        lemma_extra_col_step(s, now, s.len() as int, ib - 1);
        lemma_share_row_total(s, now, ib - 1);
    }
}

/// Nothing is ever redistributed onto an entry that is not regular.
proof fn lemma_extra_zero_when_not_regular(s: Seq<Entry>, now: int, k: int, n: int)
    requires
        0 <= n,
        !(0 <= k < s.len() && s[k].task_type is Regular),
    ensures
        extra_upto(s, now, k, n) == 0,
    decreases n,
{
    if n > 0 {
        lemma_extra_zero_when_not_regular(s, now, k, n - 1);
        if 0 <= n - 1 < s.len() && s[n - 1].task_type is Minor {
            lemma_prev_regular_props(s, n - 1);
            lemma_next_regular_props(s, n - 1);
        }
    }
}

proof fn lemma_reg_final_decompose(s: Seq<Entry>, now: int, n: int)
    requires
        0 <= n <= s.len(),
    ensures
        reg_final_sum(s, now, n) == reg_raw_sum(s, now, n) + extra_col_sum(
            s,
            now,
            n,
            s.len() as int,
        ),
    decreases n,
{
    if n > 0 {
        lemma_reg_final_decompose(s, now, n - 1);
        if !(s[n - 1].task_type is Regular) {
            lemma_extra_zero_when_not_regular(s, now, n - 1, s.len() as int);
        }
    }
}

/// Conservation, general form: over the whole ledger, the final durations of
/// the regular entries sum to their own raw durations plus the raw durations
/// of the minor entries that have a regular neighbor. It holds of every
/// ledger and every `now`.
pub proof fn lemma_conservation_general(s: Seq<Entry>, now: int)
    ensures
        reg_final_sum(s, now, s.len() as int) == reg_raw_sum(s, now, s.len() as int)
            + minor_distributed_sum(s, now, s.len() as int),
{
    lemma_reg_final_decompose(s, now, s.len() as int);
    lemma_extra_col_total(s, now, s.len() as int);
}

/// Conservation: when every minor entry has a regular neighbor on some side,
/// the final durations of the regular entries sum to the raw durations of all
/// regular and minor entries. A ledger whose only entry is minor is left out:
/// there the minor entry's time is dropped, not conserved.
pub proof fn lemma_conservation(s: Seq<Entry>, now: int)
    requires
        forall|i: int|
            0 <= i < s.len() && (#[trigger] s[i]).task_type is Minor ==> prev_regular(s, i) is Some
                || next_regular(s, i) is Some,
    ensures
        reg_final_sum(s, now, s.len() as int) == reg_minor_raw_sum(s, now, s.len() as int),
{
    lemma_conservation_general(s, now);
    lemma_sums_agree(s, now, s.len() as int);
}

proof fn lemma_sums_agree(s: Seq<Entry>, now: int, n: int)
    requires
        0 <= n <= s.len(),
        forall|i: int|
            0 <= i < s.len() && (#[trigger] s[i]).task_type is Minor ==> prev_regular(s, i) is Some
                || next_regular(s, i) is Some,
    ensures
        reg_raw_sum(s, now, n) + minor_distributed_sum(s, now, n) == reg_minor_raw_sum(s, now, n),
    decreases n,
{
    if n > 0 {
        lemma_sums_agree(s, now, n - 1);
    }
}

/// Sum of the minutes of a duration table.
pub open spec fn minutes_sum(rows: Seq<TaskDuration>) -> int
    decreases rows.len(),
{
    if rows.len() == 0 {
        0
    } else {
        minutes_sum(rows.drop_last()) + rows.last().minutes
    }
}

/// Number of regular entries among the first `n`.
pub open spec fn reg_count(s: Seq<Entry>, n: int) -> int
    decreases n,
{
    if n <= 0 {
        0
    } else {
        reg_count(s, n - 1) + if s[n - 1].task_type is Regular {
            1int
        } else {
            0int
        }
    }
}

proof fn lemma_reg_count_len(s: Seq<Entry>, n: int)
    requires
        0 <= n <= s.len(),
    ensures
        reg_indices(s.take(n)).len() == reg_count(s, n),
        0 <= reg_count(s, n) <= n,
    decreases n,
{
    if n > 0 {
        lemma_reg_count_len(s, n - 1);
        assert(s.take(n).drop_last() =~= s.take(n - 1));
    }
}

proof fn lemma_reg_count_mono(s: Seq<Entry>, a: int, b: int)
    requires
        0 <= a <= b,
    ensures
        reg_count(s, a) <= reg_count(s, b),
    decreases b - a,
{
    if a < b {
        lemma_reg_count_mono(s, a, b - 1);
    }
}

/// The regular indices of a prefix are a prefix of the regular indices.
proof fn lemma_reg_indices_prefix(s: Seq<Entry>, n: int, m: int)
    requires
        0 <= n <= m <= s.len(),
    ensures
        reg_indices(s.take(m)).take(reg_count(s, n)) == reg_indices(s.take(n)),
    decreases m - n,
{
    lemma_reg_count_len(s, n);
    lemma_reg_count_len(s, m);
    if m == n {
        assert(reg_indices(s.take(n)).take(reg_count(s, n)) =~= reg_indices(s.take(n)));
    } else {
        lemma_reg_indices_prefix(s, n, m - 1);
        lemma_reg_count_len(s, m - 1);
        lemma_reg_count_mono(s, n, m - 1);
        assert(s.take(m).drop_last() =~= s.take(m - 1));
        if s[m - 1].task_type is Regular {
            assert(reg_indices(s.take(m)) == reg_indices(s.take(m - 1)).push(m - 1));
            assert(reg_indices(s.take(m)).take(reg_count(s, n)) =~= reg_indices(
                s.take(m - 1),
            ).take(reg_count(s, n)));
        }
    }
}

proof fn lemma_output_sum_helper(s: Seq<Entry>, now: int, out: Seq<TaskDuration>, n: int)
    requires
        durations_match(s, now, out),
        0 <= n <= s.len(),
    ensures
        minutes_sum(out.take(reg_count(s, n))) == reg_final_sum(s, now, n),
    decreases n,
{
    lemma_reg_count_len(s, s.len() as int);
    assert(s.take(s.len() as int) =~= s);
    lemma_reg_count_mono(s, n, s.len() as int);
    if n == 0 {
        assert(out.take(0) =~= Seq::<TaskDuration>::empty());
    } else {
        lemma_output_sum_helper(s, now, out, n - 1);
        lemma_reg_count_len(s, n - 1);
        lemma_reg_count_len(s, n);
        let c = reg_count(s, n - 1);
        if s[n - 1].task_type is Regular {
            lemma_reg_indices_prefix(s, n, s.len() as int);
            assert(s.take(n).drop_last() =~= s.take(n - 1));
            assert(reg_indices(s.take(n)) == reg_indices(s.take(n - 1)).push(n - 1));
            assert(reg_indices(s.take(n))[c] == n - 1);
            assert(reg_indices(s)[c] == reg_indices(s.take(s.len() as int)).take(
                reg_count(s, n),
            )[c]);
            assert(reg_indices(s)[c] == n - 1);
            assert(out[c].minutes == final_dur(s, now, n - 1));
            assert(out.take(c + 1).drop_last() =~= out.take(c));
            assert(out.take(c + 1).last() == out[c]);
        }
    }
}

/// The minutes of the duration table sum to the final durations of the
/// regular entries.
pub proof fn lemma_output_sum(s: Seq<Entry>, now: int, out: Seq<TaskDuration>)
    requires
        durations_match(s, now, out),
    ensures
        minutes_sum(out) == reg_final_sum(s, now, s.len() as int),
{
    lemma_output_sum_helper(s, now, out, s.len() as int);
    lemma_reg_count_len(s, s.len() as int);
    assert(s.take(s.len() as int) =~= s);
    assert(out.take(reg_count(s, s.len() as int)) =~= out);
}

proof fn lemma_partial_sums_bounds(s: Seq<Entry>, now: int, n: int)
    requires
        valid_ledger(s),
        0 <= now <= 1439,
        0 <= n <= s.len(),
    ensures
        0 <= reg_raw_sum(s, now, n) <= raw_sum(s, now, n),
        0 <= minor_distributed_sum(s, now, n) <= raw_sum(s, now, n),
        0 <= reg_minor_raw_sum(s, now, n) <= raw_sum(s, now, n),
    decreases n,
{
    if n > 0 {
        lemma_partial_sums_bounds(s, now, n - 1);
        lemma_raw_dur_bounds(s, now, n - 1);
    }
}

/// Conservation at the duration table itself: when every minor entry has a
/// regular neighbor on some side, the minutes of the computed table sum to
/// the raw durations of all regular and minor entries.
pub proof fn lemma_conservation_of_output(s: Seq<Entry>, now: int, out: Seq<TaskDuration>)
    requires
        durations_match(s, now, out),
        forall|i: int|
            0 <= i < s.len() && (#[trigger] s[i]).task_type is Minor ==> prev_regular(s, i) is Some
                || next_regular(s, i) is Some,
    ensures
        minutes_sum(out) == reg_minor_raw_sum(s, now, s.len() as int),
{
    lemma_output_sum(s, now, out);
    lemma_conservation(s, now);
}

/// Whatever the ledger, a day's accounted minutes fit comfortably in `u32`:
/// the duration table's minutes sum to at most two days' worth.
pub proof fn lemma_output_sum_bound(s: Seq<Entry>, now: int, out: Seq<TaskDuration>)
    requires
        valid_ledger(s),
        0 <= now <= 1439,
        durations_match(s, now, out),
    ensures
        0 <= minutes_sum(out) <= 5756,
{
    lemma_output_sum(s, now, out);
    lemma_conservation_general(s, now);
    lemma_partial_sums_bounds(s, now, s.len() as int);
    lemma_raw_sum_bounds(s, now, s.len() as int);
}

} // verus!

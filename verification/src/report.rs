//! Grouping the duration table into a read-only report: total minutes per
//! context, plus the chronological task list.

use vstd::prelude::*;
use crate::durations::{compute_durations, durations_match, TaskDuration};
use crate::entry::{Entry, valid_ledger};
use crate::laws::{lemma_output_sum_bound, minutes_sum};
use crate::time::SimpleTime;

verus! {

/// One context's total accounted minutes.
#[derive(Debug, Clone, PartialEq)]
pub struct ContextTotal {
    pub context: String,
    pub minutes: u32,
}

/// The read-only report: per-context totals in first-appearance order, and
/// the chronological task list.
#[derive(Debug, PartialEq)]
pub struct Report {
    pub contexts: Vec<ContextTotal>,
    pub tasks: Vec<TaskDuration>,
}

/// Total minutes of the rows whose context reads `c`.
pub open spec fn ctx_total(rows: Seq<TaskDuration>, c: Seq<char>) -> int
    decreases rows.len(),
{
    if rows.len() == 0 {
        0
    } else {
        ctx_total(rows.drop_last(), c) + if rows.last().context@ == c {
            rows.last().minutes as int
        } else {
            0
        }
    }
}

/// The distinct contexts of the rows, in first-appearance order.
pub open spec fn distinct_contexts(rows: Seq<TaskDuration>) -> Seq<Seq<char>>
    decreases rows.len(),
{
    if rows.len() == 0 {
        Seq::empty()
    } else {
        let p = distinct_contexts(rows.drop_last());
        if p.contains(rows.last().context@) {
            p
        } else {
            p.push(rows.last().context@)
        }
    }
}

/// `r` is the report of the duration table `rows`: the tasks are the rows
/// themselves, and the context list carries each distinct context once, in
/// first-appearance order, with the sum of its rows' minutes.
pub open spec fn report_matches(rows: Seq<TaskDuration>, r: Report) -> bool {
    &&& r.tasks@ == rows
    &&& r.contexts@.len() == distinct_contexts(rows).len()
    &&& forall|j: int|
        0 <= j < r.contexts@.len() ==> (#[trigger] r.contexts@[j]).context@ == distinct_contexts(
            rows,
        )[j] && r.contexts@[j].minutes == ctx_total(rows, distinct_contexts(rows)[j])
}

/// A context's total never exceeds the sum of all minutes, and no total is
/// negative.
proof fn lemma_ctx_total_bounds(rows: Seq<TaskDuration>, c: Seq<char>)
    ensures
        0 <= ctx_total(rows, c) <= minutes_sum(rows),
    decreases rows.len(),
{
    if rows.len() > 0 {
        lemma_ctx_total_bounds(rows.drop_last(), c);
    }
}

proof fn lemma_minutes_sum_take(rows: Seq<TaskDuration>, n: int)
    requires
        0 <= n <= rows.len(),
    ensures
        0 <= minutes_sum(rows.take(n)) <= minutes_sum(rows),
    decreases rows.len() - n,
{
    if n == rows.len() {
        assert(rows.take(n) =~= rows);
        lemma_minutes_sum_nonneg(rows);
    } else {
        lemma_minutes_sum_take(rows, n + 1);
        assert(rows.take(n + 1).drop_last() =~= rows.take(n));
        lemma_minutes_sum_nonneg(rows.take(n));
    }
}

/// A context that does not appear among the rows totals zero minutes.
proof fn lemma_ctx_total_absent(rows: Seq<TaskDuration>, c: Seq<char>)
    requires
        !distinct_contexts(rows).contains(c),
    ensures
        ctx_total(rows, c) == 0,
    decreases rows.len(),
{
    if rows.len() > 0 {
        let p = distinct_contexts(rows.drop_last());
        let x = rows.last().context@;
        if p.contains(x) {
            if x == c {
                let w = choose|w: int| 0 <= w < p.len() && p[w] == x;
                assert(distinct_contexts(rows)[w] == c);
                assert(false);
            }
            if p.contains(c) {
                let w = choose|w: int| 0 <= w < p.len() && p[w] == c;
                assert(distinct_contexts(rows)[w] == c);
                assert(false);
            }
        } else {
            assert(distinct_contexts(rows) == p.push(x));
            assert(distinct_contexts(rows)[p.len() as int] == x);
            if x == c {
                assert(distinct_contexts(rows).contains(c));
                assert(false);
            }
            if p.contains(c) {
                let w = choose|w: int| 0 <= w < p.len() && p[w] == c;
                assert(distinct_contexts(rows)[w] == c);
                assert(false);
            }
        }
        lemma_ctx_total_absent(rows.drop_last(), c);
    }
}

proof fn lemma_minutes_sum_nonneg(rows: Seq<TaskDuration>)
    ensures
        0 <= minutes_sum(rows),
    decreases rows.len(),
{
    if rows.len() > 0 {
        lemma_minutes_sum_nonneg(rows.drop_last());
    }
}

/// Sum of the totals of the given contexts.
pub open spec fn ctx_sums(rows: Seq<TaskDuration>, cs: Seq<Seq<char>>) -> int
    decreases cs.len(),
{
    if cs.len() == 0 {
        0
    } else {
        ctx_sums(rows, cs.drop_last()) + ctx_total(rows, cs.last())
    }
}

/// `m` once for each occurrence of `c` in `cs`.
spec fn occ_sum(cs: Seq<Seq<char>>, c: Seq<char>, m: int) -> int
    decreases cs.len(),
{
    if cs.len() == 0 {
        0
    } else {
        occ_sum(cs.drop_last(), c, m) + if cs.last() == c {
            m
        } else {
            0
        }
    }
}

proof fn lemma_ctx_sums_step(rows: Seq<TaskDuration>, cs: Seq<Seq<char>>)
    requires
        rows.len() > 0,
    ensures
        ctx_sums(rows, cs) == ctx_sums(rows.drop_last(), cs) + occ_sum(
            cs,
            rows.last().context@,
            rows.last().minutes as int,
        ),
    decreases cs.len(),
{
    if cs.len() > 0 {
        lemma_ctx_sums_step(rows, cs.drop_last());
    }
}

proof fn lemma_occ_sum_distinct(rows: Seq<TaskDuration>, c: Seq<char>, m: int)
    ensures
        occ_sum(distinct_contexts(rows), c, m) == if distinct_contexts(rows).contains(c) {
            m
        } else {
            0
        },
    decreases rows.len(),
{
    if rows.len() > 0 {
        lemma_occ_sum_distinct(rows.drop_last(), c, m);
        let p = distinct_contexts(rows.drop_last());
        let x = rows.last().context@;
        if !p.contains(x) {
            assert(distinct_contexts(rows) == p.push(x));
            assert(p.push(x).drop_last() =~= p);
            assert(p.push(x).last() == x);
            if p.push(x).contains(c) && c != x && !p.contains(c) {
                let w = choose|w: int| 0 <= w < p.push(x).len() && p.push(x)[w] == c;
                assert(p[w] == c);
                assert(false);
            }
            if p.contains(c) {
                let w = choose|w: int| 0 <= w < p.len() && p[w] == c;
                assert(p.push(x)[w] == c);
            }
            if c == x {
                assert(p.push(x)[p.len() as int] == c);
            }
        }
    }
}

/// Grouping loses no minutes: the totals of the distinct contexts sum to the
/// minutes of the whole duration table.
pub proof fn lemma_grouping_conserves_minutes(rows: Seq<TaskDuration>)
    ensures
        ctx_sums(rows, distinct_contexts(rows)) == minutes_sum(rows),
    decreases rows.len(),
{
    if rows.len() > 0 {
        let prev = rows.drop_last();
        let p = distinct_contexts(prev);
        let c = rows.last().context@;
        let m = rows.last().minutes as int;
        lemma_grouping_conserves_minutes(prev);
        lemma_ctx_sums_step(rows, distinct_contexts(rows));
        lemma_occ_sum_distinct(prev, c, m);
        if p.contains(c) {
            assert(distinct_contexts(rows) == p);
            lemma_occ_sum_distinct(rows, c, m);
            assert(occ_sum(p, c, m) == m);
        } else {
            assert(distinct_contexts(rows) == p.push(c));
            assert(p.push(c).drop_last() =~= p);
            assert(p.push(c).last() == c);
            assert(ctx_sums(prev, p.push(c)) == ctx_sums(prev, p) + ctx_total(prev, c));
            lemma_ctx_total_absent(prev, c);
            assert(occ_sum(p.push(c), c, m) == occ_sum(p, c, m) + m);
            lemma_ctx_sums_step(rows, p.push(c));
        }
    }
}

fn find_context(contexts: &Vec<ContextTotal>, c: &String) -> (r: Option<usize>)
    ensures
        match r {
            Some(j) => j < contexts@.len() && contexts@[j as int].context@ == c@,
            None => forall|j: int|
                0 <= j < contexts@.len() ==> (#[trigger] contexts@[j]).context@ != c@,
        },
{
    let n = contexts.len();
    let mut j: usize = 0;
    while j < n
        invariant
            j <= n == contexts@.len(),
            forall|k: int| 0 <= k < j ==> (#[trigger] contexts@[k]).context@ != c@,
        decreases n - j,
    {
        if contexts[j].context == *c {
            return Some(j);
        }
        j = j + 1;
    }
    None
}

/// Groups a duration table by context, summing minutes per context, and
/// keeps the flat chronological list.
pub fn summarize(rows: Vec<TaskDuration>) -> (r: Report)
    requires
        minutes_sum(rows@) <= u32::MAX,
    ensures
        report_matches(rows@, r),
{
    let ghost all = rows@;
    let n = rows.len();
    let mut contexts: Vec<ContextTotal> = Vec::new();
    let mut i: usize = 0;
    while i < n
        invariant
            i <= n == all.len(),
            rows@ == all,
            minutes_sum(all) <= u32::MAX,
            contexts@.len() == distinct_contexts(all.take(i as int)).len(),
            forall|j: int|
                0 <= j < contexts@.len() ==> (#[trigger] contexts@[j]).context@
                    == distinct_contexts(all.take(i as int))[j] && contexts@[j].minutes
                    == ctx_total(all.take(i as int), contexts@[j].context@),
            forall|j: int, k: int|
                0 <= j < k < contexts@.len() ==> (#[trigger] contexts@[j]).context@ != (
                #[trigger] contexts@[k]).context@,
        decreases n - i,
    {
        let ghost pre = all.take(i as int);
        let ghost post = all.take(i as int + 1);
        proof {
            assert(post.drop_last() =~= pre);
            assert(post.last() == all[i as int]);
            lemma_minutes_sum_take(all, i as int + 1);
        }
        let found = find_context(&contexts, &rows[i].context);
        match found {
            Some(j) => {
                proof {
                    assert(distinct_contexts(pre).contains(all[i as int].context@));
                    assert(distinct_contexts(post) == distinct_contexts(pre));
                    lemma_ctx_total_bounds(post, contexts@[j as int].context@);
                }
                let added = rows[i].minutes;
                let ContextTotal { context, minutes } = contexts.remove(j);
                contexts.insert(j, ContextTotal { context, minutes: minutes + added });
                proof {
                    assert forall|k: int| 0 <= k < contexts@.len() implies (#[trigger] contexts@[k]).context@
                        == distinct_contexts(post)[k] && contexts@[k].minutes == ctx_total(
                        post,
                        contexts@[k].context@,
                    ) by {
                        if k != j {
                            assert(contexts@[k].context@ != all[i as int].context@);
                        }
                    }
                }
            },
            None => {
                let ghost cv = all[i as int].context@;
                let ghost oldctx = contexts@;
                proof {
                    if distinct_contexts(pre).contains(cv) {
                        let w = choose|w: int|
                            0 <= w < distinct_contexts(pre).len() && distinct_contexts(pre)[w]
                                == cv;
                        assert(contexts@[w].context@ == cv);
                        assert(false);
                    }
                    assert(distinct_contexts(post) == distinct_contexts(pre).push(cv));
                    lemma_ctx_total_absent(pre, cv);
                }
                let ct = ContextTotal { context: rows[i].context.clone(), minutes: rows[i].minutes };
                contexts.push(ct);
                proof {
                    assert forall|k: int| 0 <= k < contexts@.len() implies (#[trigger] contexts@[k]).context@
                        == distinct_contexts(post)[k] && contexts@[k].minutes == ctx_total(
                        post,
                        contexts@[k].context@,
                    ) by {
                        if k < contexts@.len() - 1 {
                            assert(contexts@[k] == oldctx[k]);
                            assert(oldctx[k].context@ != cv);
                            assert(ctx_total(post, oldctx[k].context@) == ctx_total(
                                pre,
                                oldctx[k].context@,
                            ));
                        } else {
                            assert(contexts@[k].context@ == cv);
                            assert(ctx_total(post, cv) == ctx_total(pre, cv) + all[i as int].minutes);
                        }
                    }
                }
            },
        }
        i = i + 1;
    }
    proof {
        assert(all.take(n as int) =~= all);
    }
    Report { contexts, tasks: rows }
}

/// Computes the duration table of a well-formed ledger at `now` and groups
/// it into the printable report.
pub fn print_entries(entries: &Vec<Entry>, now: SimpleTime) -> (r: Report)
    requires
        valid_ledger(entries@),
        now.valid(),
    ensures
        exists|rows: Seq<TaskDuration>|
            #[trigger] durations_match(entries@, now.spec_total(), rows) && report_matches(rows, r),
{
    let rows = compute_durations(entries, now);
    proof {
        lemma_output_sum_bound(entries@, now.spec_total(), rows@);
        assert(durations_match(entries@, now.spec_total(), rows@));
    }
    let ghost grows = rows@;
    let r = summarize(rows);
    proof {
        assert(durations_match(entries@, now.spec_total(), grows) && report_matches(grows, r));
    }
    r
}

/// The two reports read the same: equal context totals and equal task lines.
pub open spec fn report_views_equal(a: Report, b: Report) -> bool {
    &&& a.tasks@.len() == b.tasks@.len()
    &&& forall|j: int|
        0 <= j < a.tasks@.len() ==> (#[trigger] a.tasks@[j]).description@ == (
        #[trigger] b.tasks@[j]).description@ && a.tasks@[j].context@ == b.tasks@[j].context@
            && a.tasks@[j].minutes == b.tasks@[j].minutes
    &&& a.contexts@.len() == b.contexts@.len()
    &&& forall|j: int|
        0 <= j < a.contexts@.len() ==> (#[trigger] a.contexts@[j]).context@ == (
        #[trigger] b.contexts@[j]).context@ && a.contexts@[j].minutes == b.contexts@[j].minutes
}

/// Two duration tables that read the same line for line.
pub open spec fn rows_views_equal(r1: Seq<TaskDuration>, r2: Seq<TaskDuration>) -> bool {
    &&& r1.len() == r2.len()
    &&& forall|j: int|
        0 <= j < r1.len() ==> (#[trigger] r1[j]).description@ == (#[trigger] r2[j]).description@
            && r1[j].context@ == r2[j].context@ && r1[j].minutes == r2[j].minutes
}

proof fn lemma_report_spec_view_determined(r1: Seq<TaskDuration>, r2: Seq<TaskDuration>)
    requires
        rows_views_equal(r1, r2),
    ensures
        distinct_contexts(r1) == distinct_contexts(r2),
        forall|c: Seq<char>| ctx_total(r1, c) == #[trigger] ctx_total(r2, c),
    decreases r1.len(),
{
    if r1.len() > 0 {
        assert(r1.last() == r1[r1.len() - 1] && r2.last() == r2[r2.len() - 1]);
        assert(rows_views_equal(r1.drop_last(), r2.drop_last()));
        lemma_report_spec_view_determined(r1.drop_last(), r2.drop_last());
        assert(r1.last().context@ == r2.last().context@);
        assert(r1.last().minutes == r2.last().minutes);
        assert forall|c: Seq<char>| ctx_total(r1, c) == #[trigger] ctx_total(r2, c) by {
            assert(ctx_total(r1.drop_last(), c) == ctx_total(r2.drop_last(), c));
        }
    }
}

/// Reading twice without an intervening write yields identical reports: the
/// report is determined, line for line, by the ledger and the clock.
pub proof fn lemma_read_idempotent(
    s: Seq<Entry>,
    now: int,
    rows1: Seq<TaskDuration>,
    rows2: Seq<TaskDuration>,
    r1: Report,
    r2: Report,
)
    requires
        durations_match(s, now, rows1),
        durations_match(s, now, rows2),
        report_matches(rows1, r1),
        report_matches(rows2, r2),
    ensures
        report_views_equal(r1, r2),
{
    assert(rows_views_equal(rows1, rows2));
    lemma_report_spec_view_determined(rows1, rows2);
}

} // verus!

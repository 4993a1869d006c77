//! Stable sorting of a ledger by start time.
//!
//! The sort is specified by `sort_spec`, an insertion sort that places each
//! element after all earlier elements whose start time is at most its own:
//! entries with equal start times therefore keep their original order.

use vstd::prelude::*;
use crate::entry::{Entry, entry_time, sorted_by_time, times_valid};

verus! {

/// Inserts `e` into `s` after every element whose start time is at most the
/// start time of `e`.
pub open spec fn insort(s: Seq<Entry>, e: Entry) -> Seq<Entry>
    decreases s.len(),
{
    if s.len() == 0 {
        seq![e]
    } else if entry_time(e) >= entry_time(s.last()) {
        s.push(e)
    } else {
        insort(s.drop_last(), e).push(s.last())
    }
}

/// Stable insertion sort of the whole sequence, ascending by start time.
pub open spec fn sort_spec(s: Seq<Entry>) -> Seq<Entry>
    decreases s.len(),
{
    if s.len() == 0 {
        s
    } else {
        insort(sort_spec(s.drop_last()), s.last())
    }
}

proof fn lemma_insort_len(s: Seq<Entry>, e: Entry)
    ensures
        insort(s, e).len() == s.len() + 1,
    decreases s.len(),
{
    if s.len() > 0 && entry_time(e) < entry_time(s.last()) {
        lemma_insort_len(s.drop_last(), e);
    }
}

proof fn lemma_insort_multiset(s: Seq<Entry>, e: Entry)
    ensures
        insort(s, e).to_multiset() =~= s.to_multiset().insert(e),
    decreases s.len(),
{
    broadcast use vstd::seq_lib::group_to_multiset_ensures;

    if s.len() == 0 {
        assert(seq![e] =~= Seq::<Entry>::empty().push(e));
    } else if entry_time(e) >= entry_time(s.last()) {
    } else {
        lemma_insort_multiset(s.drop_last(), e);
        assert(s =~= s.drop_last().push(s.last()));
        assert(s.to_multiset() =~= s.drop_last().to_multiset().insert(s.last()));
    }
}

proof fn lemma_insort_le(s: Seq<Entry>, e: Entry, b: int)
    requires
        entry_time(e) <= b,
        forall|i: int| 0 <= i < s.len() ==> entry_time(#[trigger] s[i]) <= b,
    ensures
        forall|i: int| 0 <= i < insort(s, e).len() ==> entry_time(#[trigger] insort(s, e)[i]) <= b,
    decreases s.len(),
{
    if s.len() > 0 && entry_time(e) < entry_time(s.last()) {
        lemma_insort_le(s.drop_last(), e, b);
        let r = insort(s.drop_last(), e).push(s.last());
        assert forall|i: int| 0 <= i < r.len() implies entry_time(#[trigger] r[i]) <= b by {
            if i < r.len() - 1 {
                assert(r[i] == insort(s.drop_last(), e)[i]);
            } else {
                assert(r[i] == s[s.len() - 1]);
            }
        }
    }
}

proof fn lemma_insort_sorted(s: Seq<Entry>, e: Entry)
    requires
        sorted_by_time(s),
    ensures
        sorted_by_time(insort(s, e)),
    decreases s.len(),
{
    if s.len() == 0 {
    } else if entry_time(e) >= entry_time(s.last()) {
    } else {
        assert(sorted_by_time(s.drop_last()));
        lemma_insort_sorted(s.drop_last(), e);
        lemma_insort_len(s.drop_last(), e);
        lemma_insort_le(s.drop_last(), e, entry_time(s.last()));
    }
}

/// Where the backward scan of an insertion step stops is exactly where
/// `insort` places the new element.
proof fn lemma_insort_position(s: Seq<Entry>, e: Entry, j: int)
    requires
        sorted_by_time(s),
        0 <= j <= s.len(),
        forall|k: int| j <= k < s.len() ==> entry_time(#[trigger] s[k]) > entry_time(e),
        j > 0 ==> entry_time(s[j - 1]) <= entry_time(e),
    ensures
        insort(s, e) =~= s.subrange(0, j) + seq![e] + s.subrange(j, s.len() as int),
    decreases s.len(),
{
    if s.len() == 0 {
    } else if entry_time(e) >= entry_time(s.last()) {
        assert(j == s.len());
    } else {
        assert(j < s.len());
        lemma_insort_position(s.drop_last(), e, j);
    }
}

/// `sort_spec` sorts: same length and multiset, ascending by start time, and
/// valid times are preserved.
pub proof fn lemma_sort_spec_props(s: Seq<Entry>)
    ensures
        sort_spec(s).len() == s.len(),
        sort_spec(s).to_multiset() =~= s.to_multiset(),
        sorted_by_time(sort_spec(s)),
        times_valid(s) ==> times_valid(sort_spec(s)),
    decreases s.len(),
{
    broadcast use vstd::seq_lib::group_to_multiset_ensures;

    if s.len() == 0 {
    } else {
        lemma_sort_spec_props(s.drop_last());
        lemma_insort_len(sort_spec(s.drop_last()), s.last());
        lemma_insort_multiset(sort_spec(s.drop_last()), s.last());
        lemma_insort_sorted(sort_spec(s.drop_last()), s.last());
        assert(s =~= s.drop_last().push(s.last()));
        assert(s.to_multiset() =~= s.drop_last().to_multiset().insert(s.last()));
        if times_valid(s) {
            assert(times_valid(s.drop_last()));
            assert forall|i: int| 0 <= i < sort_spec(s).len() implies (#[trigger] sort_spec(
                s,
            )[i]).start_time.valid() by {
                let e = sort_spec(s)[i];
                assert(sort_spec(s).to_multiset().count(e) > 0);
                assert(s.contains(e));
                let k = choose|k: int| 0 <= k < s.len() && s[k] == e;
                assert(s[k].start_time.valid());
            }
        }
    }
}

/// Sorts the ledger in place, stably, ascending by start time.
pub fn sort_entries(v: &mut Vec<Entry>)
    requires
        times_valid(old(v)@),
    ensures
        final(v)@ == sort_spec(old(v)@),
        sorted_by_time(final(v)@),
        final(v)@.to_multiset() =~= old(v)@.to_multiset(),
        times_valid(final(v)@),
        final(v)@.len() == old(v)@.len(),
{
    let ghost input = v@;
    let n = v.len();
    let mut i: usize = 0;
    while i < n
        invariant
            i <= n,
            n == v@.len(),
            times_valid(input),
            input.len() == n,
            v@ =~= sort_spec(input.take(i as int)) + input.skip(i as int),
        decreases n - i,
    {
        proof {
            lemma_sort_spec_props(input.take(i as int));
            assert(times_valid(input.take(i as int)));
            assert(v@[i as int] == input[i as int]);
        }
        let t = v[i].start_time.total_minutes();
        let ghost prefix = sort_spec(input.take(i as int));
        let mut j: usize = i;
        while j > 0 && v[j - 1].start_time.total_minutes() > t
            invariant
                j <= i < n == v@.len(),
                times_valid(input),
                input.len() == n,
                v@ =~= prefix + input.skip(i as int),
                prefix == sort_spec(input.take(i as int)),
                prefix.len() == i,
                times_valid(prefix),
                t == entry_time(input[i as int]),
                forall|k: int| j <= k < i ==> entry_time(#[trigger] prefix[k]) > t,
            decreases j,
        {
            j = j - 1;
        }
        let e = v.remove(i);
        v.insert(j, e);
        proof {
            lemma_insort_position(prefix, e, j as int);
            assert(input.take(i as int + 1).drop_last() =~= input.take(i as int));
            assert(input.take(i as int + 1).last() == input[i as int]);
            assert(sort_spec(input.take(i as int + 1)) == insort(prefix, e));
            assert(v@ =~= sort_spec(input.take(i as int + 1)) + input.skip(i as int + 1));
        }
        i = i + 1;
    }
    proof {
        assert(input.take(n as int) =~= input);
        assert(input.skip(n as int) =~= Seq::<Entry>::empty());
        assert(v@ =~= sort_spec(input));
        lemma_sort_spec_props(input);
    }
}

} // verus!

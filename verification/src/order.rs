//! What it means for a sequence to be sorted, and to be a rearrangement of
//! another one.

use vstd::prelude::*;

verus! {

/// `s` is ascending on the positions `lo <= k < hi`.
pub open spec fn sorted_between(s: Seq<i32>, lo: int, hi: int) -> bool {
    forall|i: int, j: int| lo <= i <= j < hi ==> s[i] <= s[j]
}

/// The whole of `s` is ascending.
pub open spec fn sorted(s: Seq<i32>) -> bool {
    sorted_between(s, 0, s.len() as int)
}

/// `after` agrees with `before` at every position outside `lo <= k < hi`.
pub open spec fn same_outside(before: Seq<i32>, after: Seq<i32>, lo: int, hi: int) -> bool {
    &&& after.len() == before.len()
    &&& forall|k: int| 0 <= k < before.len() && !(lo <= k < hi) ==> after[k] == before[k]
}

/// The positions `lo <= k < hi` hold the same elements in `after` as in
/// `before`, each as often, in some order.
pub open spec fn same_elements_between(
    before: Seq<i32>,
    after: Seq<i32>,
    lo: int,
    hi: int,
) -> bool {
    after.subrange(lo, hi).to_multiset() == before.subrange(lo, hi).to_multiset()
}

/// `after` is `before` with the positions `lo <= k < hi` rearranged.
pub open spec fn rearranged_between(before: Seq<i32>, after: Seq<i32>, lo: int, hi: int) -> bool {
    &&& same_outside(before, after, lo, hi)
    &&& same_elements_between(before, after, lo, hi)
}

/// `after` is `before` with the positions `lo <= k < hi` put in ascending
/// order and every other position left alone.
pub open spec fn sorts_between(before: Seq<i32>, after: Seq<i32>, lo: int, hi: int) -> bool {
    &&& rearranged_between(before, after, lo, hi)
    &&& sorted_between(after, lo, hi)
}

/// `after` is `before` with the positions `low..=high` put in ascending
/// order. With `low >= high` the range holds at most one position, and
/// `after` is `before`.
pub open spec fn sorts_range(before: Seq<i32>, after: Seq<i32>, low: int, high: int) -> bool {
    if low < high {
        sorts_between(before, after, low, high + 1)
    } else {
        after == before
    }
}

/// `after` is the ascending rearrangement of `before`.
pub open spec fn is_sort_of(after: Seq<i32>, before: Seq<i32>) -> bool {
    &&& sorted(after)
    &&& after.to_multiset() == before.to_multiset()
}

/// `s` with the elements at `i` and `j` exchanged.
pub open spec fn swapped(s: Seq<i32>, i: int, j: int) -> Seq<i32> {
    s.update(i, s[j]).update(j, s[i])
}

/// Exchanging two positions of a range leaves the range's elements the same.
pub proof fn lemma_swap_between(s: Seq<i32>, lo: int, hi: int, i: int, j: int)
    requires
        0 <= lo <= i < hi <= s.len(),
        lo <= j < hi,
    ensures
        rearranged_between(s, swapped(s, i, j), lo, hi),
{
    let r = s.subrange(lo, hi);
    let mid = r.update(i - lo, r[j - lo]);
    assert(swapped(s, i, j).subrange(lo, hi) =~= mid.update(j - lo, r[i - lo]));
    vstd::seq_lib::to_multiset_update(r, i - lo, r[j - lo]);
    vstd::seq_lib::to_multiset_update(mid, j - lo, r[i - lo]);
    vstd::seq_lib::to_multiset_contains(r, r[i - lo]);
    assert(r.contains(r[i - lo]));
    assert(mid.update(j - lo, r[i - lo]).to_multiset() =~= r.to_multiset());
}

/// Every element of a rearranged range was somewhere in that range before.
pub proof fn lemma_element_comes_from(
    before: Seq<i32>,
    after: Seq<i32>,
    lo: int,
    hi: int,
    k: int,
) -> (k0: int)
    requires
        0 <= lo <= k < hi <= before.len(),
        after.len() == before.len(),
        same_elements_between(before, after, lo, hi),
    ensures
        lo <= k0 < hi,
        before[k0] == after[k],
{
    let b = before.subrange(lo, hi);
    let a = after.subrange(lo, hi);
    assert(a[k - lo] == after[k]);
    assert(a.contains(after[k]));
    vstd::seq_lib::to_multiset_contains(a, after[k]);
    vstd::seq_lib::to_multiset_contains(b, after[k]);
    let w = choose|w: int| 0 <= w < b.len() && b[w] == after[k];
    lo + w
}

/// A rearrangement of a range is a rearrangement of every range around it.
pub proof fn lemma_rearranged_widen(
    before: Seq<i32>,
    after: Seq<i32>,
    lo: int,
    hi: int,
    wide_lo: int,
    wide_hi: int,
)
    requires
        0 <= wide_lo <= lo <= hi <= wide_hi <= before.len(),
        rearranged_between(before, after, lo, hi),
    ensures
        rearranged_between(before, after, wide_lo, wide_hi),
{
    let head = before.subrange(wide_lo, lo);
    let tail = before.subrange(hi, wide_hi);
    let b = before.subrange(lo, hi);
    let a = after.subrange(lo, hi);
    assert(after.subrange(wide_lo, lo) =~= head);
    assert(after.subrange(hi, wide_hi) =~= tail);
    assert(before.subrange(wide_lo, wide_hi) =~= head + b + tail);
    assert(after.subrange(wide_lo, wide_hi) =~= head + a + tail);
    vstd::seq_lib::lemma_multiset_commutative(head, b);
    vstd::seq_lib::lemma_multiset_commutative(head + b, tail);
    vstd::seq_lib::lemma_multiset_commutative(head, a);
    vstd::seq_lib::lemma_multiset_commutative(head + a, tail);
}

/// A rearrangement of a range holds the same elements as the whole did.
pub proof fn lemma_rearranged_whole(before: Seq<i32>, after: Seq<i32>, lo: int, hi: int)
    requires
        0 <= lo <= hi <= before.len(),
        rearranged_between(before, after, lo, hi),
    ensures
        after.to_multiset() == before.to_multiset(),
{
    lemma_rearranged_widen(before, after, lo, hi, 0, before.len() as int);
    assert(before.subrange(0, before.len() as int) =~= before);
    assert(after.subrange(0, after.len() as int) =~= after);
}

/// Sorting the whole of a sequence as a range gives its ascending
/// rearrangement.
pub proof fn lemma_whole_range_sorted(before: Seq<i32>, after: Seq<i32>)
    requires
        sorts_range(before, after, 0, before.len() - 1),
    ensures
        is_sort_of(after, before),
        after.len() == before.len(),
{
    if before.len() > 1 {
        lemma_rearranged_whole(before, after, 0, before.len() as int);
    }
}

/// A sequence has one ascending rearrangement.
pub proof fn lemma_sort_unique(input: Seq<i32>, x: Seq<i32>, y: Seq<i32>)
    requires
        is_sort_of(x, input),
        is_sort_of(y, input),
    ensures
        x == y,
{
    let leq = |a: i32, b: i32| a <= b;
    assert(vstd::relations::total_ordering(leq));
    assert(vstd::relations::sorted_by(x, leq));
    assert(vstd::relations::sorted_by(y, leq));
    vstd::seq_lib::lemma_sorted_unique(x, y, leq);
}

/// Sorting a sequence that is ascending already gives that sequence back.
pub proof fn lemma_sorted_stays(input: Seq<i32>, output: Seq<i32>)
    requires
        sorted(input),
        is_sort_of(output, input),
    ensures
        output == input,
{
    lemma_sort_unique(input, input, output);
}

} // verus!

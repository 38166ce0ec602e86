//! The Lomuto partition of a range around its last element.

use vstd::prelude::*;
use crate::order::{
    lemma_element_comes_from, lemma_rearranged_widen, lemma_swap_between, rearranged_between,
    sorted_between, sorts_between, swapped,
};

verus! {

/// The scan of the Lomuto scheme, from position `j` on: `i` is the boundary,
/// `high` the pivot's position. Gives the sequence and the boundary at the
/// end of the scan.
pub open spec fn scan(s: Seq<i32>, pivot: i32, i: int, j: int, high: int) -> (Seq<i32>, int)
    decreases high - j,
{
    if j >= high {
        (s, i)
    } else if s[j] < pivot {
        scan(swapped(s, i, j), pivot, i + 1, j + 1, high)
    } else {
        scan(s, pivot, i, j + 1, high)
    }
}

/// The sequence and the split index that partitioning `low..=high` of `s`
/// gives: the scan from `low`, then the pivot exchanged into the boundary.
pub open spec fn lomuto(s: Seq<i32>, low: int, high: int) -> (Seq<i32>, int) {
    let (t, i) = scan(s, s[high], low, low, high);
    (swapped(t, i, high), i)
}

/// Position `p` of `low..=high` splits the range: everything before it is
/// smaller than the element at `p`, nothing after it is.
pub open spec fn split_around(s: Seq<i32>, low: int, p: int, high: int) -> bool {
    &&& low <= p <= high
    &&& forall|k: int| low <= k < p ==> s[k] < s[p]
    &&& forall|k: int| p < k <= high ==> s[k] >= s[p]
}

/// The scan keeps what holds before it: from any state in which the
/// positions before the boundary hold smaller elements than the pivot and
/// those from the boundary up to `j` hold none, it ends in such a state with
/// `j` at `high`, and has only rearranged the range.
pub proof fn lemma_scan_splits(s: Seq<i32>, pivot: i32, low: int, i: int, j: int, high: int)
    requires
        0 <= low <= i <= j <= high < s.len(),
        s[high] == pivot,
        forall|k: int| low <= k < i ==> s[k] < pivot,
        forall|k: int| i <= k < j ==> s[k] >= pivot,
    ensures
        ({
            let (t, b) = scan(s, pivot, i, j, high);
            &&& i <= b <= high
            &&& t[high] == pivot
            &&& forall|k: int| low <= k < b ==> t[k] < pivot
            &&& forall|k: int| b <= k < high ==> t[k] >= pivot
            &&& rearranged_between(s, t, low, high + 1)
        }),
    decreases high - j,
{
    if j < high {
        if s[j] < pivot {
            lemma_swap_between(s, low, high + 1, i, j);
            lemma_scan_splits(swapped(s, i, j), pivot, low, i + 1, j + 1, high);
        } else {
            lemma_scan_splits(s, pivot, low, i, j + 1, high);
        }
    }
}

/// Partitioning splits the range around the pivot's resting place, puts the
/// element that was at `high` there, and only rearranges the range.
pub proof fn lemma_lomuto_splits(s: Seq<i32>, low: int, high: int)
    requires
        0 <= low <= high < s.len(),
    ensures
        ({
            let (t, p) = lomuto(s, low, high);
            &&& split_around(t, low, p, high)
            &&& t[p] == s[high]
            &&& rearranged_between(s, t, low, high + 1)
        }),
{
    lemma_scan_splits(s, s[high], low, low, low, high);
    let (t, i) = scan(s, s[high], low, low, high);
    lemma_swap_between(t, low, high + 1, i, high);
}

/// Partitions `low..=high` of `a` in place around the element at `high` and
/// returns the position where that element comes to rest.
pub fn partition(a: &mut Vec<i32>, low: usize, high: usize) -> (p: usize)
    requires
        low <= high < old(a).len(),
    ensures
        (final(a)@, p as int) == lomuto(old(a)@, low as int, high as int),
        final(a)[p as int] == old(a)[high as int],
        split_around(final(a)@, low as int, p as int, high as int),
        rearranged_between(old(a)@, final(a)@, low as int, high + 1),
{
    let pivot: i32 = a[high];
    let mut i: usize = low;
    let mut j: usize = low;
    while j < high
        invariant
            low <= i <= j <= high < a.len(),
            scan(a@, pivot, i as int, j as int, high as int) == scan(
                old(a)@,
                pivot,
                low as int,
                low as int,
                high as int,
            ),
        decreases high - j,
    {
        if a[j] < pivot {
            let t: i32 = a[i];
            a[i] = a[j];
            a[j] = t;
            i += 1;
        }
        j += 1;
    }
    let t: i32 = a[i];
    a[i] = a[high];
    a[high] = t;
    proof {
        lemma_lomuto_splits(old(a)@, low as int, high as int);
    }
    i
}

/// A range that was split at `p`, and whose two sides were then sorted one
/// after the other, is sorted as a whole.
pub proof fn lemma_sorted_sides(
    start: Seq<i32>,
    parted: Seq<i32>,
    left_done: Seq<i32>,
    both_done: Seq<i32>,
    low: int,
    p: int,
    high: int,
)
    requires
        0 <= low <= high < start.len(),
        rearranged_between(start, parted, low, high + 1),
        split_around(parted, low, p, high),
        sorts_between(parted, left_done, low, p),
        sorts_between(left_done, both_done, p + 1, high + 1),
    ensures
        sorts_between(start, both_done, low, high + 1),
{
    lemma_rearranged_widen(parted, left_done, low, p, low, high + 1);
    lemma_rearranged_widen(left_done, both_done, p + 1, high + 1, low, high + 1);
    assert forall|k: int| low <= k < p implies both_done[k] < parted[p] by {
        let k0 = lemma_element_comes_from(parted, left_done, low, p, k);
    }
    assert forall|k: int| p < k <= high implies both_done[k] >= parted[p] by {
        let k0 = lemma_element_comes_from(left_done, both_done, p + 1, high + 1, k);
    }
    assert(both_done[p] == parted[p]);
    assert forall|i: int, j: int| low <= i <= j < high + 1 implies both_done[i] <= both_done[j] by {
        if j < p {
            assert(both_done[i] == left_done[i] && both_done[j] == left_done[j]);
        } else if i > p {
        } else {
        }
    }
}

} // verus!

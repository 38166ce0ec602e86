//! The sequential engine: partition, then sort each side in turn.

use vstd::prelude::*;
use crate::order::{is_sort_of, lemma_sorted_stays, lemma_whole_range_sorted, sorted, sorts_range};
use crate::partition::{lemma_sorted_sides, partition};

verus! {

/// Sorts the positions `low..=high` of `a` in place. A range with
/// `low >= high` holds at most one element and is left as it is, whatever
/// its bounds.
pub fn quick_sort_rec(a: &mut Vec<i32>, low: usize, high: usize)
    requires
        low < high ==> high < old(a).len(),
    ensures
        sorts_range(old(a)@, final(a)@, low as int, high as int),
    decreases
        (if low < high {
            high - low
        } else {
            0
        }),
{
    if low < high {
        let p: usize = partition(a, low, high);
        let ghost parted = a@;
        if low < p {
            quick_sort_rec(a, low, p - 1);
        }
        let ghost left_done = a@;
        quick_sort_rec(a, p + 1, high);
        proof {
            lemma_sorted_sides(old(a)@, parted, left_done, a@, low as int, p as int, high as int);
        }
    }
}

/// Sorts `a` ascending in place.
pub fn quick_sort(a: &mut Vec<i32>)
    ensures
        is_sort_of(final(a)@, old(a)@),
        final(a).len() == old(a).len(),
        sorted(old(a)@) ==> final(a)@ == old(a)@,
{
    let n: usize = a.len();
    if n > 0 {
        quick_sort_rec(a, 0, n - 1);
    }
    proof {
        lemma_whole_range_sorted(old(a)@, a@);
        if sorted(old(a)@) {
            lemma_sorted_stays(old(a)@, a@);
        }
    }
}

} // verus!

//! The fork-join engine: every split hands its two sides to two tasks, each
//! on a copy of the sequence, and copies their sides back once both are done.
//!
//! The steps are functions of their own: [`fork`] partitions and makes the
//! two tasks, [`Task::run`] finishes one, [`join`] takes what the two tasks
//! handed back. A caller that has threads runs the two tasks of a fork on
//! two of them. [`quick_sort_rec_par`] runs them in turn on its own.

use vstd::prelude::*;
use crate::order::{
    is_sort_of, lemma_sort_unique, lemma_sorted_stays, lemma_whole_range_sorted, sorted,
    sorts_between, sorts_range,
};
use crate::partition::{lemma_lomuto_splits, lemma_sorted_sides, lomuto, partition};
use crate::sequential::quick_sort_rec;

verus! {

/// Why a sort by forked tasks gave no result.
#[derive(Clone, Copy, Debug, PartialEq, Eq, Structural)]
pub enum SortError {
    /// The task for the side below the pivot handed nothing back.
    LeftTaskFailed,
    /// The task for the side above the pivot handed nothing back.
    RightTaskFailed,
}

/// One side of a split: a copy of the sequence, the range `low..=high` of it
/// that is to be sorted, and the depth budget that is left for it.
#[derive(Debug)]
pub struct Task {
    pub data: Vec<i32>,
    pub low: usize,
    pub high: usize,
    pub depth: usize,
}

/// A split: where the pivot came to rest, and the tasks for the two sides.
#[derive(Debug)]
pub struct Fork {
    pub pivot: usize,
    pub left: Task,
    pub right: Task,
}

/// What a [`Task`] holds, as plain values.
pub struct TaskView {
    pub data: Seq<i32>,
    pub low: int,
    pub high: int,
    pub depth: int,
}

/// What a [`Fork`] holds, as plain values.
pub struct ForkView {
    pub pivot: int,
    pub left: TaskView,
    pub right: TaskView,
}

impl TaskView {
    /// Position `k` lies in the task's range.
    pub open spec fn covers(self, k: int) -> bool {
        self.low <= k <= self.high
    }

    /// The range is one that can be sorted: if it holds more than one
    /// position it lies inside the copy.
    pub open spec fn wf(self) -> bool {
        self.low < self.high ==> 0 <= self.low && self.high < self.data.len()
    }

    /// `out` is what the finished task hands back: its copy with its range
    /// sorted.
    pub open spec fn done_with(self, out: Seq<i32>) -> bool {
        sorts_range(self.data, out, self.low, self.high)
    }
}

impl View for Task {
    type V = TaskView;

    open spec fn view(&self) -> TaskView {
        TaskView {
            data: self.data@,
            low: self.low as int,
            high: self.high as int,
            depth: self.depth as int,
        }
    }
}

impl View for Fork {
    type V = ForkView;

    open spec fn view(&self) -> ForkView {
        ForkView { pivot: self.pivot as int, left: self.left@, right: self.right@ }
    }
}

/// The depth budget to start from on a machine with `cpus` execution units:
/// one less than half of them, and never below zero.
pub open spec fn depth_for(cpus: int) -> int {
    if cpus / 2 >= 1 {
        cpus / 2 - 1
    } else {
        0
    }
}

/// The depth budget that a split with budget `depth` gives to its tasks.
pub open spec fn child_depth(depth: int) -> int {
    if depth > 0 {
        depth - 1
    } else {
        0
    }
}

/// The depth budget of the tasks that lie `levels` splits below a split with
/// budget `depth`.
pub open spec fn budget_below(depth: int, levels: nat) -> int
    decreases levels,
{
    if levels == 0 {
        depth
    } else {
        child_depth(budget_below(depth, (levels - 1) as nat))
    }
}

/// The bounds of the side below the pivot of a range that starts at `low`:
/// `low..=pivot - 1`. With the pivot at `low` the side is empty, and since
/// no bound lies below 0 it is written as the empty range `low + 1..=low`.
pub open spec fn left_side(low: int, pivot: int) -> (int, int) {
    if pivot > low {
        (low, pivot - 1)
    } else {
        (low + 1, low)
    }
}

/// `own` with the positions `low <= k < pivot` taken from `left` and the
/// positions `pivot < k <= high` taken from `right`.
pub open spec fn merged(
    own: Seq<i32>,
    left: Seq<i32>,
    right: Seq<i32>,
    low: int,
    pivot: int,
    high: int,
) -> Seq<i32> {
    Seq::new(
        own.len(),
        |k: int|
            if low <= k < pivot {
                left[k]
            } else if pivot < k <= high {
                right[k]
            } else {
                own[k]
            },
    )
}

/// The split of `low..=high` of `s` with budget `depth`: the sequence that
/// partitioning leaves, and the fork, whose two tasks each hold that
/// sequence, one side of the pivot, and the budget that is left.
pub open spec fn split(s: Seq<i32>, low: int, high: int, depth: int) -> (Seq<i32>, ForkView) {
    let (after, pivot) = lomuto(s, low, high);
    (
        after,
        ForkView {
            pivot,
            left: TaskView {
                data: after,
                low: left_side(low, pivot).0,
                high: left_side(low, pivot).1,
                depth: child_depth(depth),
            },
            right: TaskView { data: after, low: pivot + 1, high, depth: child_depth(depth) },
        },
    )
}

impl Task {
    /// Whether the task finishes its range with the sequential engine: it
    /// does once its budget is down to 1.
    pub fn runs_sequentially(&self) -> (b: bool)
        ensures
            b == (self.depth <= 1),
    {
        self.depth <= 1
    }

    /// Finishes the task and hands back its copy, with the task's range
    /// sorted: by the sequential engine once the budget is down to 1, and
    /// by [`quick_sort_rec_par`] with the task's budget before that.
    pub fn run(self) -> (out: Vec<i32>)
        requires
            self@.wf(),
        ensures
            self@.done_with(out@),
        decreases
            (if self.depth > 1 {
                2 * self.depth + 2
            } else {
                0
            }),
    {
        let sequential: bool = self.runs_sequentially();
        let Task { data, low, high, depth } = self;
        let mut data = data;
        if sequential {
            quick_sort_rec(&mut data, low, high);
        } else {
            quick_sort_rec_par(&mut data, low, high, depth);
        }
        data
    }
}

/// The depth budget to start from, given the number of execution units that
/// the machine reports.
pub fn initial_depth(cpus: usize) -> (depth: usize)
    ensures
        depth == depth_for(cpus as int),
        cpus <= 3 ==> depth == 0,
{
    let half: usize = cpus / 2;
    if half >= 1 {
        half - 1
    } else {
        0
    }
}

/// Splits `low..=high` of `a`: partitions the range in place and makes the
/// tasks for its two sides, each with a copy of the partitioned sequence.
/// A range with `low >= high` is not split.
pub fn fork(a: &mut Vec<i32>, low: usize, high: usize, depth: usize) -> (f: Option<Fork>)
    requires
        low < high ==> high < old(a).len(),
    ensures
        low >= high ==> f is None && final(a)@ == old(a)@,
        low < high ==> f is Some && (final(a)@, f->Some_0@) == split(
            old(a)@,
            low as int,
            high as int,
            depth as int,
        ),
        f matches Some(fork) ==> low <= fork.pivot <= high && final(a).len() == old(a).len(),
        f matches Some(fork) ==> fork.left@.wf() && fork.right@.wf(),
{
    if low < high {
        let pivot: usize = partition(a, low, high);
        let (left_low, left_high): (usize, usize) = if pivot > low {
            (low, pivot - 1)
        } else {
            (low + 1, low)
        };
        let budget: usize = if depth > 0 {
            depth - 1
        } else {
            0
        };
        let left = Task { data: a.clone(), low: left_low, high: left_high, depth: budget };
        let right = Task { data: a.clone(), low: pivot + 1, high, depth: budget };
        Some(Fork { pivot, left, right })
    } else {
        None
    }
}

/// Copies the side below the pivot from `left` and the side above it from
/// `right` into `a`.
pub fn merge(
    a: &mut Vec<i32>,
    low: usize,
    pivot: usize,
    high: usize,
    left: &Vec<i32>,
    right: &Vec<i32>,
)
    requires
        low <= pivot <= high < old(a).len(),
        left.len() == old(a).len(),
        right.len() == old(a).len(),
    ensures
        final(a)@ == merged(old(a)@, left@, right@, low as int, pivot as int, high as int),
{
    for i in low..pivot
        invariant
            low <= pivot <= high < a.len(),
            a.len() == old(a).len(),
            left.len() == a.len(),
            forall|k: int| low <= k < i ==> a[k] == left[k],
            forall|k: int| 0 <= k < a.len() && !(low <= k < i) ==> a[k] == old(a)[k],
    {
        a[i] = left[i];
    }
    for i in (pivot + 1)..(high + 1)
        invariant
            low <= pivot <= high < a.len(),
            a.len() == old(a).len(),
            right.len() == a.len(),
            forall|k: int| low <= k < pivot ==> a[k] == left[k],
            forall|k: int| pivot < k < i ==> a[k] == right[k],
            forall|k: int|
                0 <= k < a.len() && !(low <= k < pivot) && !(pivot < k < i) ==> a[k] == old(a)[k],
    {
        a[i] = right[i];
    }
}

/// Takes what the two tasks of a fork handed back, `None` standing for a
/// task that failed. If both are there their sides are copied into `a`. If
/// one is missing `a` stays as it is and the failure is reported, that of
/// the left task first.
pub fn join(
    a: &mut Vec<i32>,
    low: usize,
    pivot: usize,
    high: usize,
    left: Option<Vec<i32>>,
    right: Option<Vec<i32>>,
) -> (r: Result<(), SortError>)
    requires
        low <= pivot <= high < old(a).len(),
        left matches Some(l) ==> l.len() == old(a).len(),
        right matches Some(r) ==> r.len() == old(a).len(),
    ensures
        r is Ok <==> left is Some && right is Some,
        left is None ==> r == Err::<(), SortError>(SortError::LeftTaskFailed),
        left is Some && right is None ==> r == Err::<(), SortError>(SortError::RightTaskFailed),
        r is Ok ==> final(a)@ == merged(
            old(a)@,
            left->Some_0@,
            right->Some_0@,
            low as int,
            pivot as int,
            high as int,
        ),
        r is Err ==> final(a)@ == old(a)@,
{
    match left {
        None => Err(SortError::LeftTaskFailed),
        Some(l) => match right {
            None => Err(SortError::RightTaskFailed),
            Some(r) => {
                merge(a, low, pivot, high, &l, &r);
                Ok(())
            },
        },
    }
}

/// The two tasks of a split share the range between them: the left task has
/// the positions below the pivot, the right task those above it, and the
/// pivot's own position belongs to neither. Both hold the partitioned
/// sequence, and a range of it that can be sorted.
pub proof fn lemma_split_sides(s: Seq<i32>, low: int, high: int, depth: int)
    requires
        0 <= low < high < s.len(),
    ensures
        ({
            let (after, f) = split(s, low, high, depth);
            &&& low <= f.pivot <= high
            &&& forall|k: int| f.left.covers(k) <==> low <= k < f.pivot
            &&& forall|k: int| f.right.covers(k) <==> f.pivot < k <= high
            &&& f.left.data == after && f.right.data == after
            &&& f.left.wf() && f.right.wf()
            &&& after.len() == s.len()
        }),
{
    lemma_lomuto_splits(s, low, high);
}

/// The budget runs out: each split takes one from it until none is left. So
/// the tasks of the first split, if the budget was 2 or less, and all tasks
/// from `depth - 1` splits down, run sequentially and fork no further.
pub proof fn lemma_budget_runs_out(depth: int, levels: nat)
    requires
        depth >= 0,
    ensures
        budget_below(depth, levels) == if depth >= levels {
            depth - levels
        } else {
            0
        },
        levels >= 1 && levels >= depth - 1 ==> budget_below(depth, levels) <= 1,
    decreases levels,
{
    if levels > 0 {
        lemma_budget_runs_out(depth, (levels - 1) as nat);
    }
}

/// Fork, run, join: when the two tasks of a split are done, copying their
/// sides back gives the range sorted, whatever else the tasks handed back.
pub proof fn lemma_join_sorts(
    s: Seq<i32>,
    low: int,
    high: int,
    depth: int,
    left_out: Seq<i32>,
    right_out: Seq<i32>,
)
    requires
        0 <= low < high < s.len(),
        split(s, low, high, depth).1.left.done_with(left_out),
        split(s, low, high, depth).1.right.done_with(right_out),
    ensures
        ({
            let (parted, f) = split(s, low, high, depth);
            sorts_range(s, merged(parted, left_out, right_out, low, f.pivot, high), low, high)
        }),
{
    let (parted, f) = split(s, low, high, depth);
    let pivot = f.pivot;
    let m = merged(parted, left_out, right_out, low, pivot, high);
    lemma_lomuto_splits(s, low, high);
    assert(sorts_between(parted, left_out, low, pivot)) by {
        if low < pivot - 1 {
        } else {
            assert(parted.subrange(low, pivot) =~= left_out.subrange(low, pivot));
        }
    }
    assert(sorts_between(left_out, m, pivot + 1, high + 1)) by {
        assert(m.subrange(pivot + 1, high + 1) =~= right_out.subrange(pivot + 1, high + 1));
        assert(left_out.subrange(pivot + 1, high + 1) =~= parted.subrange(pivot + 1, high + 1));
    }
    lemma_sorted_sides(s, parted, left_out, m, low, pivot, high);
}

/// Sorts the positions `low..=high` of `a` in place by forking: the range is
/// split, each side is sorted by a task on a copy of its own, with one less
/// of the depth budget, and the sides are copied back. The two tasks run one
/// after the other.
pub fn quick_sort_rec_par(a: &mut Vec<i32>, low: usize, high: usize, depth: usize)
    requires
        low < high ==> high < old(a).len(),
    ensures
        sorts_range(old(a)@, final(a)@, low as int, high as int),
    decreases 2 * depth + 1,
{
    match fork(a, low, high, depth) {
        None => {},
        Some(Fork { pivot, left, right }) => {
            let left_out = left.run();
            let right_out = right.run();
            merge(a, low, pivot, high, &left_out, &right_out);
            proof {
                lemma_join_sorts(
                    old(a)@,
                    low as int,
                    high as int,
                    depth as int,
                    left_out@,
                    right_out@,
                );
            }
        },
    }
}

/// Sorts `a` ascending in place with the fork-join engine, with the depth
/// budget of a machine that reports `cpus` execution units.
pub fn quick_sort_par_with(a: &mut Vec<i32>, cpus: usize)
    ensures
        is_sort_of(final(a)@, old(a)@),
        final(a).len() == old(a).len(),
        sorted(old(a)@) ==> final(a)@ == old(a)@,
{
    let n: usize = a.len();
    if n > 0 {
        quick_sort_rec_par(a, 0, n - 1, initial_depth(cpus));
    }
    proof {
        lemma_whole_range_sorted(old(a)@, a@);
        if sorted(old(a)@) {
            lemma_sorted_stays(old(a)@, a@);
        }
    }
}

/// `num_cpus::get`: the number of logical CPUs that this process may use,
/// which depends on the machine and on the moment. The crate documents that
/// it is at least 1, and nothing else is claimed of it.
#[verifier::external_body]
fn available_cpus() -> (cpus: usize)
    ensures
        cpus >= 1,
{
    num_cpus::get()
}

/// Sorts `a` ascending in place with the fork-join engine, with the depth
/// budget of the machine it runs on.
pub fn quick_sort_par(a: &mut Vec<i32>)
    ensures
        is_sort_of(final(a)@, old(a)@),
        final(a).len() == old(a).len(),
        sorted(old(a)@) ==> final(a)@ == old(a)@,
{
    quick_sort_par_with(a, available_cpus());
}

/// The two engines agree: what the sequential engine leaves of an input and
/// what the fork-join engine leaves of it are the same sequence.
pub proof fn lemma_engines_agree(input: Seq<i32>, sequential: Seq<i32>, forked: Seq<i32>)
    requires
        is_sort_of(sequential, input),
        is_sort_of(forked, input),
    ensures
        sequential == forked,
{
    lemma_sort_unique(input, sequential, forked);
}

} // verus!

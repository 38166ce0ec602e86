use parallel_quicksort::parallel::{
    fork, initial_depth, join, merge, quick_sort_par, quick_sort_par_with, quick_sort_rec_par,
    SortError, Task,
};
use parallel_quicksort::sequential::quick_sort;

fn scrambled(len: usize, seed: u64, span: i64) -> Vec<i32> {
    let mut state = seed;
    let mut out = Vec::with_capacity(len);
    for _ in 0..len {
        state = state.wrapping_mul(6364136223846793005).wrapping_add(1442695040888963407);
        let value = ((state >> 33) as i64 % span) - span / 2;
        out.push(value as i32);
    }
    out
}

#[test]
fn quick_sort_par_example_with_duplicates_and_negatives() {
    let mut a = vec![5, -3, 5, 0, -3, 9];
    quick_sort_par(&mut a);
    assert_eq!(a, vec![-3, -3, 0, 5, 5, 9]);
}

#[test]
fn quick_sort_par_empty() {
    let mut a: Vec<i32> = vec![];
    quick_sort_par(&mut a);
    assert_eq!(a, Vec::<i32>::new());
}

#[test]
fn quick_sort_par_single() {
    let mut a = vec![7];
    quick_sort_par(&mut a);
    assert_eq!(a, vec![7]);
}

#[test]
fn quick_sort_par_all_equal() {
    let mut a = vec![-1; 40];
    quick_sort_par(&mut a);
    assert_eq!(a, vec![-1; 40]);
}

#[test]
fn quick_sort_par_already_sorted_is_unchanged() {
    let input: Vec<i32> = (-100..100).collect();
    let mut a = input.clone();
    quick_sort_par(&mut a);
    assert_eq!(a, input);
}

#[test]
fn quick_sort_par_reverse_sorted() {
    let mut a: Vec<i32> = (0..200).rev().collect();
    quick_sort_par(&mut a);
    let expected: Vec<i32> = (0..200).collect();
    assert_eq!(a, expected);
}

#[test]
fn quick_sort_par_keeps_every_element() {
    let input = vec![3, 1, 3, 3, -2, 1, 0, 0, 8];
    let mut a = input.clone();
    quick_sort_par(&mut a);
    assert_eq!(a.len(), input.len());
    for value in [-2, 0, 1, 3, 8, 5] {
        let before = input.iter().filter(|x| **x == value).count();
        let after = a.iter().filter(|x| **x == value).count();
        assert_eq!(before, after);
    }
}

#[test]
fn both_engines_give_the_same_output() {
    for seed in 0..20u64 {
        let input = scrambled(600 + seed as usize, seed, 150);
        let mut sequential = input.clone();
        quick_sort(&mut sequential);
        for cpus in [0usize, 1, 2, 4, 8, 16, 64] {
            let mut forked = input.clone();
            quick_sort_par_with(&mut forked, cpus);
            assert_eq!(forked, sequential);
        }
        let mut forked = input.clone();
        quick_sort_par(&mut forked);
        assert_eq!(forked, sequential);
    }
}

#[test]
fn one_or_two_cpus_still_sort() {
    for cpus in [1usize, 2] {
        let mut a = vec![5, -3, 5, 0, -3, 9];
        quick_sort_par_with(&mut a, cpus);
        assert_eq!(a, vec![-3, -3, 0, 5, 5, 9]);

        let mut b = scrambled(300, 99, 50);
        let mut expected = b.clone();
        expected.sort();
        quick_sort_par_with(&mut b, cpus);
        assert_eq!(b, expected);

        let mut empty: Vec<i32> = vec![];
        quick_sort_par_with(&mut empty, cpus);
        assert_eq!(empty, Vec::<i32>::new());
    }
}

#[test]
fn initial_depth_is_half_the_cpus_less_one() {
    assert_eq!(initial_depth(4), 1);
    assert_eq!(initial_depth(5), 1);
    assert_eq!(initial_depth(6), 2);
    assert_eq!(initial_depth(8), 3);
    assert_eq!(initial_depth(64), 31);
    assert_eq!(initial_depth(usize::MAX), usize::MAX / 2 - 1);
}

#[test]
fn initial_depth_never_goes_below_zero() {
    assert_eq!(initial_depth(0), 0);
    assert_eq!(initial_depth(1), 0);
    assert_eq!(initial_depth(2), 0);
    assert_eq!(initial_depth(3), 0);
}

#[test]
fn quick_sort_rec_par_sorts_only_its_range() {
    for depth in 0..6usize {
        let mut a = vec![9, 8, 7, 6, 5, 4, 3, 2, 1];
        quick_sort_rec_par(&mut a, 2, 6, depth);
        assert_eq!(a, vec![9, 8, 3, 4, 5, 6, 7, 2, 1]);
    }
}

#[test]
fn quick_sort_rec_par_leaves_a_terminal_range_alone() {
    let mut a = vec![3, 2, 1];
    quick_sort_rec_par(&mut a, 1, 1, 4);
    assert_eq!(a, vec![3, 2, 1]);
    quick_sort_rec_par(&mut a, 2, 0, 4);
    assert_eq!(a, vec![3, 2, 1]);
    quick_sort_rec_par(&mut a, 9, 4, 4);
    assert_eq!(a, vec![3, 2, 1]);
}

#[test]
fn fork_partitions_and_hands_out_both_sides() {
    let mut a = vec![9, 4, 7, 1, 5];
    let f = fork(&mut a, 0, 4, 3).unwrap();
    assert_eq!(a, vec![4, 1, 5, 9, 7]);
    assert_eq!(f.pivot, 2);
    assert_eq!(f.left.data, vec![4, 1, 5, 9, 7]);
    assert_eq!((f.left.low, f.left.high, f.left.depth), (0, 1, 2));
    assert_eq!(f.right.data, vec![4, 1, 5, 9, 7]);
    assert_eq!((f.right.low, f.right.high, f.right.depth), (3, 4, 2));
}

#[test]
fn fork_with_the_pivot_at_the_start_has_an_empty_left_side() {
    let mut a = vec![2, 3, 1];
    let f = fork(&mut a, 0, 2, 0).unwrap();
    assert_eq!(a, vec![1, 3, 2]);
    assert_eq!(f.pivot, 0);
    assert_eq!((f.left.low, f.left.high, f.left.depth), (1, 0, 0));
    assert_eq!((f.right.low, f.right.high, f.right.depth), (1, 2, 0));

    let mut b = vec![7, 2, 3, 1];
    let g = fork(&mut b, 1, 3, 1).unwrap();
    assert_eq!(b, vec![7, 1, 3, 2]);
    assert_eq!(g.pivot, 1);
    assert_eq!((g.left.low, g.left.high), (2, 1));
    assert_eq!((g.right.low, g.right.high), (2, 3));
}

#[test]
fn fork_with_the_pivot_at_the_end_has_an_empty_right_side() {
    let mut a = vec![1, 2, 3];
    let f = fork(&mut a, 0, 2, 5).unwrap();
    assert_eq!(a, vec![1, 2, 3]);
    assert_eq!(f.pivot, 2);
    assert_eq!((f.left.low, f.left.high, f.left.depth), (0, 1, 4));
    assert_eq!((f.right.low, f.right.high, f.right.depth), (3, 2, 4));
}

#[test]
fn fork_does_not_split_a_terminal_range() {
    let mut a = vec![3, 2, 1];
    assert!(fork(&mut a, 1, 1, 3).is_none());
    assert!(fork(&mut a, 2, 1, 3).is_none());
    assert!(fork(&mut a, 8, 8, 3).is_none());
    assert_eq!(a, vec![3, 2, 1]);
}

#[test]
fn task_runs_sequentially_once_the_budget_is_down_to_one() {
    let task = |depth: usize| Task { data: vec![2, 1], low: 0, high: 1, depth };
    assert!(task(0).runs_sequentially());
    assert!(task(1).runs_sequentially());
    assert!(!task(2).runs_sequentially());
    assert!(!task(9).runs_sequentially());
}

#[test]
fn task_run_sorts_its_range_of_its_copy() {
    for depth in 0..5usize {
        let task = Task { data: vec![6, 5, 4, 3, 2, 1], low: 1, high: 4, depth };
        assert_eq!(task.run(), vec![6, 2, 3, 4, 5, 1]);
    }
}

#[test]
fn task_run_with_a_terminal_range_hands_its_copy_back() {
    let task = Task { data: vec![3, 2, 1], low: 0, high: 0, depth: 3 };
    assert_eq!(task.run(), vec![3, 2, 1]);
    let task = Task { data: vec![3, 2, 1], low: 3, high: 2, depth: 0 };
    assert_eq!(task.run(), vec![3, 2, 1]);
}

#[test]
fn merge_takes_each_side_from_its_task() {
    let mut a = vec![0, 10, 20, 30, 40, 50, 60];
    let left = vec![1, 11, 21, 31, 41, 51, 61];
    let right = vec![2, 12, 22, 32, 42, 52, 62];
    merge(&mut a, 1, 3, 5, &left, &right);
    assert_eq!(a, vec![0, 11, 21, 30, 42, 52, 60]);
}

#[test]
fn merge_with_empty_sides_changes_nothing() {
    let mut a = vec![0, 10, 20];
    let left = vec![1, 11, 21];
    let right = vec![2, 12, 22];
    merge(&mut a, 1, 1, 1, &left, &right);
    assert_eq!(a, vec![0, 10, 20]);
}

#[test]
fn join_of_two_finished_tasks_merges() {
    let mut a = vec![4, 1, 5, 9, 7];
    let left = vec![1, 4, 5, 9, 7];
    let right = vec![4, 1, 5, 7, 9];
    let r = join(&mut a, 0, 2, 4, Some(left), Some(right));
    assert_eq!(r, Ok(()));
    assert_eq!(a, vec![1, 4, 5, 7, 9]);
}

#[test]
fn join_reports_a_failed_left_task() {
    let mut a = vec![4, 1, 5, 9, 7];
    let right = vec![4, 1, 5, 7, 9];
    let r = join(&mut a, 0, 2, 4, None, Some(right));
    assert_eq!(r, Err(SortError::LeftTaskFailed));
    assert_eq!(a, vec![4, 1, 5, 9, 7]);
}

#[test]
fn join_reports_a_failed_right_task() {
    let mut a = vec![4, 1, 5, 9, 7];
    let left = vec![1, 4, 5, 9, 7];
    let r = join(&mut a, 0, 2, 4, Some(left), None);
    assert_eq!(r, Err(SortError::RightTaskFailed));
    assert_eq!(a, vec![4, 1, 5, 9, 7]);
}

#[test]
fn join_reports_the_left_task_when_both_failed() {
    let mut a = vec![4, 1, 5, 9, 7];
    let r = join(&mut a, 0, 2, 4, None, None);
    assert_eq!(r, Err(SortError::LeftTaskFailed));
    assert_eq!(a, vec![4, 1, 5, 9, 7]);
}

#[test]
fn a_fault_in_one_branch_fails_the_sort_by_steps() {
    let mut a = vec![9, 4, 7, 1, 5, 8, 2];
    let f = fork(&mut a, 0, 6, 3).unwrap();
    let split = a.clone();
    let left = Some(f.left.run());
    let right: Option<Vec<i32>> = None;
    drop(f.right);
    let r = join(&mut a, 0, f.pivot, 6, left, right);
    assert_eq!(r, Err(SortError::RightTaskFailed));
    assert_eq!(a, split);
}

#[test]
fn the_steps_run_by_hand_sort_as_the_engine_does() {
    let input = vec![9, 4, 7, 1, 5, 8, 2, 2, -6];
    let mut by_engine = input.clone();
    quick_sort_rec_par(&mut by_engine, 0, 8, 3);

    let mut a = input;
    let f = fork(&mut a, 0, 8, 3).unwrap();
    let left = f.left.run();
    let right = f.right.run();
    assert_eq!(join(&mut a, 0, f.pivot, 8, Some(left), Some(right)), Ok(()));
    assert_eq!(a, by_engine);
    assert_eq!(a, vec![-6, 1, 2, 2, 4, 5, 7, 8, 9]);
}

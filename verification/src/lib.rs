//! In-place quicksort over `Vec<i32>`: a Lomuto partitioner, a sequential
//! engine, a depth-bounded fork-join engine and its steps, and what a timing
//! harness around the two engines computes.
//!
//! Executable functions take a range as its two inclusive bounds,
//! `low..=high`, and a range with `low >= high` is one that needs no work.
//! Contracts speak of a sequence by its view, a `Seq<i32>`.

pub mod order;
pub mod partition;
pub mod sequential;
pub mod parallel;
pub mod harness;

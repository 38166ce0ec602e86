//! What a timing harness around the two engines computes: the random input
//! of a run, and the average over the runs.

use rand::Rng;
use vstd::prelude::*;

verus! {

/// Why no input could be generated.
#[derive(Clone, Copy, Debug, PartialEq, Eq, Structural)]
pub enum ConfigError {
    /// The exclusive upper bound is zero or negative: no value lies below it.
    EmptyRange,
}

/// Every element of `s` is at least 0 and below `max`.
pub open spec fn all_below(s: Seq<i32>, max: int) -> bool {
    forall|k: int| 0 <= k < s.len() ==> (0 <= s[k] && s[k] < max)
}

/// `rand::thread_rng()` and, on the generator it gives, `gen_range` with
/// the range `low..high`: a random value from the generator of the calling
/// thread. `gen_range` panics on an empty range, which `low < high` rules
/// out, and gives some value of the range. Which one is not stated: two
/// calls may give two values.
#[verifier::external_body]
fn random_between(low: i32, high: i32) -> (x: i32)
    requires
        low < high,
    ensures
        low <= x < high,
{
    rand::thread_rng().gen_range(low..high)
}

/// A vector of `len` random values, each at least 0 and below `max`. With
/// no value below `max` there is nothing to draw from, and that is an error.
pub fn get_random_vec(len: usize, max: i32) -> (r: Result<Vec<i32>, ConfigError>)
    ensures
        r is Ok <==> max > 0,
        r is Err ==> r == Err::<Vec<i32>, ConfigError>(ConfigError::EmptyRange),
        r matches Ok(v) ==> v.len() == len && all_below(v@, max as int),
{
    if max <= 0 {
        return Err(ConfigError::EmptyRange);
    }
    let mut v: Vec<i32> = Vec::with_capacity(len);
    for n in 0..len
        invariant
            0 < max,
            v.len() == n,
            all_below(v@, max as int),
    {
        v.push(random_between(0, max));
    }
    Ok(v)
}

/// The average time of a run, in whole milliseconds, rounded down.
pub fn average_millis(total_millis: u128, runs: u128) -> (average: u128)
    requires
        runs > 0,
    ensures
        average == total_millis / runs,
{
    total_millis / runs
}

} // verus!

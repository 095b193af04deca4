//! Summing the tails of several slices.
use vstd::prelude::*;

use super::{prefix_sums_fit, sum_slice, sum_tails, tail_of, total};

verus! {

/// The sum of `numbers`, added from the left.
pub fn sum(numbers: &[i32]) -> (r: i32)
    requires
        prefix_sums_fit(numbers@),
    ensures
        r == total(numbers@),
{
    sum_slice(numbers)
}

/// The sum of each collection without its first number, in order; an empty
/// collection sums to zero.
pub fn sum_all_tails(numbers_to_sum: &[&[i32]]) -> (r: Vec<i32>)
    requires
        forall|i: int|
            0 <= i < numbers_to_sum@.len() ==> prefix_sums_fit(tail_of(#[trigger] numbers_to_sum@[i]@)),
    ensures
        r@.len() == numbers_to_sum@.len(),
        forall|i: int| 0 <= i < r@.len() ==> r@[i] == total(tail_of(#[trigger] numbers_to_sum@[i]@)),
{
    sum_tails(numbers_to_sum)
}

} // verus!

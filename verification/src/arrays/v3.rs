//! Summing slices of any length, one or many at a time.
use vstd::prelude::*;

use super::{prefix_sums_fit, sum_slice, total};

verus! {

/// The sum of `numbers`, added from the left.
pub fn sum(numbers: &[i32]) -> (r: i32)
    requires
        prefix_sums_fit(numbers@),
    ensures
        r == total(numbers@),
{
    sum_slice(numbers)
}

/// The sum of each collection, in order.
pub fn sum_all(numbers_to_sum: &[&[i32]]) -> (r: Vec<i32>)
    requires
        forall|i: int| 0 <= i < numbers_to_sum@.len() ==> prefix_sums_fit(#[trigger] numbers_to_sum@[i]@),
    ensures
        r@.len() == numbers_to_sum@.len(),
        forall|i: int| 0 <= i < r@.len() ==> r@[i] == total(#[trigger] numbers_to_sum@[i]@),
{
    let mut sums: Vec<i32> = Vec::new();
    let mut i: usize = 0;
    while i < numbers_to_sum.len()
        invariant
            i <= numbers_to_sum@.len(),
            sums@.len() == i,
            forall|j: int| 0 <= j < numbers_to_sum@.len() ==> prefix_sums_fit(#[trigger] numbers_to_sum@[j]@),
            forall|j: int| 0 <= j < i ==> sums@[j] == total(#[trigger] numbers_to_sum@[j]@),
        decreases numbers_to_sum@.len() - i,
    {
        let numbers: &[i32] = numbers_to_sum[i];
        assert(prefix_sums_fit(numbers_to_sum@[i as int]@));
        sums.push(sum_slice(numbers));
        i = i + 1;
    }
    sums
}

} // verus!

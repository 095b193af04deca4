//! Summing an array of five numbers.
use vstd::prelude::*;

use super::{prefix_sums_fit, total};

verus! {

/// The sum of the five numbers, added from the left.
pub fn sum(numbers: [i32; 5]) -> (r: i32)
    requires
        prefix_sums_fit(numbers@),
    ensures
        r == total(numbers@),
{
    let mut acc: i32 = 0;
    let mut i: usize = 0;
    assert(numbers@.take(0) =~= Seq::<i32>::empty());
    while i < 5
        invariant
            i <= 5,
            numbers@.len() == 5,
            prefix_sums_fit(numbers@),
            acc == total(numbers@.take(i as int)),
        decreases 5 - i,
    {
        assert(numbers@.take(i + 1).drop_last() =~= numbers@.take(i as int));
        assert(i32::MIN <= total(numbers@.take(i + 1)) <= i32::MAX);
        acc = acc + numbers[i];
        i = i + 1;
    }
    assert(numbers@.take(5) =~= numbers@);
    acc
}

} // verus!

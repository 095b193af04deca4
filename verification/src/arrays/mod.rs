//! Summing collections of numbers: a fixed-size array, slices, and the
//! tails of several slices.
use vstd::prelude::*;

pub mod v1;
pub mod v3;
pub mod v5;

verus! {

/// The sum of `s`.
pub open spec fn total(s: Seq<i32>) -> int
    decreases s.len(),
{
    if s.len() == 0 {
        0
    } else {
        total(s.drop_last()) + s.last()
    }
}

/// The sum is additive: nothing sums to zero, one number to itself, and
/// two sequences one after the other to the sum of their sums; so it
/// counts every number once, whatever its sign or place.
pub proof fn lemma_total_is_additive(a: Seq<i32>, b: Seq<i32>, x: i32)
    ensures
        total(Seq::empty()) == 0,
        total(seq![x]) == x,
        total(a + b) == total(a) + total(b),
    decreases b.len(),
{
    assert(seq![x].drop_last() =~= Seq::<i32>::empty());
    assert(total(seq![x]) == total(Seq::<i32>::empty()) + x);
    if b.len() == 0 {
        assert(a + b =~= a);
    } else {
        lemma_total_is_additive(a, b.drop_last(), x);
        assert((a + b).drop_last() =~= a + b.drop_last());
        assert((a + b).last() == b.last());
    }
}

/// Every running total of `s`, from the left, fits in an `i32`: summing
/// `s` in order then never overflows.
pub open spec fn prefix_sums_fit(s: Seq<i32>) -> bool {
    forall|k: int| 0 <= k <= s.len() ==> i32::MIN <= #[trigger] total(s.take(k)) <= i32::MAX
}

/// `s` without its first number; the empty sequence stays empty.
pub open spec fn tail_of(s: Seq<i32>) -> Seq<i32> {
    if s.len() == 0 {
        s
    } else {
        s.drop_first()
    }
}

/// Sums a slice from the left.
pub(crate) fn sum_slice(numbers: &[i32]) -> (r: i32)
    requires
        prefix_sums_fit(numbers@),
    ensures
        r == total(numbers@),
{
    let mut acc: i32 = 0;
    let mut i: usize = 0;
    assert(numbers@.take(0) =~= Seq::<i32>::empty());
    while i < numbers.len()
        invariant
            i <= numbers@.len(),
            prefix_sums_fit(numbers@),
            acc == total(numbers@.take(i as int)),
        decreases numbers@.len() - i,
    {
        assert(numbers@.take(i + 1).drop_last() =~= numbers@.take(i as int));
        assert(i32::MIN <= total(numbers@.take(i + 1)) <= i32::MAX);
        acc = acc + numbers[i];
        i = i + 1;
    }
    assert(numbers@.take(numbers@.len() as int) =~= numbers@);
    acc
}

/// The sum of each collection's tail, in order.
pub(crate) fn sum_tails(numbers_to_sum: &[&[i32]]) -> (r: Vec<i32>)
    requires
        forall|i: int|
            0 <= i < numbers_to_sum@.len() ==> prefix_sums_fit(tail_of(#[trigger] numbers_to_sum@[i]@)),
    ensures
        r@.len() == numbers_to_sum@.len(),
        forall|i: int| 0 <= i < r@.len() ==> r@[i] == total(tail_of(#[trigger] numbers_to_sum@[i]@)),
{
    let mut sums: Vec<i32> = Vec::new();
    let mut i: usize = 0;
    while i < numbers_to_sum.len()
        invariant
            i <= numbers_to_sum@.len(),
            sums@.len() == i,
            forall|j: int|
                0 <= j < numbers_to_sum@.len() ==> prefix_sums_fit(tail_of(#[trigger] numbers_to_sum@[j]@)),
            forall|j: int| 0 <= j < i ==> sums@[j] == total(tail_of(#[trigger] numbers_to_sum@[j]@)),
        decreases numbers_to_sum@.len() - i,
    {
        let numbers: &[i32] = numbers_to_sum[i];
        assert(prefix_sums_fit(tail_of(numbers_to_sum@[i as int]@)));
        if numbers.is_empty() {
            assert(total(tail_of(numbers@)) == 0);
            sums.push(0);
        } else {
            let tail = &numbers[1..numbers.len()];
            assert(tail@ =~= tail_of(numbers@));
            sums.push(sum_slice(tail));
        }
        i = i + 1;
    }
    sums
}

} // verus!

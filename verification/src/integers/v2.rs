//! Integer addition.
use vstd::prelude::*;

verus! {

/// The sum of `x` and `y`, which must fit in an `i32`.
pub fn add(x: i32, y: i32) -> (r: i32)
    requires
        i32::MIN <= x + y <= i32::MAX,
    ensures
        r == x + y,
{
    x + y
}

} // verus!

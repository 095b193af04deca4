//! Repeating a string with the standard library.
use vstd::prelude::*;

use crate::text::{byte_len, repeat_str, repeated};

verus! {

/// How many times `repeat` writes its argument.
pub const REPEAT_COUNT: usize = 5;

/// `character` written `REPEAT_COUNT` times over; the result must fit in
/// memory.
pub fn repeat(character: &str) -> (r: String)
    requires
        byte_len(character@) * REPEAT_COUNT <= isize::MAX,
    ensures
        r@ == repeated(character@, REPEAT_COUNT as nat),
{
    repeat_str(character, REPEAT_COUNT)
}

} // verus!

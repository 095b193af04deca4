//! Repeating a string a named number of times with a loop.
use vstd::prelude::*;

use crate::text::repeated;
use vstd::string::StringExecFns;

verus! {

/// How many times `repeat` writes its argument.
pub const REPEAT_COUNT: usize = 5;

/// `character` written `REPEAT_COUNT` times over.
pub fn repeat(character: &str) -> (r: String)
    ensures
        r@ == repeated(character@, REPEAT_COUNT as nat),
{
    let mut out = String::new();
    for i in 0..REPEAT_COUNT
        invariant
            out@ == repeated(character@, i as nat),
    {
        out.append(character);
    }
    out
}

} // verus!

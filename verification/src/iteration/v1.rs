//! Repeating a string five times with a loop.
use vstd::prelude::*;

use crate::text::repeated;
use vstd::string::StringExecFns;

verus! {

/// `character` written five times over.
pub fn repeat(character: &str) -> (r: String)
    ensures
        r@ == repeated(character@, 5),
{
    let mut out = String::new();
    for i in 0..5
        invariant
            out@ == repeated(character@, i as nat),
    {
        out.append(character);
    }
    out
}

} // verus!

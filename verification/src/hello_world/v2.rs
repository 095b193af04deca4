//! A fixed greeting.
use vstd::prelude::*;

verus! {

/// The greeting.
pub fn hello() -> (r: String)
    ensures
        r@ == "Hello, world"@,
{
    "Hello, world".to_string()
}

} // verus!

//! Greeting someone by name.
use vstd::prelude::*;

use vstd::string::StringExecFns;

verus! {

/// What every English greeting starts with.
pub const ENGLISH_HELLO_PREFIX: &'static str = "Hello, ";

/// The greeting for `name`.
pub fn hello(name: &str) -> (r: String)
    ensures
        r@ == ENGLISH_HELLO_PREFIX@ + name@,
{
    let mut greeting = ENGLISH_HELLO_PREFIX.to_string();
    greeting.append(name);
    greeting
}

} // verus!

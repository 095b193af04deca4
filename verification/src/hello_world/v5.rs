//! Greeting someone by name in English or Spanish.
use vstd::prelude::*;

use crate::text::str_eq;
use vstd::string::StringExecFns;

verus! {

/// The language that gets the Spanish greeting.
pub const SPANISH: &'static str = "Spanish";

/// What every English greeting starts with.
pub const ENGLISH_HELLO_PREFIX: &'static str = "Hello, ";

/// What every Spanish greeting starts with.
pub const SPANISH_HELLO_PREFIX: &'static str = "Hola, ";

/// Who is greeted when no name is given.
pub const DEFAULT_NAME: &'static str = "World";

/// The greeting for `name` in `language`: Spanish when the language is
/// exactly `SPANISH`, English otherwise; an empty name greets the world.
pub open spec fn greeting(name: Seq<char>, language: Seq<char>) -> Seq<char> {
    let who = if name.len() == 0 {
        DEFAULT_NAME@
    } else {
        name
    };
    if language == SPANISH@ {
        SPANISH_HELLO_PREFIX@ + who
    } else {
        ENGLISH_HELLO_PREFIX@ + who
    }
}

/// The greeting for `name` in `language`.
pub fn hello(name: &str, language: &str) -> (r: String)
    ensures
        r@ == greeting(name@, language@),
{
    let who = if name.is_empty() {
        DEFAULT_NAME
    } else {
        name
    };
    let mut greeting = if str_eq(language, SPANISH) {
        SPANISH_HELLO_PREFIX.to_string()
    } else {
        ENGLISH_HELLO_PREFIX.to_string()
    };
    greeting.append(who);
    greeting
}

} // verus!

//! Hard-wired scores.
use vstd::prelude::*;

use crate::text::str_eq;

verus! {

/// The score shown for `name`: Pepper has 20, Floyd 10, anyone else none.
pub open spec fn known_score(name: Seq<char>) -> Seq<char> {
    if name == "Pepper"@ {
        "20"@
    } else if name == "Floyd"@ {
        "10"@
    } else {
        Seq::empty()
    }
}

/// The score for `name`, as the body of a response.
pub fn score_for_player(name: &str) -> (r: String)
    ensures
        r@ == known_score(name@),
{
    if str_eq(name, "Pepper") {
        "20".to_string()
    } else if str_eq(name, "Floyd") {
        "10".to_string()
    } else {
        String::new()
    }
}

} // verus!

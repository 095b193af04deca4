//! Scores from a store that the server is given.
use vstd::prelude::*;

pub use crate::players::score_reply;

verus! {

/// Where the server looks scores up.
pub trait PlayerStore: Send + Sync {
    /// The wins of the player called `name`, if any.
    fn score(&self, name: &str) -> Option<i32>;
}

} // verus!

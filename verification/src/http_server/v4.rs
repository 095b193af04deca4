//! Scores and wins kept by a store, with an in-memory one to serve from.
use vstd::prelude::*;

pub use crate::players::{score_reply, InMemoryPlayerStore, WIN_ACCEPTED};

verus! {

/// Where the server looks scores up and records wins.
pub trait PlayerStore: Send + Sync {
    /// The wins of the player called `name`, if any.
    fn score(&self, name: &str) -> Option<i32>;

    /// Records one more win for `name`.
    fn record_win(&self, name: &str);
}

} // verus!

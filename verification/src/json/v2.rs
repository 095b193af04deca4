//! A league table from the store, and an in-memory store that ranks it.
use vstd::prelude::*;

pub use crate::players::{score_reply, InMemoryPlayerStore, Player, WIN_ACCEPTED};

verus! {

/// Where the server looks scores up, records wins and gets the league.
pub trait PlayerStore: Send + Sync {
    /// The wins of the player called `name`, if any.
    fn score(&self, name: &str) -> Option<i32>;

    /// Records one more win for `name`.
    fn record_win(&self, name: &str);

    /// The players ranked by wins, most first.
    fn league(&self) -> Vec<Player>;
}

} // verus!

//! A fixed league table beside the score and win routes.
use vstd::prelude::*;

pub use crate::players::{score_reply, Player, WIN_ACCEPTED};

verus! {

/// Where the server looks scores up and records wins.
pub trait PlayerStore: Send + Sync {
    /// The wins of the player called `name`, if any.
    fn score(&self, name: &str) -> Option<i32>;

    /// Records one more win for `name`.
    fn record_win(&self, name: &str);
}

/// The league table that is served: Chris with 20 wins.
pub fn league_table() -> (r: Vec<Player>)
    ensures
        r@.len() == 1,
        r@[0]@ == ("Chris"@, 20i32),
{
    let mut league: Vec<Player> = Vec::new();
    league.push(Player { name: "Chris".to_string(), wins: 20 });
    league
}

} // verus!

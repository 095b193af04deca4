//! The time shown on the clock.
use vstd::prelude::*;

verus! {

/// A time of day.
pub struct Time {
    pub hours: u32,
    pub minutes: u32,
    pub seconds: u32,
}

} // verus!

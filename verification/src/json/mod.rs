//! The player server with a league table, first fixed, then from the store.
pub mod v1;
pub mod v2;

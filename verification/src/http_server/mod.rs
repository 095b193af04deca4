//! The player server's logic: scores by name, first hard-wired, then from a
//! store, then with wins recorded. Routing and serving stand outside the
//! library.
pub mod v2;
pub mod v3;
pub mod v4;

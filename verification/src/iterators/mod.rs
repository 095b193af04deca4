//! Iterator-style code: sums over slices, and a countdown that yields its
//! numbers one at a time.
pub mod v2;
pub mod v3;
pub mod v4;

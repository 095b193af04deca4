//! Repeating a string: by a loop, by a loop over a named count, and by the
//! standard library.
pub mod v1;
pub mod v3;
pub mod v4;

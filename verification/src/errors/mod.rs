//! A wallet that refuses to go below zero.
pub mod v2;

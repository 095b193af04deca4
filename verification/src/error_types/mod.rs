//! Typed errors for a tiny HTTP getter: reading a response, and deciding
//! between its body and the error that describes what went wrong.
pub mod v1;

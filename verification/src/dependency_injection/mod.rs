//! Greeting through an injected writer: a byte buffer, then any output.
pub mod v1;
pub mod v2;
pub mod v3;

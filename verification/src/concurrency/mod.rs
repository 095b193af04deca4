//! Checking a list of websites.
pub mod v1;

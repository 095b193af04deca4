//! A league kept in a JSON database, read once and written back after
//! every win.
pub mod v1;
pub mod v2;

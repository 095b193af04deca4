//! The store over a database.
pub use crate::players::{is_blank, FileSystemPlayerStore, Player};

//! A reader that stops reading once its cancellation token is raised.
pub mod v1;

//! Registering users over HTTP: the service the handler calls, and the
//! answer it gives for each outcome.
pub mod v1;

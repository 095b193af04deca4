//! Recording a poker win typed at the command line.
pub mod v1;

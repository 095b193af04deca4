//! The example programs of a test-driven Rust course, with their behaviour
//! stated as contracts and proved.
pub mod arrays;
pub mod cancellation;
pub mod cancellation_aware_reader;
pub mod command_line;
pub mod concurrency;
pub mod dependency_injection;
pub mod error_types;
pub mod errors;
pub mod hashmaps;
pub mod hello_world;
pub mod http_handlers_revisited;
pub mod http_server;
pub mod integers;
pub mod interpreter;
pub mod io_sorting;
pub mod iteration;
pub mod iterators;
pub mod json;
pub mod lifetimes;
pub mod lru;
pub mod maths;
pub mod mocking;
pub mod output;
pub mod players;
pub mod text;

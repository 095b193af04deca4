//! Greeting the world, then a person, then a person in a chosen language.
pub mod v2;
pub mod v3;
pub mod v5;

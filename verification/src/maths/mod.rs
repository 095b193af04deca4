//! A clock face. Its angles and hand positions are floating-point work that
//! stands outside the library; what remains here is the time of day.
pub mod v1;
pub mod v2;
pub mod v3;

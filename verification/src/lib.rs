//! Vending-machine transaction analytics: a date-range resolver, a record
//! filter, and a two-level summary aggregator (per station and per day),
//! with health/readiness report shapes for the surrounding service.

pub mod api;
pub mod dates;
pub mod errors;
pub mod model;
pub mod range;
pub mod summary;
pub mod text;

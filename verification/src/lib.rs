//! Volatility-adaptive trade sizing: configuration records, their JSON
//! encoding, validation rules, and the bounded adjustment calculation.
//!
//! A `VolatilityConfig` record is built once from baseline inputs, persisted
//! as JSON by the surrounding command layer, and later reloaded for
//! validation or for computing a volatility-scaled execution amount.
//! Monetary sizes are held as integers in minor units (10^-18 of a whole
//! unit); decimal text appears only at the serialization boundary.

pub mod adjust;
pub mod codec;
pub mod config;
pub mod digits;
pub mod errors;
pub mod schema;
pub mod utils;
pub mod validate;

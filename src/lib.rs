//! Deterministic decoding of DNA bytes into named trait values, driven by a
//! trait schema.

pub mod args;
pub mod cursor;
pub mod decoder;
pub mod error;
pub mod host;
pub mod laws;
pub mod offset;
pub mod pool;
pub mod rng;
pub mod schema;

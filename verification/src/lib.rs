//! A configurable numeric substitution cipher: a word over a bounded
//! alphabet becomes a delimited sequence of decimal digit groups. Each symbol
//! is mapped to its code, the codes are counted from the start index, packed
//! window by window, shifted by the key modulo the number of possibilities,
//! and written in decimal, each group followed by `-`.

pub mod config;
pub mod digits;
pub mod error;
pub mod grouping;
pub mod laws;
pub mod model;
pub mod shift;

pub use config::CesarConfig;
pub use error::{CipherError, InvalidReason};
pub use grouping::evaluate_grouped_value;

//! Streaming CSV processing: header extraction, per-record parsing, column
//! projection and serialization, with the decisions of each step verified.

pub mod projection;
pub mod error;
pub mod codec;
pub mod config;
pub mod stats;
pub mod processor;
pub mod stream;

pub use error::CsvError;

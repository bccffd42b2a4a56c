//! Human-readable error messages that point into source text.

pub mod error;
pub mod lines;
pub mod locations;
pub mod render;

pub use self::error::{Error, Span};

//! Errors of token-stream parsers: what was expected where, merged across
//! alternatives so that the error furthest into the input wins.

pub mod error;
pub mod order;
pub mod pretty;
pub mod token;

pub use self::error::{Error, ErrorKind, ParserError, StateError, TokenOrEoi};
pub use self::pretty::PrettyPrintOptions;
pub use self::token::SpannedToken;
pub use crate::pretty_error::Span;

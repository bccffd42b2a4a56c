//! Reading grammar files: the tokens, the map from token shorthands to
//! token paths, and the rules with their productions.

pub mod lexer;
pub mod error;
pub mod token_map;
pub mod ast;
pub mod parser;
pub mod parts;
pub mod module;

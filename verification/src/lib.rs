//! Register-transfer level tooling: arbitrary-width bit vectors, error
//! reporting helpers, a token-stream parser for grammar files and the data
//! model of the VHDL backend.

pub mod value;
pub mod text;
pub mod split_vec;
pub mod pretty_error;
pub mod toktok;
pub mod vhdl;
pub mod generator;
pub mod json;
pub mod cli;

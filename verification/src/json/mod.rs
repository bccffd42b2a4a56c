//! A JSON reader: the tokens of JSON documents (with `#` line comments,
//! and integers that may hold underscores) and the values they form.

pub mod lexer;
pub mod parser;

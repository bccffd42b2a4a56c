use super::lexer::Token;
use crate::toktok::Error;
use vstd::prelude::*;

verus! {

/// Why a grammar file could not be read.
#[derive(Debug)]
pub enum GeneratorError {
    /// The tokens do not follow the grammar.
    Parse(Error<Token>),
    /// Anything else, as a message.
    Message(String),
}

} // verus!

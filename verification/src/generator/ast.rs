use vstd::prelude::*;

verus! {

/// A grammar: its rules, in order.
#[derive(Debug)]
pub struct Ast<'a> {
    pub rules: Vec<Rule<'a>>,
}

/// A rule: its name, the type it returns and its alternative productions.
#[derive(Debug)]
pub struct Rule<'a> {
    pub is_public: bool,
    pub name: Ident<'a>,
    pub ret_type: RetType<'a>,
    pub productions: Vec<Production<'a>>,
}

/// A production: the combinators to match, the Rust block that builds the
/// result, and whether that block can fail.
#[derive(Debug)]
pub struct Production<'a> {
    pub combinators: Vec<Combinator<'a>>,
    pub rust_block: RustBlock<'a>,
    pub is_fallible: bool,
    pub source: &'a str,
}

/// A combinator, with its text.
#[derive(Debug)]
pub struct Combinator<'a> {
    pub kind: CombinatorKind<'a>,
    pub source: &'a str,
}

/// A rule or parser function by path, a token by shorthand, or a call.
#[derive(Debug)]
pub enum CombinatorKind<'a> {
    Path(Path<'a>),
    TokenShort(TokenShort<'a>),
    FunctionCall(FunctionCall<'a>),
}

/// A parser function applied to combinators.
#[derive(Debug)]
pub struct FunctionCall<'a> {
    pub name: Path<'a>,
    pub args: Vec<Combinator<'a>>,
}

/// The text of the type that a rule returns.
#[derive(Debug)]
pub struct RetType<'a>(pub &'a str);

/// The text of a Rust block, braces included.
#[derive(Debug)]
pub struct RustBlock<'a>(pub &'a str);

/// The text of a token shorthand, quotes included.
#[derive(Debug)]
pub struct TokenShort<'a>(pub &'a str);

/// The text of a path.
#[derive(Debug)]
pub struct Path<'a>(pub &'a str);

/// The text of a name.
#[derive(Debug)]
pub struct Ident<'a>(pub &'a str);

} // verus!

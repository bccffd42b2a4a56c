//! The module that a grammar file becomes: the user's code and the
//! generated parser, each indented into a `parser` module that also brings
//! in what the parser needs.

use super::error::GeneratorError;
use super::lexer::{spec_lex, Token};
use super::parser::{parse, rules_from};
use super::parts::{split_into_parts, three_parts, three_parts_message};
use super::token_map::{
    duplicate_prefix, first_duplicate, kinds, map_entries, pairs_from, parse_and_build, Parsed,
};
use crate::pretty_error::locations::byte_len;
use crate::text::chars::{push_str, string_from_chars};
use crate::toktok::token::fail_view;
use crate::toktok::Error;
use vstd::prelude::*;

verus! {

/// The text of the module before the user's code.
pub const MODULE_HEAD: &'static str = "mod parser{\n    #![allow(non_snake_case)]\n    #![allow(unused_braces)]\n    #![allow(clippy::all)]\n    #![deny(clippy::correctness)]\n\n    // ------------------------------------------------------------------\n    // User code\n    // ------------------------------------------------------------------\n\n";

/// The text between the user's code and the parser.
pub const MODULE_MIDDLE: &'static str = "\n\n    // ------------------------------------------------------------------\n    // Parser\n    // ------------------------------------------------------------------\n\n";

/// The text after the parser.
pub const MODULE_TAIL: &'static str = "\n\n    // ------------------------------------------------------------------\n    // Intern\n    // ------------------------------------------------------------------\n\n    #[allow(unused)]\n    use ::toktok::Parser as _;\n    mod __intern__ {\n        pub use ::toktok::{combinator as c, State, Input, PResult, Parser, Error, ParserError};\n    }\n}\n    ";

/// What `textwrap::indent(s, prefix)` returns.
pub uninterp spec fn indented(s: Seq<char>, prefix: Seq<char>) -> Seq<char>;

/// `textwrap::indent`: each line of `s` with `prefix` in front where the
/// line holds more than whitespace, each line ended by a newline.
///
/// Trusted: the result is stated only as `indented` of the two arguments.
/// That the same arguments give the same text is all that is claimed; the
/// line splitting and the whitespace test (`str::lines`,
/// `char::is_whitespace`) are left unsaid.
#[verifier::external_body]
fn indent(s: &str, prefix: &str) -> (res: String)
    ensures
        res@ == indented(s@, prefix@),
{
    textwrap::indent(s, prefix)
}

/// The indentation of the module's contents: four spaces.
pub open spec fn module_indent() -> Seq<char> {
    seq![' ', ' ', ' ', ' ']
}

/// The module from the (already indented) user code and parser.
pub open spec fn module_frame(user: Seq<char>, parser: Seq<char>) -> Seq<char> {
    MODULE_HEAD@ + user + MODULE_MIDDLE@ + parser + MODULE_TAIL@
}

/// The module from the user's code and the parser, both already indented.
pub fn module_text(user: &str, parser: &str) -> (res: String)
    ensures
        res@ == module_frame(user@, parser@),
{
    let mut out: Vec<char> = Vec::new();
    push_str(&mut out, MODULE_HEAD);
    push_str(&mut out, user);
    push_str(&mut out, MODULE_MIDDLE);
    push_str(&mut out, parser);
    push_str(&mut out, MODULE_TAIL);
    assert(out@ =~= module_frame(user@, parser@));
    string_from_chars(&out)
}

/// The module that a grammar file becomes: the user's code of the file and
/// the generated parser, each indented by four spaces, in the frame of the
/// `parser` module.
pub fn parser_module(rust_source: &str, parser_content: &str) -> (res: String)
    ensures
        res@ == module_frame(
            indented(rust_source@, module_indent()),
            indented(parser_content@, module_indent()),
        ),
{
    proof {
        reveal_strlit("    ");
    }
    let user = indent(rust_source, "    ");
    let parser = indent(parser_content, "    ");
    assert("    "@ =~= module_indent());
    module_text(user.as_str(), parser.as_str())
}

/// Why a grammar file could not be made into its module.
#[derive(Debug)]
pub enum GrammarError {
    /// The rules do not follow the grammar of rules.
    Rules(Error<Token>),
    /// The parts or the token map are malformed.
    Other(GeneratorError),
}

/// The bytes of a concatenation are those of its halves.
proof fn lemma_byte_len_concat(a: Seq<char>, b: Seq<char>)
    ensures
        byte_len(a + b) == byte_len(a) + byte_len(b),
    decreases b.len(),
{
    if b.len() > 0 {
        lemma_byte_len_concat(a, b.drop_last());
        assert((a + b).drop_last() =~= a + b.drop_last());
    } else {
        assert(a + b =~= a);
    }
}

/// A piece of a text has no more bytes than the text.
proof fn lemma_byte_len_subrange(cs: Seq<char>, i: int, j: int)
    requires
        0 <= i <= j <= cs.len(),
    ensures
        byte_len(cs.subrange(i, j)) <= byte_len(cs),
{
    assert(cs.take(j) =~= cs.take(i) + cs.subrange(i, j));
    lemma_byte_len_concat(cs.take(i), cs.subrange(i, j));
    crate::pretty_error::locations::lemma_byte_len_mono(cs, j);
}

/// Makes the module that a grammar file becomes, with `parser_content` as
/// the generated parser. Fails as the steps fail: when the file has not
/// three parts, when the rules do not parse (the error is the rules' own),
/// when the token map does not parse or repeats a shorthand.
pub fn grammar_module(source: &str, parser_content: &str) -> (res: Result<String, GrammarError>)
    requires
        byte_len(source@) <= usize::MAX,
    ensures
        match three_parts(source@) {
            None => res matches Err(GrammarError::Other(GeneratorError::Message(m))) && m@
                == three_parts_message(),
            Some((p0, p1, p2)) => {
                let rules = source@.subrange(p0.0, p0.1);
                let map = source@.subrange(p1.0, p1.1);
                let user = source@.subrange(p2.0, p2.1);
                match rules_from(kinds(spec_lex(rules)), 0) {
                    Parsed::Fail(j, x) => res matches Err(GrammarError::Rules(e)) && e@ == fail_view(
                        rules,
                        spec_lex(rules),
                        j,
                        x,
                    ),
                    Parsed::Done(_) => match pairs_from(kinds(spec_lex(map)), 0) {
                        Parsed::Fail(j, x) => res matches Err(
                            GrammarError::Other(GeneratorError::Parse(e)),
                        ) && e@ == fail_view(map, spec_lex(map), j, x),
                        Parsed::Done(pairs) => {
                            let es = map_entries(map, spec_lex(map), pairs);
                            match first_duplicate(es, 0) {
                                Some((j, k)) => res matches Err(
                                    GrammarError::Other(GeneratorError::Message(m)),
                                ) && m@ == duplicate_prefix() + es[j].1,
                                None => res matches Ok(out) && out@ == module_frame(
                                    indented(user, module_indent()),
                                    indented(parser_content@, module_indent()),
                                ),
                            }
                        },
                    },
                }
            },
        },
{
    let (rules, map, user) = match split_into_parts(source) {
        Ok(parts) => parts,
        Err(e) => return Err(GrammarError::Other(e)),
    };
    proof {
        let (p0, p1, p2) = three_parts(source@)->0;
        crate::generator::parts::lemma_three_parts_bounds(source@);
        lemma_byte_len_subrange(source@, p0.0, p0.1);
        lemma_byte_len_subrange(source@, p1.0, p1.1);
    }
    match parse(rules) {
        Ok(_) => {},
        Err(e) => return Err(GrammarError::Rules(e)),
    }
    match parse_and_build(map) {
        Ok(_) => Ok(parser_module(user, parser_content)),
        Err(e) => Err(GrammarError::Other(e)),
    }
}

} // verus!

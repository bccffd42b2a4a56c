use rt_easy::generator::ast::CombinatorKind;
use rt_easy::generator::error::GeneratorError;
use rt_easy::generator::lexer::{lex, Token};
use rt_easy::generator::parser::parse;
use rt_easy::generator::parts::split_into_parts;
use rt_easy::generator::module::{module_text, parser_module, MODULE_HEAD, MODULE_MIDDLE, MODULE_TAIL};
use rt_easy::generator::token_map::parse_and_build;
use rt_easy::toktok::{ErrorKind, Span, TokenOrEoi};

fn kinds(source: &str) -> Vec<Token> {
    lex(source).iter().map(|t| t.token).collect()
}

#[test]
fn lexes_punctuation_and_words() {
    assert_eq!(
        kinds("pub x -> a::b<'c>(d, e) : f | g ;"),
        vec![
            Token::KeywordPublic,
            Token::Identifier,
            Token::Arrow,
            Token::Identifier,
            Token::DoubleColon,
            Token::Identifier,
            Token::LeftAngle,
            Token::SingleQuote,
            Token::Identifier,
            Token::RightAngle,
            Token::LeftParen,
            Token::Identifier,
            Token::Comma,
            Token::Identifier,
            Token::RightParen,
            Token::Colon,
            Token::Identifier,
            Token::OperatorChoice,
            Token::Identifier,
            Token::Semicolon,
        ]
    );
    assert_eq!(kinds("use as pubx _a1 = => ?"), vec![
        Token::KeywordUse,
        Token::KeywordAs,
        Token::Identifier,
        Token::Identifier,
        Token::Assign,
        Token::FatArrow,
        Token::QuestionMark,
    ]);
}

#[test]
fn lexes_blocks_shorthands_and_comments() {
    let toks = lex("\"+\" { a { b } } // note\n x");
    let kinds: Vec<Token> = toks.iter().map(|t| t.token).collect();
    assert_eq!(kinds, vec![Token::TokenShort, Token::RustBlock, Token::Identifier]);
    assert_eq!(toks[0].span, 0..3);
    assert_eq!(toks[1].span, 4..15);
    assert_eq!(toks[2].span, 25..26);
}

#[test]
fn lexes_errors() {
    assert_eq!(kinds("- # /"), vec![Token::Error, Token::Error, Token::Error]);
    assert_eq!(kinds("{ a"), vec![Token::Error, Token::Identifier]);
    assert_eq!(kinds("\"open"), vec![Token::Error]);
}

#[test]
fn spans_count_bytes() {
    let toks = lex("\"ä\" b");
    assert_eq!(toks[0].span, 0..4);
    assert_eq!(toks[1].span, 5..6);
}

#[test]
fn token_map_entries() {
    let map = parse_and_build("\"+\" = Token::Plus \"(\" = Paren").unwrap();
    assert_eq!(map.map("\"+\"").unwrap(), "__intern__::c::exact(Token::Plus)");
    assert_eq!(map.map("\"(\"").unwrap(), "__intern__::c::exact(Paren)");
    match map.map("\"-\"") {
        Err(GeneratorError::Message(m)) => assert_eq!(m, "could not find token: \"-\""),
        _ => panic!("expected a missing token"),
    }
}

#[test]
fn token_map_duplicate() {
    match parse_and_build("\"+\" = A \"+\" = B") {
        Err(GeneratorError::Message(m)) => assert_eq!(m, "duplicate token short: __intern__::c::exact(A)"),
        _ => panic!("expected a duplicate"),
    }
}

#[test]
fn token_map_syntax_errors() {
    match parse_and_build("\"+\" A") {
        Err(GeneratorError::Parse(e)) => {
            assert_eq!(e.span(), Span::Range(4..5));
            match e.kind() {
                ErrorKind::Expected(x, found) => {
                    assert_eq!(x, &vec![TokenOrEoi::Token(Token::Assign)]);
                    assert_eq!(found, &TokenOrEoi::Token(Token::Identifier));
                }
                _ => panic!("expected an expected-token error"),
            }
        }
        _ => panic!("expected a parse error"),
    }
    match parse_and_build("\"+\" = A::") {
        Err(GeneratorError::Parse(e)) => assert_eq!(e.span(), Span::Eoi),
        _ => panic!("expected a parse error"),
    }
}

#[test]
fn parses_rules() {
    let source = "pub expr -> Vec<u8> : a \"+\" f(b, \"-\") { x } ? | b { y } ;\nitem -> Item : c { z };";
    let ast = parse(source).unwrap();
    assert_eq!(ast.rules.len(), 2);
    let r = &ast.rules[0];
    assert!(r.is_public);
    assert_eq!(r.name.0, "expr");
    assert_eq!(r.ret_type.0, "Vec<u8>");
    assert_eq!(r.productions.len(), 2);
    let p = &r.productions[0];
    assert!(p.is_fallible);
    assert_eq!(p.rust_block.0, "{ x }");
    assert_eq!(p.source, "a \"+\" f(b, \"-\") { x } ?");
    assert_eq!(p.combinators.len(), 3);
    assert_eq!(p.combinators[1].source, "\"+\"");
    match &p.combinators[2].kind {
        CombinatorKind::FunctionCall(f) => {
            assert_eq!(f.name.0, "f");
            assert_eq!(f.args.len(), 2);
            assert_eq!(f.args[1].source, "\"-\"");
        }
        _ => panic!("expected a call"),
    }
    assert!(!r.productions[1].is_fallible);
    assert!(!ast.rules[1].is_public);
    assert_eq!(ast.rules[1].ret_type.0, "Item");
}

#[test]
fn parse_errors() {
    match parse("x -> : a { b };") {
        Err(e) => {
            assert_eq!(e.span(), Span::Range(5..6));
            match e.kind() {
                ErrorKind::Expected(x, _) => assert_eq!(x.len(), 7),
                _ => panic!("expected an expected-token error"),
            }
        }
        Ok(_) => panic!("expected an error"),
    }
    match parse("x -> T : a { b }") {
        Err(e) => assert_eq!(e.span(), Span::Eoi),
        Ok(_) => panic!("expected an error"),
    }
    assert!(parse("").unwrap().rules.is_empty());
}

#[test]
fn three_parts() {
    let (a, b, c) = split_into_parts("rules+++map+++code").unwrap();
    assert_eq!((a, b, c), ("rules", "map", "code"));
    let (a, b, c) = split_into_parts("+++++++++x").unwrap();
    assert_eq!((a, b, c), ("", "", ""));
    match split_into_parts("a+++b") {
        Err(GeneratorError::Message(m)) => assert_eq!(m, "expected 3 parts"),
        _ => panic!("expected an error"),
    }
}

#[test]
fn module_frame_around_indented_parts() {
    let out = parser_module("use a;\n\nfn b() {}\n", "fn parse() {}");
    let expected = format!(
        "{}{}{}{}{}",
        MODULE_HEAD, "    use a;\n\n    fn b() {}\n", MODULE_MIDDLE, "    fn parse() {}\n", MODULE_TAIL
    );
    assert_eq!(out, expected);
    assert!(out.starts_with("mod parser{\n    #![allow(non_snake_case)]\n"));
    assert!(out.ends_with("pub use ::toktok::{combinator as c, State, Input, PResult, Parser, Error, ParserError};\n    }\n}\n    "));
}

#[test]
fn module_text_puts_parts_in_place() {
    let out = module_text("U", "P");
    assert_eq!(out, format!("{}U{}P{}", MODULE_HEAD, MODULE_MIDDLE, MODULE_TAIL));
    assert!(out.contains("// User code\n    // ------------------------------------------------------------------\n\nU\n\n"));
}

#[test]
fn token_map_lookups_follow_the_file() {
    let map = parse_and_build("\"+\" = Token::Plus \"-\" = a::b::Minus").unwrap();
    assert_eq!(map.map("\"+\"").unwrap(), "__intern__::c::exact(Token::Plus)");
    assert_eq!(map.map("\"-\"").unwrap(), "__intern__::c::exact(a::b::Minus)");
    match map.map("\"*\"") {
        Err(GeneratorError::Message(m)) => assert_eq!(m, "could not find token: \"*\""),
        _ => panic!("a missing shorthand must fail"),
    }
}

#[test]
fn grammar_module_follows_the_steps() {
    let source = "item -> Item : c { z };\n+++\n\"+\" = Token::Plus\n+++\nuse a;\n";
    match rt_easy::generator::module::grammar_module(source, "fn p() {}") {
        Ok(out) => assert_eq!(
            out,
            format!("{}{}{}{}{}", MODULE_HEAD, "\n    use a;\n", MODULE_MIDDLE, "    fn p() {}\n", MODULE_TAIL)
        ),
        Err(e) => panic!("unexpected error: {:?}", e),
    }
    match rt_easy::generator::module::grammar_module("no parts", "") {
        Err(rt_easy::generator::module::GrammarError::Other(GeneratorError::Message(m))) => {
            assert_eq!(m, "expected 3 parts")
        }
        _ => panic!("three parts are needed"),
    }
    match rt_easy::generator::module::grammar_module("+++\"+\" = A \"+\" = B+++", "") {
        Err(rt_easy::generator::module::GrammarError::Other(GeneratorError::Message(m))) => {
            assert_eq!(m, "duplicate token short: __intern__::c::exact(A)")
        }
        _ => panic!("a repeated shorthand must fail"),
    }
}

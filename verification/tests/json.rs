use rt_easy::json::lexer::{lex, Token};
use rt_easy::json::parser::{parse, JsonValue};
use rt_easy::toktok::{ErrorKind, Span, TokenOrEoi};
use serde_json::Value;

fn to_serde(v: &JsonValue) -> Value {
    match v {
        JsonValue::Bool(b) => Value::Bool(*b),
        JsonValue::Integer(n) => Value::from(*n),
        JsonValue::String(s) => Value::String(s.clone()),
        JsonValue::Array(vs) => Value::Array(vs.iter().map(to_serde).collect()),
        JsonValue::Object(ps) => {
            let mut map = serde_json::Map::new();
            for (k, v) in ps {
                map.insert(k.clone(), to_serde(v));
            }
            Value::Object(map)
        }
    }
}

#[test]
fn test_json() {
    let source = r###"
    {
        "hello": "world",
        "x": [true, 12, false, -1, "true"],
        "y": { "zzz": "", "a": [] }
    }
    "###;
    let res = parse(source).unwrap();

    let expected = serde_json::from_str::<Value>(source).unwrap();
    assert_eq!(to_serde(&res), expected);
}

#[test]
fn json_tokens() {
    let kinds: Vec<Token> = lex("{ \"a\\\"b\" : -1_000, tru # note\n false }").iter().map(|t| t.token).collect();
    assert_eq!(
        kinds,
        vec![
            Token::BraceOpen,
            Token::String,
            Token::Colon,
            Token::Integer,
            Token::Comma,
            Token::Error,
            Token::False,
            Token::BraceClose,
        ]
    );
    let toks = lex("tru x");
    assert_eq!(toks[0].span, 0..3);
}

#[test]
fn json_integers() {
    match parse("[1_000, +5, -9223372036854775808, 9223372036854775807]").unwrap() {
        JsonValue::Array(vs) => {
            let ns: Vec<i64> = vs
                .iter()
                .map(|v| match v {
                    JsonValue::Integer(n) => *n,
                    _ => panic!("not an integer"),
                })
                .collect();
            assert_eq!(ns, vec![1000, 5, i64::MIN, i64::MAX]);
        }
        _ => panic!("not an array"),
    }
    let e = parse("[9223372036854775808]").unwrap_err();
    assert_eq!(e.span(), Span::Range(1..20));
    match e.kind() {
        ErrorKind::Custom(m) => assert_eq!(m, "integer out of range"),
        _ => panic!("not a custom error"),
    }
}

#[test]
fn json_strings_keep_escapes() {
    match parse("\"a\\nb\"").unwrap() {
        JsonValue::String(s) => assert_eq!(s, "a\\nb"),
        _ => panic!("not a string"),
    }
}

#[test]
fn json_errors() {
    let e = parse("[1, ]").unwrap_err();
    assert_eq!(e.span(), Span::Range(4..5));
    match e.kind() {
        ErrorKind::Expected(x, found) => {
            assert_eq!(x.len(), 6);
            assert_eq!(found, &TokenOrEoi::Token(Token::BracketClose));
        }
        _ => panic!("not an expected-token error"),
    }
    let e = parse("{\"a\": 1} 2").unwrap_err();
    assert_eq!(e.span(), Span::Range(9..10));
    match e.kind() {
        ErrorKind::Expected(x, _) => assert_eq!(x, &vec![TokenOrEoi::Eoi]),
        _ => panic!("not an expected-token error"),
    }
    let e = parse("").unwrap_err();
    assert_eq!(e.span(), Span::Eoi);
    let e = parse("{\"a\" 1}").unwrap_err();
    assert_eq!(e.span(), Span::Range(5..6));
}

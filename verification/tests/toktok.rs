use rt_easy::toktok::pretty::{expected_message, token_str};
use rt_easy::toktok::{Error, ErrorKind, PrettyPrintOptions, Span, StateError, TokenOrEoi};

fn kind_tokens(e: &Error<u8>) -> Vec<TokenOrEoi<u8>> {
    match e.kind() {
        ErrorKind::Expected(x, _) => x
            .iter()
            .map(|t| match t {
                TokenOrEoi::Token(v) => TokenOrEoi::Token(*v),
                TokenOrEoi::Eoi => TokenOrEoi::Eoi,
            })
            .collect(),
        _ => panic!("not an expected-token error"),
    }
}

#[test]
fn merge_with_nothing_keeps_error() {
    let e = Error::<u8>::new_custom(Span::Range(3..4), "x".to_string());
    let m = Error::merge(None, e);
    assert_eq!(m.span(), Span::Range(3..4));
    assert!(!m.is_fail());
}

#[test]
fn merge_keeps_the_furthest_error() {
    let near = Error::<u8>::new_custom(Span::Range(0..1), "near".to_string());
    let far = Error::<u8>::new_custom(Span::Range(2..3), "far".to_string());
    let m = Error::merge(Some(near), far);
    assert_eq!(m.span(), Span::Range(2..3));
    let near = Error::<u8>::new_custom(Span::Range(0..1), "near".to_string());
    let far = Error::<u8>::new_custom(Span::Range(2..3), "far".to_string());
    let m = Error::merge(Some(far), near);
    assert_eq!(m.span(), Span::Range(2..3));
    let end = Error::<u8>::new_custom(Span::Eoi, "end".to_string());
    let far = Error::<u8>::new_custom(Span::Range(2..3), "far".to_string());
    assert_eq!(Error::merge(Some(far), end).span(), Span::Eoi);
}

#[test]
fn merge_at_same_place_joins_expected_tokens() {
    let a = Error::new_expected(Span::Range(1..2), vec![TokenOrEoi::Token(1u8)], TokenOrEoi::Token(9));
    let b = Error::new_expected(Span::Range(1..2), vec![TokenOrEoi::Token(2u8), TokenOrEoi::Eoi], TokenOrEoi::Token(8))
        .with_is_fail();
    let m = Error::merge(Some(a), b);
    assert!(m.is_fail());
    assert_eq!(kind_tokens(&m), vec![TokenOrEoi::Token(1), TokenOrEoi::Token(2), TokenOrEoi::Eoi]);
    match m.kind() {
        ErrorKind::Expected(_, found) => assert_eq!(*found, TokenOrEoi::Token(9)),
        _ => panic!("not an expected-token error"),
    }
}

#[test]
fn merge_at_same_place_prefers_custom() {
    let a = Error::new_expected(Span::Eoi, vec![TokenOrEoi::Token(1u8)], TokenOrEoi::Eoi);
    let b = Error::<u8>::new_custom(Span::Eoi, "custom".to_string());
    match Error::merge(Some(a), b).kind() {
        ErrorKind::Custom(m) => assert_eq!(m, "custom"),
        _ => panic!("not a custom error"),
    }
}

#[test]
fn state_error_and_parser_error() {
    let s = StateError::<u8>::none();
    assert!(!s.is_some());
    let e = Error::<u8>::new_custom(Span::Range(0..1), "x".to_string());
    let p = s.and(e);
    assert!(!p.is_fail());
    let p = p.with_is_fail();
    assert!(p.is_fail());
    let p = match p.recover(7u32) {
        Ok(_) => panic!("a fatal error must not be recovered"),
        Err(p) => p,
    };
    let p = p.inore_fail();
    match p.recover(7u32) {
        Ok((input, state)) => {
            assert_eq!(input, 7);
            assert!(state.is_some());
            assert_eq!(state.unwrap().into_error().span(), Span::Range(0..1));
        }
        Err(_) => panic!("a non-fatal error must be recovered"),
    }
}

#[test]
fn pretty_print_custom() {
    let e = Error::<u8>::new_custom(Span::Range(1..2), "bad thing".to_string());
    let options: PrettyPrintOptions<fn(&u8) -> String> =
        PrettyPrintOptions { source: Some("abc"), file_name: Some("f.rt"), rename_token: None };
    assert_eq!(e.pretty_print(&options), " --> f.rt:1:2\n  |\n1 |    abc\n  |     ^\n  |\n  = bad thing");
}

#[test]
fn pretty_print_expected_without_source() {
    let e = Error::new_expected(Span::Eoi, vec![TokenOrEoi::Token(1u8), TokenOrEoi::Eoi], TokenOrEoi::Eoi);
    let options: PrettyPrintOptions<fn(&u8) -> String> = PrettyPrintOptions::default();
    assert_eq!(e.pretty_print(&options), "  = found: EOI, expected one of: 1, EOI");
}

#[test]
fn pretty_print_renames_tokens() {
    let e = Error::new_expected(Span::Eoi, vec![TokenOrEoi::Token(1u8), TokenOrEoi::Token(2)], TokenOrEoi::Token(3));
    let rename = |t: &u8| format!("<{}>", t);
    let options = PrettyPrintOptions { source: None, file_name: None, rename_token: Some(rename) };
    assert_eq!(e.pretty_print(&options), "  = found: <3>, expected one of: <1>, <2>");
}

#[test]
fn expected_message_lists_names() {
    assert_eq!(expected_message("x", &vec![]), "found: x, expected one of: ");
    assert_eq!(
        expected_message("x", &vec!["a".to_string(), "b".to_string()]),
        "found: x, expected one of: a, b"
    );
}

#[test]
fn token_names() {
    assert_eq!(token_str::<u8, fn(&u8) -> String>(&TokenOrEoi::Eoi, None), "EOI");
    assert_eq!(token_str::<u8, fn(&u8) -> String>(&TokenOrEoi::Token(5), None), "5");
}

#[test]
fn parser_error_into_error() {
    let p = StateError::<u8>::none().and(Error::new_expected_negative(Span::Range(2..3), "no".to_string()));
    let e: Error<u8> = p.into();
    assert_eq!(e.span(), Span::Range(2..3));
    match e.kind() {
        ErrorKind::ExpectedNegative(m) => assert_eq!(m, "no"),
        _ => panic!("not a negative error"),
    }
}

use rt_easy::pretty_error::{Error, Span};
use rt_easy::pretty_error::render::can_render;

#[test]
fn message_only() {
    assert_eq!(Error::new("something failed").to_string(), "  = something failed");
}

#[test]
fn message_with_error_code() {
    let e = Error::new("bad").with_error_code("E42");
    assert_eq!(e.to_string(), "  = bad E42");
}

#[test]
fn message_lines_are_indented() {
    assert_eq!(Error::new("first\nsecond").to_string(), "  = first\n    second");
    assert_eq!(Error::new("first\r\nsecond\n").to_string(), "  = first\n    second");
}

#[test]
fn source_excerpt() {
    let e = Error::new("msg").with_source("let x = 1;\n", Span::Range(4..5));
    assert_eq!(e.to_string(), " --> 1:5\n  |\n1 |    let x = 1;\n  |        ^\n  |\n  = msg");
}

#[test]
fn source_excerpt_with_file_name() {
    let e = Error::new("msg").with_source("let x = 1;\n", Span::Range(4..7)).with_file_name("a.rt");
    assert_eq!(
        e.to_string(),
        " --> a.rt:1:5\n  |\n1 |    let x = 1;\n  |        ^^^\n  |\n  = msg"
    );
}

#[test]
fn source_excerpt_at_end_of_input() {
    let e = Error::new("m").with_source("ab", Span::Eoi);
    assert_eq!(e.to_string(), " --> 1:3\n  |\n1 |    ab\n  |      ^\n  |\n  = m");
}

#[test]
fn source_excerpt_over_two_lines() {
    let e = Error::new("m").with_source("ab\ncd", Span::Range(1..4));
    assert_eq!(
        e.to_string(),
        " --> 1:2\n  |\n1 |    ab\n  |     ^\n2 |    cd\n  |    ^\n  |\n  = m"
    );
}

#[test]
fn colored_message() {
    let e = Error::new("m").with_ansi_colors(true);
    assert_eq!(e.to_string(), "  = \u{1b}[31mm\u{1b}[0m");
}

#[test]
fn colored_source_excerpt() {
    let e = Error::new("m").with_source("a", Span::Range(0..1)).with_ansi_colors(true);
    let blue = |s: &str| format!("\u{1b}[34m{}\u{1b}[0m", s);
    let red = |s: &str| format!("\u{1b}[31m{}\u{1b}[0m", s);
    let expected = format!(
        " {}1:1\n{}  {}\n{} {}    a\n{}  {}    {}\n{}  {}\n  = {}",
        blue("--> "),
        blue(""),
        blue("|"),
        blue("1"),
        blue("|"),
        blue(""),
        blue("|"),
        red("^"),
        blue(""),
        blue("|"),
        red("m"),
    );
    assert_eq!(e.to_string(), expected);
}

#[test]
fn builders_keep_fields() {
    let e = Error::new("m").with_error_code("c").with_file_name("f").with_ansi_colors(true);
    assert_eq!(e.message, "m");
    assert_eq!(e.error_code, Some("c"));
    assert_eq!(e.file_name, Some("f"));
    assert!(e.ansi_colors);
    assert!(e.source.is_none());
}

#[test]
fn can_render_checks_the_span() {
    assert!(can_render("ab\ncd", Span::Range(1..2)));
    assert!(can_render("ab", Span::Eoi));
    assert!(!can_render("a\r\nb", Span::Range(2..3)));
}

//! Rendering a parse error for people: the message names the tokens, the
//! rest is the pretty error of the message at the error's span.

use super::error::{Error, ErrorKind, KindView, TokenOrEoi};
use crate::pretty_error::lines::join;
use crate::pretty_error::render::{opt_str_view, render_text, source_renderable};
use crate::pretty_error::Span;
use crate::text::chars::push_str;
use vstd::prelude::*;

verus! {

/// How to print an error: the source it points into, the file name, and how
/// to name a token (else by its `Debug` form).
pub struct PrettyPrintOptions<'a, F> {
    pub source: Option<&'a str>,
    pub file_name: Option<&'a str>,
    pub rename_token: Option<F>,
}

impl<'a, F> Default for PrettyPrintOptions<'a, F> {
    fn default() -> (res: Self)
        ensures
            res.source is None,
            res.file_name is None,
            res.rename_token is None,
    {
        Self { source: None, file_name: None, rename_token: None }
    }
}

/// The name of the end of the input.
pub open spec fn eoi_name() -> Seq<char> {
    seq!['E', 'O', 'I']
}

/// `format!("{:?}", t)`.
///
/// Trusted, and nothing is claimed of the result: it is whatever the `Debug`
/// impl of `T` writes.
#[verifier::external_body]
fn debug_string<T: std::fmt::Debug>(t: &T) -> String {
    format!("{:?}", t)
}

/// The name of a token: `EOI` for the end of the input, else what
/// `rename_token` gives, else its `Debug` form.
pub fn token_str<T: std::fmt::Debug, F: Fn(&T) -> String>(
    token: &TokenOrEoi<T>,
    rename_token: Option<&F>,
) -> (res: String)
    requires
        rename_token matches Some(f) ==> forall|t: &T| f.requires((t,)),
    ensures
        token is Eoi ==> res@ == eoi_name(),
        token matches TokenOrEoi::Token(t) ==> (rename_token matches Some(f) ==> f.ensures(
            (&t,),
            res,
        )),
{
    match token {
        TokenOrEoi::Eoi => {
            proof {
                reveal_strlit("EOI");
            }
            "EOI".to_owned()
        },
        TokenOrEoi::Token(t) => match rename_token {
            Some(f) => f(t),
            None => debug_string(t),
        },
    }
}

/// The message of an expected-token error: what was found, then the
/// expected tokens separated by commas.
pub open spec fn expected_text(found: Seq<char>, names: Seq<Seq<char>>) -> Seq<char> {
    seq!['f', 'o', 'u', 'n', 'd', ':', ' '] + found + seq![
        ',',
        ' ',
        'e',
        'x',
        'p',
        'e',
        'c',
        't',
        'e',
        'd',
        ' ',
        'o',
        'n',
        'e',
        ' ',
        'o',
        'f',
        ':',
        ' ',
    ] + join(names, seq![',', ' '])
}

/// The message of an expected-token error, from the name of the found
/// token and the names of the expected ones.
pub fn expected_message(found: &str, expected: &Vec<String>) -> (res: String)
    ensures
        res@ == expected_text(found@, expected@.map_values(|s: String| s@)),
{
    let ghost names = expected@.map_values(|s: String| s@);
    let mut out: Vec<char> = Vec::new();
    proof {
        reveal_strlit("found: ");
        reveal_strlit(", expected one of: ");
    }
    push_str(&mut out, "found: ");
    push_str(&mut out, found);
    push_str(&mut out, ", expected one of: ");
    let ghost head = out@;
    let mut i: usize = 0;
    assert(names.take(0) =~= Seq::<Seq<char>>::empty());
    while i < expected.len()
        invariant
            i <= expected@.len(),
            names == expected@.map_values(|s: String| s@),
            out@ == head + join(names.take(i as int), seq![',', ' ']),
        decreases expected@.len() - i,
    {
        if i > 0 {
            out.push(',');
            out.push(' ');
        }
        push_str(&mut out, expected[i].as_str());
        proof {
            assert(names.take(i + 1).drop_last() =~= names.take(i as int));
            if i == 0 {
                assert(out@ =~= head + names.take(1)[0]);
            } else {
                assert(out@ =~= head + (join(names.take(i as int), seq![',', ' ']) + seq![',', ' ']
                    + names[i as int]));
            }
        }
        i = i + 1;
    }
    assert(names.take(names.len() as int) =~= names);
    assert(out@ =~= expected_text(found@, names));
    crate::text::chars::string_from_chars(&out)
}

/// The source to show for an error at `span`.
pub open spec fn print_source(source: Option<&str>, span: Span) -> Option<(Seq<char>, Span)> {
    match source {
        Some(s) => Some((s@, span)),
        None => None,
    }
}

/// The error at `span` can be shown in `source`, if one is given.
pub open spec fn print_renderable(source: Option<&str>, span: Span) -> bool {
    match source {
        Some(s) => source_renderable(s@, span),
        None => true,
    }
}

/// `name` is the name of `token`: `EOI` for the end of the input, else a
/// name that `rename` gives for the token, where a `rename` is given (else
/// its `Debug` form, of which nothing is known).
pub open spec fn token_named<T, F: Fn(&T) -> String>(
    token: TokenOrEoi<T>,
    rename: Option<F>,
    name: Seq<char>,
) -> bool {
    match token {
        TokenOrEoi::Eoi => name == eoi_name(),
        TokenOrEoi::Token(t) => match rename {
            Some(f) => exists|s: String| #[trigger] f.ensures((&t,), s) && s@ == name,
            None => true,
        },
    }
}

/// Names fit the tokens: `found_name` is the found token's name, and
/// `names` holds the name of each expected token, in order.
pub open spec fn names_fit<T, F: Fn(&T) -> String>(
    expected: Seq<TokenOrEoi<T>>,
    found: TokenOrEoi<T>,
    rename: Option<F>,
    found_name: Seq<char>,
    names: Seq<Seq<char>>,
) -> bool {
    &&& token_named(found, rename, found_name)
    &&& names.len() == expected.len()
    &&& forall|i: int| 0 <= i < expected.len() ==> #[trigger] token_named(expected[i], rename, names[i])
}

impl<T> Error<T> {
    /// The pretty error of `message` at this error's span, shown in the
    /// source and under the file name of `options` where they are given.
    pub fn render_message<F>(&self, message: &str, options: &PrettyPrintOptions<F>) -> (res: String)
        requires
            print_renderable(options.source, self.spec_span()),
        ensures
            res@ == render_text(
                message@,
                None,
                print_source(options.source, self.spec_span()),
                opt_str_view(options.file_name),
                false,
            ),
    {
        let mut error = crate::pretty_error::Error::new(message);
        if let Some(source) = options.source {
            error = error.with_source(source, self.span());
        }
        if let Some(file_name) = options.file_name {
            error = error.with_file_name(file_name);
        }
        error.to_string()
    }

    /// The error for people: for an expected-token error, what was found
    /// and what was expected, else its message; at its span in the source.
    pub fn pretty_print<F: Fn(&T) -> String>(&self, options: &PrettyPrintOptions<F>) -> (res:
        String) where T: std::fmt::Debug
        requires
            print_renderable(options.source, self.spec_span()),
            options.rename_token matches Some(f) ==> forall|t: &T| f.requires((t,)),
        ensures
            match self.spec_kind() {
                KindView::Custom(m) => res@ == render_text(
                    m@,
                    None,
                    print_source(options.source, self.spec_span()),
                    opt_str_view(options.file_name),
                    false,
                ),
                KindView::ExpectedNegative(m) => res@ == render_text(
                    m@,
                    None,
                    print_source(options.source, self.spec_span()),
                    opt_str_view(options.file_name),
                    false,
                ),
                KindView::Expected(x, f) => exists|found_name: Seq<char>, names: Seq<Seq<char>>|
                    #![trigger expected_text(found_name, names)]
                    names_fit(x, f, options.rename_token, found_name, names) && res@ == render_text(
                        expected_text(found_name, names),
                        None,
                        print_source(options.source, self.spec_span()),
                        opt_str_view(options.file_name),
                        false,
                    ),
            },
    {
        let rename = options.rename_token.as_ref();
        assert(rename matches Some(f) ==> forall|t: &T| f.requires((t,)));
        match self.kind() {
            ErrorKind::Expected(expected, found) => {
                let found_name = token_str(found, rename);
                proof {
                    match found {
                        TokenOrEoi::Token(t) => match &options.rename_token {
                            Some(f) => {
                                assert(f.ensures((t,), found_name));
                            },
                            None => {},
                        },
                        TokenOrEoi::Eoi => {},
                    }
                }
                let mut names: Vec<String> = Vec::new();
                let mut i: usize = 0;
                while i < expected.len()
                    invariant
                        i <= expected@.len(),
                        names@.len() == i,
                        rename is None <==> options.rename_token is None,
                        rename matches Some(f) ==> options.rename_token matches Some(g) && *f == g,
                        rename matches Some(f) ==> forall|t: &T| f.requires((t,)),
                        forall|k: int|
                            0 <= k < i ==> #[trigger] token_named(
                                expected@[k],
                                options.rename_token,
                                names@[k]@,
                            ),
                    decreases expected@.len() - i,
                {
                    let name = token_str(&expected[i], rename);
                    proof {
                        match &expected@[i as int] {
                            TokenOrEoi::Token(t) => match &options.rename_token {
                                Some(f) => {
                                    assert(f.ensures((t,), name));
                                },
                                None => {},
                            },
                            TokenOrEoi::Eoi => {},
                        }
                    }
                    names.push(name);
                    i = i + 1;
                }
                let message = expected_message(found_name.as_str(), &names);
                let res = self.render_message(message.as_str(), options);
                proof {
                    let nv = names@.map_values(|s: String| s@);
                    assert(names_fit(expected@, *found, options.rename_token, found_name@, nv));
                    assert(expected_text(found_name@, nv) == message@);
                }
                res
            },
            ErrorKind::ExpectedNegative(m) => self.render_message(m.as_str(), options),
            ErrorKind::Custom(m) => self.render_message(m.as_str(), options),
        }
    }
}

} // verus!

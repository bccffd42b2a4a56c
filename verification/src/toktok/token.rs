use super::error::{Error, ErrorView, KindView, TokenOrEoi};
use crate::pretty_error::locations::byte_len;
use crate::pretty_error::Span;
use std::ops::Range;
use vstd::prelude::*;

verus! {

/// A token with the byte range of the source that it covers.
#[derive(Debug)]
pub struct SpannedToken<T> {
    pub token: T,
    pub span: Range<usize>,
}

/// The tokens with byte spans are the tokens of `cs` with the given
/// character ranges.
pub open spec fn spans_match<T>(cs: Seq<char>, toks: Seq<SpannedToken<T>>, chars: Seq<(T, int, int)>) -> bool {
    &&& toks.len() == chars.len()
    &&& forall|k: int|
        0 <= k < toks.len() ==> {
            let (t, s, e) = #[trigger] chars[k];
            &&& toks[k].token == t
            &&& toks[k].span.start == byte_len(cs.take(s))
            &&& toks[k].span.end == byte_len(cs.take(e))
        }
}

/// The error for a failure at token `j` of `toks` in `cs`: found there is
/// that token (the end of the input past the last one), with its span.
pub open spec fn fail_view<T>(
    cs: Seq<char>,
    toks: Seq<(T, int, int)>,
    j: int,
    expected: Seq<TokenOrEoi<T>>,
) -> ErrorView<T> {
    if 0 <= j < toks.len() {
        ErrorView {
            span: Span::Range(
                (byte_len(cs.take(toks[j].1)) as usize)..(byte_len(cs.take(toks[j].2)) as usize),
            ),
            is_fail: false,
            kind: KindView::Expected(expected, TokenOrEoi::Token(toks[j].0)),
        }
    } else {
        ErrorView { span: Span::Eoi, is_fail: false, kind: KindView::Expected(expected, TokenOrEoi::Eoi) }
    }
}

/// The error at token `j`: the token found there (the end of the input
/// past the last one) with its span, and the tokens that would fit.
pub fn fail_error<T: Copy>(
    toks: &Vec<SpannedToken<T>>,
    j: usize,
    expected: Vec<TokenOrEoi<T>>,
    Ghost(cs): Ghost<Seq<char>>,
    Ghost(chars): Ghost<Seq<(T, int, int)>>,
) -> (res: Error<T>)
    requires
        spans_match(cs, toks@, chars),
    ensures
        res@ == fail_view(cs, chars, j as int, expected@),
{
    if j < toks.len() {
        let t = &toks[j];
        proof {
            let (tk, s, e) = chars[j as int];
        }
        Error::new_expected(Span::Range(t.span.start..t.span.end), expected, TokenOrEoi::Token(t.token))
    } else {
        Error::new_expected(Span::Eoi, expected, TokenOrEoi::Eoi)
    }
}

} // verus!

use crate::pretty_error::Span;
use vstd::prelude::*;

verus! {

/// The error state carried along by a parser: the furthest error met so
/// far, if any.
#[derive(Debug)]
pub struct StateError<T>(Option<Error<T>>);

/// An error that ends a parse.
#[derive(Debug)]
pub struct ParserError<T>(Error<T>);

/// A parse error: where it happened, whether it is fatal, and what went
/// wrong.
#[derive(Debug)]
pub struct Error<T> {
    span: Span,
    is_fail: bool,
    kind: ErrorKind<T>,
}

/// What went wrong. The messages of the non-token kinds are kept as text.
#[derive(Debug)]
pub enum ErrorKind<T> {
    /// Any of the listed tokens was expected, the last one was found.
    Expected(Vec<TokenOrEoi<T>>, TokenOrEoi<T>),
    /// Something was found that must not appear here.
    ExpectedNegative(String),
    /// An error of the user of the parser.
    Custom(String),
}

/// A token, or the end of the input.
#[derive(Debug, PartialEq, Eq, Hash)]
pub enum TokenOrEoi<T> {
    Token(T),
    Eoi,
}

/// The kind of an error with the expected tokens as a sequence.
pub enum KindView<T> {
    Expected(Seq<TokenOrEoi<T>>, TokenOrEoi<T>),
    ExpectedNegative(String),
    Custom(String),
}

/// An error with the expected tokens as a sequence.
pub struct ErrorView<T> {
    pub span: Span,
    pub is_fail: bool,
    pub kind: KindView<T>,
}

impl<T> View for ErrorKind<T> {
    type V = KindView<T>;

    open spec fn view(&self) -> KindView<T> {
        match self {
            ErrorKind::Expected(x, f) => KindView::Expected(x@, *f),
            ErrorKind::ExpectedNegative(m) => KindView::ExpectedNegative(*m),
            ErrorKind::Custom(m) => KindView::Custom(*m),
        }
    }
}

impl<T> View for Error<T> {
    type V = ErrorView<T>;

    closed spec fn view(&self) -> ErrorView<T> {
        ErrorView { span: self.span, is_fail: self.is_fail, kind: self.kind@ }
    }
}

/// The view of an optional error.
pub open spec fn opt_view<T>(e: Option<Error<T>>) -> Option<ErrorView<T>> {
    match e {
        Some(e) => Some(e@),
        None => None,
    }
}

impl<T> StateError<T> {
    /// The error carried, if any.
    pub closed spec fn inner(self) -> Option<Error<T>> {
        self.0
    }

    /// No error so far.
    pub fn none() -> (res: Self)
        ensures
            res.inner() is None,
    {
        Self(None)
    }

    /// Whether an error was met so far.
    pub fn is_some(&self) -> (res: bool)
        ensures
            res == self.inner() is Some,
    {
        self.0.is_some()
    }

    /// The error met so far, as an error that ends the parse.
    pub fn unwrap(self) -> (res: ParserError<T>)
        requires
            self.inner() is Some,
        ensures
            res.inner()@ == self.inner()->0@,
    {
        match self.0 {
            Some(e) => ParserError(e),
            None => {
                proof {
                    assert(false);
                }
                unreached()
            },
        }
    }

    /// The error met so far merged with `err`.
    pub fn and(self, err: Error<T>) -> (res: ParserError<T>)
        ensures
            res.inner()@ == Error::spec_merge(opt_view(self.inner()), err@),
    {
        ParserError(Error::merge(self.0, err))
    }
}

impl<T> ParserError<T> {
    /// The error.
    pub closed spec fn inner(self) -> Error<T> {
        self.0
    }

    /// Continues parsing at `input` with this error remembered, unless the
    /// error is fatal: then it is handed back.
    pub fn recover<I>(self, input: I) -> (res: Result<(I, StateError<T>), Self>)
        ensures
            self.inner().spec_is_fail() ==> res == Err::<(I, StateError<T>), Self>(self),
            !self.inner().spec_is_fail() ==> (res matches Ok((i, s)) && i == input && opt_view(
                s.inner(),
            ) == Some(self.inner()@)),
    {
        if self.0.is_fail {
            Err(self)
        } else {
            Ok((input, StateError(Some(self.0))))
        }
    }

    /// The same error, not fatal.
    pub fn inore_fail(self) -> (res: Self)
        ensures
            res.inner()@ == (ErrorView { is_fail: false, ..self.inner()@ }),
    {
        let mut e = self;
        e.0.is_fail = false;
        e
    }

    /// The same error, fatal.
    pub fn with_is_fail(self) -> (res: Self)
        ensures
            res.inner()@ == (ErrorView { is_fail: true, ..self.inner()@ }),
    {
        let mut e = self;
        e.0.is_fail = true;
        e
    }

    /// Whether the error is fatal.
    pub fn is_fail(&self) -> (res: bool)
        ensures
            res == self.inner().spec_is_fail(),
    {
        self.0.is_fail
    }

    /// The error.
    pub fn into_error(self) -> (res: Error<T>)
        ensures
            res@ == self.inner()@,
    {
        self.0
    }
}

impl<T> Error<T> {
    pub open spec fn spec_span(self) -> Span {
        self@.span
    }

    pub open spec fn spec_is_fail(self) -> bool {
        self@.is_fail
    }

    pub open spec fn spec_kind(self) -> KindView<T> {
        self@.kind
    }

    /// A non-fatal error of the user of the parser.
    pub fn new_custom(span: Span, err: String) -> (res: Self)
        ensures
            res@ == (ErrorView { span, is_fail: false, kind: KindView::<T>::Custom(err) }),
    {
        Self { span, is_fail: false, kind: ErrorKind::Custom(err) }
    }

    /// A non-fatal error: one of `expected` was expected, `found` was found.
    pub fn new_expected(span: Span, expected: Vec<TokenOrEoi<T>>, found: TokenOrEoi<T>) -> (res: Self)
        ensures
            res@ == (ErrorView { span, is_fail: false, kind: KindView::Expected(expected@, found) }),
    {
        Self { span, is_fail: false, kind: ErrorKind::Expected(expected, found) }
    }

    /// A non-fatal error: something was found that must not appear here.
    pub fn new_expected_negative(span: Span, err: String) -> (res: Self)
        ensures
            res@ == (ErrorView { span, is_fail: false, kind: KindView::<T>::ExpectedNegative(err) }),
    {
        Self { span, is_fail: false, kind: ErrorKind::ExpectedNegative(err) }
    }

    /// The same error, fatal.
    pub fn with_is_fail(self) -> (res: Self)
        ensures
            res@ == (ErrorView { is_fail: true, ..self@ }),
    {
        let mut e = self;
        e.is_fail = true;
        e
    }

    /// Whether the error is fatal.
    pub fn is_fail(&self) -> (res: bool)
        ensures
            res == self.spec_is_fail(),
    {
        self.is_fail
    }

    /// Where the error happened.
    pub fn span(&self) -> (res: Span)
        ensures
            res == self.spec_span(),
    {
        self.span.clone()
    }

    /// What went wrong.
    pub fn kind(&self) -> (res: &ErrorKind<T>)
        ensures
            res@ == self.spec_kind(),
    {
        &self.kind
    }

    /// The kind of two errors at the same place merged: the expected tokens
    /// of both, or else the first message of the most severe kind (a custom
    /// error over an unexpected item over an expected token).
    pub open spec fn merge_kinds(k1: KindView<T>, k2: KindView<T>) -> KindView<T> {
        match (k1, k2) {
            (KindView::Custom(m1), KindView::Custom(_)) => KindView::Custom(m1),
            (KindView::Expected(x1, f1), KindView::Expected(x2, _)) => KindView::Expected(
                x1 + x2,
                f1,
            ),
            (KindView::ExpectedNegative(m1), KindView::ExpectedNegative(_)) => {
                KindView::ExpectedNegative(m1)
            },
            (_, KindView::Custom(m)) => KindView::Custom(m),
            (KindView::Custom(m), _) => KindView::Custom(m),
            (_, KindView::ExpectedNegative(m)) => KindView::ExpectedNegative(m),
            (KindView::ExpectedNegative(m), _) => KindView::ExpectedNegative(m),
        }
    }

    /// Of two errors the one further into the input; at the same place the
    /// two merged, fatal if either is.
    pub open spec fn spec_merge(e1: Option<ErrorView<T>>, e2: ErrorView<T>) -> ErrorView<T> {
        match e1 {
            None => e2,
            Some(e1) => if span_before(e2.span, e1.span) {
                e1
            } else if span_before(e1.span, e2.span) {
                e2
            } else {
                ErrorView {
                    span: e1.span,
                    kind: Self::merge_kinds(e1.kind, e2.kind),
                    is_fail: e1.is_fail || e2.is_fail,
                }
            },
        }
    }

    /// Of two errors the one further into the input; at the same place the
    /// two merged, fatal if either is.
    pub fn merge(e1: Option<Self>, e2: Self) -> (res: Self)
        ensures
            res@ == Self::spec_merge(opt_view(e1), e2@),
    {
        let e1 = match e1 {
            Some(e1) => e1,
            None => return e2,
        };
        if super::order::span_lt(&e2.span, &e1.span) {
            e1
        } else if super::order::span_lt(&e1.span, &e2.span) {
            e2
        } else {
            let kind = match (e1.kind, e2.kind) {
                (ErrorKind::Custom(m1), ErrorKind::Custom(_)) => ErrorKind::Custom(m1),
                (ErrorKind::Expected(x1, f1), ErrorKind::Expected(x2, _)) => {
                    let mut x = x1;
                    let mut y = x2;
                    x.append(&mut y);
                    ErrorKind::Expected(x, f1)
                },
                (ErrorKind::ExpectedNegative(m1), ErrorKind::ExpectedNegative(_)) => {
                    ErrorKind::ExpectedNegative(m1)
                },
                (_, ErrorKind::Custom(m)) => ErrorKind::Custom(m),
                (ErrorKind::Custom(m), _) => ErrorKind::Custom(m),
                (_, ErrorKind::ExpectedNegative(m)) => ErrorKind::ExpectedNegative(m),
                (ErrorKind::ExpectedNegative(m), _) => ErrorKind::ExpectedNegative(m),
            };
            Error { span: e1.span, kind, is_fail: e1.is_fail || e2.is_fail }
        }
    }
}

impl<T> From<ParserError<T>> for Error<T> {
    fn from(e: ParserError<T>) -> (res: Error<T>) {
        e.0
    }
}

impl<T> vstd::std_specs::convert::FromSpecImpl<ParserError<T>> for Error<T> {
    open spec fn obeys_from_spec() -> bool {
        true
    }

    open spec fn from_spec(e: ParserError<T>) -> Error<T> {
        e.inner()
    }
}

/// `a` lies before `b`: a range before the end of the input, or a range
/// ending first, or ending together and starting first.
pub open spec fn span_before(a: Span, b: Span) -> bool {
    match (a, b) {
        (Span::Range(_), Span::Eoi) => true,
        (Span::Range(r1), Span::Range(r2)) => r1.end < r2.end || (r1.end == r2.end && r1.start
            < r2.start),
        _ => false,
    }
}

/// Merging into no earlier error gives the new error.
pub proof fn law_merge_none<T>(e: ErrorView<T>)
    ensures
        Error::<T>::spec_merge(None, e) == e,
{
}

/// Of two errors at different places the one further into the input wins,
/// whichever came first.
pub proof fn law_merge_furthest_wins<T>(a: ErrorView<T>, b: ErrorView<T>)
    requires
        a.span != b.span,
    ensures
        Error::<T>::spec_merge(Some(a), b) == Error::<T>::spec_merge(Some(b), a),
        span_before(a.span, b.span) ==> Error::<T>::spec_merge(Some(a), b) == b,
        span_before(b.span, a.span) ==> Error::<T>::spec_merge(Some(a), b) == a,
{
    match (a.span, b.span) {
        (Span::Range(r1), Span::Range(r2)) => {
            if r1.start == r2.start && r1.end == r2.end {
                assert(a.span == b.span);
            }
        },
        _ => {},
    }
}

/// Two errors at the same place merge into one that is fatal if either is,
/// and whose expected tokens are those of both.
pub proof fn law_merge_same_place<T>(a: ErrorView<T>, b: ErrorView<T>)
    requires
        a.span == b.span,
    ensures
        Error::<T>::spec_merge(Some(a), b).span == a.span,
        Error::<T>::spec_merge(Some(a), b).is_fail == (a.is_fail || b.is_fail),
        a.kind is Expected && b.kind is Expected ==> Error::<T>::spec_merge(Some(a), b).kind
            == KindView::Expected(a.kind->Expected_0 + b.kind->Expected_0, a.kind->Expected_1),
{
    match a.span {
        Span::Range(r) => {},
        Span::Eoi => {},
    }
}

} // verus!

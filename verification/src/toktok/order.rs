use super::error::{span_before, Error};
use crate::pretty_error::Span;
use std::cmp::Ordering;
use vstd::prelude::*;

verus! {

/// Whether `a` lies before `b` (see `span_before`).
pub fn span_lt(a: &Span, b: &Span) -> (res: bool)
    ensures
        res == span_before(*a, *b),
{
    match (a, b) {
        (Span::Range(_), Span::Eoi) => true,
        (Span::Range(r1), Span::Range(r2)) => r1.end < r2.end || (r1.end == r2.end && r1.start
            < r2.start),
        _ => false,
    }
}

impl<T> Error<T> {
    /// The order of two errors by how far into the input they lie.
    pub fn cmp(&self, other: &Self) -> (res: Ordering)
        ensures
            res == (if span_before(self.spec_span(), other.spec_span()) {
                Ordering::Less
            } else if span_before(other.spec_span(), self.spec_span()) {
                Ordering::Greater
            } else {
                Ordering::Equal
            }),
    {
        let a = self.span();
        let b = other.span();
        if span_lt(&a, &b) {
            Ordering::Less
        } else if span_lt(&b, &a) {
            Ordering::Greater
        } else {
            Ordering::Equal
        }
    }
}

} // verus!

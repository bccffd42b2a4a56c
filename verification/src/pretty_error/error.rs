use std::ops::Range;
use vstd::prelude::*;

verus! {

/// Where in the source an error lies: at the end of the input, or over a
/// range of byte offsets.
#[derive(Debug, PartialEq, Eq)]
pub enum Span {
    Eoi,
    Range(Range<usize>),
}

impl Clone for Span {
    fn clone(&self) -> (res: Span)
        ensures
            res == *self,
    {
        match self {
            Span::Eoi => Span::Eoi,
            Span::Range(r) => Span::Range(r.start..r.end),
        }
    }
}

/// An error message, with optional error code, source excerpt, file name
/// and coloring.
#[derive(Debug)]
pub struct Error<'a> {
    pub message: &'a str,
    pub error_code: Option<&'a str>,
    pub source: Option<(&'a str, Span)>,
    pub file_name: Option<&'a str>,
    pub ansi_colors: bool,
}

impl<'a> Error<'a> {
    /// An error with just a message.
    pub fn new(message: &'a str) -> (res: Self)
        ensures
            res.message == message,
            res.error_code is None,
            res.source is None,
            res.file_name is None,
            !res.ansi_colors,
    {
        Self { message, error_code: None, source: None, file_name: None, ansi_colors: false }
    }

    /// The same error with an error code.
    pub fn with_error_code(self, error_code: &'a str) -> (res: Self)
        ensures
            res == (Self { error_code: Some(error_code), ..self }),
    {
        let mut e = self;
        e.error_code = Some(error_code);
        e
    }

    /// The same error pointing at `span` in `source`.
    pub fn with_source(self, source: &'a str, span: Span) -> (res: Self)
        ensures
            res == (Self { source: Some((source, span)), ..self }),
    {
        let mut e = self;
        e.source = Some((source, span));
        e
    }

    /// The same error naming the file of the source.
    pub fn with_file_name(self, file_name: &'a str) -> (res: Self)
        ensures
            res == (Self { file_name: Some(file_name), ..self }),
    {
        let mut e = self;
        e.file_name = Some(file_name);
        e
    }

    /// The same error, rendered with or without ANSI colors.
    pub fn with_ansi_colors(self, ansi_colors: bool) -> (res: Self)
        ensures
            res == (Self { ansi_colors, ..self }),
    {
        let mut e = self;
        e.ansi_colors = ansi_colors;
        e
    }
}

} // verus!

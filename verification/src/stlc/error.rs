use crate::span::Span;
use vstd::prelude::*;

verus! {

/// What went wrong: either two types that had to agree did not, or a
/// variable reference has no binding.
#[derive(Debug, PartialEq)]
pub enum ErrorKind {
    TypeMismatch { expected: String, found_type: String, found_span: Span },
    UndefinedSymbol { name: char, span: Span },
}

/// A checking error: its kind plus the span of the enclosing term the
/// checker was working on when it was raised.
#[derive(Debug, PartialEq)]
pub struct Error {
    pub kind: ErrorKind,
    pub span: Span,
}

impl Error {
    pub fn new(kind: ErrorKind, span: Span) -> (e: Error)
        ensures
            e == (Error { kind, span }),
    {
        Error { kind, span }
    }
}

} // verus!

use vstd::prelude::*;

verus! {

/// A byte range in the source text.  Every term carries the span it was
/// read from, and every error carries the span it should be reported at.
#[derive(Clone, Copy, Debug, PartialEq, Eq, Structural)]
pub struct Span {
    pub start: usize,
    pub end: usize,
}

impl Span {
    pub fn new(start: usize, end: usize) -> (s: Span)
        ensures
            s == (Span { start, end }),
    {
        Span { start, end }
    }
}

} // verus!

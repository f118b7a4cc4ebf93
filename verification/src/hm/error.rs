use crate::span::Span;
use vstd::prelude::*;

verus! {

/// The errors an inference run can end with.  The tree walk raises only
/// `UndefinedSymbol`; the unifier raises `UnificationFailure` when two
/// incompatible concrete types are required to be equal, and
/// `InfiniteType` when a type variable would have to contain itself.
/// `UntypeableExpression` belongs to the reporting vocabulary; no rule
/// of this engine raises it.
#[derive(Debug, PartialEq)]
pub enum Error {
    UnificationFailure { expected: String, found: String, span: Span },
    UntypeableExpression { span: Span },
    InfiniteType { span: Span },
    UndefinedSymbol { name: char, span: Span },
}

} // verus!

use crate::span::Span;
use vstd::prelude::*;

verus! {

/// A named variable occurrence, with the span it was read from.
#[derive(Debug, Clone)]
pub struct Variable {
    pub name: char,
    pub span: Span,
}

/// One binding `x = e` of a `let` or `letrec`.
#[derive(Debug)]
pub struct Bind {
    pub variable: Variable,
    pub expression: Expression,
}

/// The term tree of the implicitly typed language, as a parser produces it.
/// The inference engine only consumes it.
#[derive(Debug)]
pub enum Expression {
    Variable(Variable),
    Abstraction { variable: Variable, expression: Box<Expression>, span: Span },
    Application { callee: Box<Expression>, arg: Box<Expression>, span: Span },
    Addition { lhs: Box<Expression>, rhs: Box<Expression>, span: Span },
    Let { bind: Box<Bind>, body: Box<Expression>, span: Span },
    Letrec { binds: Vec<Bind>, body: Box<Expression>, span: Span },
    Int { n: i32, span: Span },
    Unit { span: Span },
}

impl Expression {
    /// The byte range this term covers in the source text.
    pub open spec fn spec_span(self) -> Span {
        match self {
            Expression::Variable(v) => v.span,
            Expression::Abstraction { span, .. } => span,
            Expression::Application { span, .. } => span,
            Expression::Addition { span, .. } => span,
            Expression::Let { span, .. } => span,
            Expression::Letrec { span, .. } => span,
            Expression::Int { span, .. } => span,
            Expression::Unit { span } => span,
        }
    }

    pub fn get_span(&self) -> (s: Span)
        ensures
            s == self.spec_span(),
    {
        match self {
            Expression::Variable(v) => v.span,
            Expression::Abstraction { span, .. } => *span,
            Expression::Application { span, .. } => *span,
            Expression::Addition { span, .. } => *span,
            Expression::Let { span, .. } => *span,
            Expression::Letrec { span, .. } => *span,
            Expression::Int { span, .. } => *span,
            Expression::Unit { span } => *span,
        }
    }

    /// Number of nodes of the term, counting every binding's right-hand
    /// side.  Inference allocates at most this many fresh type variables
    /// for the term.
    pub open spec fn size(self) -> nat
        decreases self, 0int, 0int,
    {
        match self {
            Expression::Variable(_) => 1,
            Expression::Abstraction { expression, .. } => 1 + expression.size(),
            Expression::Application { callee, arg, .. } => 1 + callee.size() + arg.size(),
            Expression::Addition { lhs, rhs, .. } => 1 + lhs.size() + rhs.size(),
            Expression::Let { bind, body, .. } => 1 + bind.expression.size() + body.size(),
            Expression::Letrec { binds, body, .. } => {
                1 + binds_size_from(binds@, 0) + body.size()
            },
            Expression::Int { .. } => 1,
            Expression::Unit { .. } => 1,
        }
    }
}

/// Total size of the right-hand sides of `binds[i..]`, each counted with
/// one extra node for the binding itself.
pub open spec fn binds_size_from(binds: Seq<Bind>, i: int) -> nat
    decreases binds, 1int, binds.len() - i,
{
    if i < 0 || i >= binds.len() {
        0
    } else {
        1 + binds[i].expression.size() + binds_size_from(binds, i + 1)
    }
}

} // verus!

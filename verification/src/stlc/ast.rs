use crate::span::Span;
use vstd::prelude::*;
use vstd::string::StringExecFns;

verus! {

/// A named variable occurrence, with the span it was read from.
#[derive(Debug, Clone)]
pub struct Variable {
    pub name: char,
    pub span: Span,
}

/// The types of the explicitly typed language: no type variables, since
/// every abstraction annotates its parameter.
#[derive(Debug)]
pub enum Type {
    Function(Box<Type>, Box<Type>),
    Unit,
    Int,
}

impl Type {
    /// Renders the type as text, e.g. `(Int -> Int) -> Unit`.
    pub fn to_string(&self) -> (r: String)
        ensures
            r@ == type_str(*self),
    {
        let mut s = String::new();
        push_type(&mut s, self);
        proof {
            assert(s@ =~= type_str(*self));
        }
        s
    }
}

/// The rendering of a type: `Function` prints right-associatively as
/// `param -> result`, parenthesizing the parameter exactly when it is
/// itself a function type.
pub open spec fn type_str(t: Type) -> Seq<char>
    decreases t,
{
    match t {
        Type::Function(p, r) => {
            let ps = if *p is Function {
                seq!['('] + type_str(*p) + seq![')']
            } else {
                type_str(*p)
            };
            ps + seq![' ', '-', '>', ' '] + type_str(*r)
        },
        Type::Unit => seq!['U', 'n', 'i', 't'],
        Type::Int => seq!['I', 'n', 't'],
    }
}

/// Appends the rendering of `t` to `s`.
fn push_type(s: &mut String, t: &Type)
    ensures
        final(s)@ == old(s)@ + type_str(*t),
    decreases *t,
{
    proof {
        reveal_strlit("(");
        reveal_strlit(")");
        reveal_strlit(" -> ");
        reveal_strlit("Unit");
        reveal_strlit("Int");
    }
    match t {
        Type::Function(p, r) => {
            let parenthesize = matches!(&**p, Type::Function(..));
            if parenthesize {
                s.append("(");
            }
            push_type(s, &**p);
            if parenthesize {
                s.append(")");
            }
            s.append(" -> ");
            push_type(s, &**r);
        },
        Type::Unit => {
            s.append("Unit");
        },
        Type::Int => {
            s.append("Int");
        },
    }
    proof {
        assert(s@ =~= old(s)@ + type_str(*t));
    }
}

/// Structural equality, as a plain recursive function.
pub fn type_eq(a: &Type, b: &Type) -> (r: bool)
    ensures
        r == (a == b),
    decreases *a,
{
    match (a, b) {
        (Type::Function(p1, r1), Type::Function(p2, r2)) => {
            type_eq(&**p1, &**p2) && type_eq(&**r1, &**r2)
        },
        (Type::Unit, Type::Unit) => true,
        (Type::Int, Type::Int) => true,
        _ => false,
    }
}

impl PartialEq for Type {
    fn eq(&self, other: &Self) -> (r: bool) {
        type_eq(self, other)
    }
}

impl vstd::std_specs::cmp::PartialEqSpecImpl for Type {
    open spec fn obeys_eq_spec() -> bool {
        true
    }

    open spec fn eq_spec(&self, other: &Type) -> bool {
        *self == *other
    }
}

/// A structural copy of a type.
pub fn copy_type(t: &Type) -> (r: Type)
    ensures
        r == *t,
    decreases *t,
{
    match t {
        Type::Function(p, r) => Type::Function(Box::new(copy_type(&**p)), Box::new(copy_type(&**r))),
        Type::Unit => Type::Unit,
        Type::Int => Type::Int,
    }
}

/// The term tree of the explicitly typed language, as a parser produces
/// it.  Each abstraction carries the declared type of its parameter.
#[derive(Debug)]
pub enum Expression {
    Variable(Variable),
    Abstraction { variable: Variable, typ: Type, expression: Box<Expression>, span: Span },
    Application { callee: Box<Expression>, arg: Box<Expression>, span: Span },
    Addition { lhs: Box<Expression>, rhs: Box<Expression>, span: Span },
    Int { n: i32, span: Span },
    Unit { span: Span },
}

impl Expression {
    /// The byte range this term covers in the source text.
    pub open spec fn spec_span(self) -> Span {
        match self {
            Expression::Variable(v) => v.span,
            Expression::Abstraction { span, .. } => span,
            Expression::Application { span, .. } => span,
            Expression::Addition { span, .. } => span,
            Expression::Int { span, .. } => span,
            Expression::Unit { span } => span,
        }
    }

    pub fn get_span(&self) -> (s: Span)
        ensures
            s == self.spec_span(),
    {
        match self {
            Expression::Variable(v) => v.span,
            Expression::Abstraction { span, .. } => *span,
            Expression::Application { span, .. } => *span,
            Expression::Addition { span, .. } => *span,
            Expression::Int { span, .. } => *span,
            Expression::Unit { span } => *span,
        }
    }
}

} // verus!

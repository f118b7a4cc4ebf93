use crate::span::Span;
use crate::stlc::ast::copy_type;
use crate::stlc::ast::type_eq;
use crate::stlc::ast::type_str;
use crate::stlc::ast::Expression;
use crate::stlc::ast::Type;
use crate::stlc::error::Error;
use crate::stlc::error::ErrorKind;
use vstd::prelude::*;
use vstd::string::StringExecFns;

verus! {

/// The checker for the explicitly typed language.  It owns the
/// variable-typing context; each abstraction extends the context for its
/// own body only and restores it before returning.
pub struct TypeChecker {
    context: Vec<(char, Type)>,
}

/// The binding of `name` in `ctx`, latest first.
pub open spec fn ctx_lookup(ctx: Seq<(char, Type)>, name: char) -> Option<Type>
    decreases ctx.len(),
{
    if ctx.len() == 0 {
        None
    } else if ctx.last().0 == name {
        Some(ctx.last().1)
    } else {
        ctx_lookup(ctx.drop_last(), name)
    }
}

/// What one checking step returned: the type of the term, or the first
/// error, with its message text spelled out as character sequences.
pub ghost enum CheckOut {
    Typed(Type),
    Mismatch { expected: Seq<char>, found_type: Seq<char>, found_span: Span, span: Span },
    Undefined { name: char, span: Span, outer: Span },
}

/// The checking rules, one case per term form.  This is the whole
/// meaning of `TypeChecker::check`: given the term, the context and the
/// span of the enclosing term, the outcome is determined.
pub open spec fn check_spec(e: Expression, ctx: Seq<(char, Type)>, context_span: Span) -> CheckOut
    decreases e,
{
    match e {
        Expression::Variable(v) => match ctx_lookup(ctx, v.name) {
            Some(t) => CheckOut::Typed(t),
            None => CheckOut::Undefined { name: v.name, span: v.span, outer: context_span },
        },
        Expression::Abstraction { variable, typ, expression, span } => {
            let out = check_spec(*expression, ctx.push((variable.name, typ)), span);
            match out {
                CheckOut::Typed(t2) => CheckOut::Typed(
                    Type::Function(Box::new(typ), Box::new(t2)),
                ),
                _ => out,
            }
        },
        Expression::Application { callee, arg, span } => {
            let out1 = check_spec(*callee, ctx, span);
            match out1 {
                CheckOut::Typed(ct) => match ct {
                    Type::Function(head, tail) => {
                        let out2 = check_spec(*arg, ctx, span);
                        match out2 {
                            CheckOut::Typed(at) => if at == *head {
                                CheckOut::Typed(*tail)
                            } else {
                                CheckOut::Mismatch {
                                    expected: type_str(*head),
                                    found_type: type_str(at),
                                    found_span: arg.spec_span(),
                                    span,
                                }
                            },
                            _ => out2,
                        }
                    },
                    _ => CheckOut::Mismatch {
                        expected: seq!['F', 'u', 'n', 'c', 't', 'i', 'o', 'n'],
                        found_type: type_str(ct),
                        found_span: arg.spec_span(),
                        span,
                    },
                },
                _ => out1,
            }
        },
        Expression::Addition { lhs, rhs, span } => {
            let out1 = check_spec(*lhs, ctx, span);
            match out1 {
                CheckOut::Typed(lt) => if lt == Type::Int {
                    let out2 = check_spec(*rhs, ctx, span);
                    match out2 {
                        CheckOut::Typed(rt) => if rt == Type::Int {
                            CheckOut::Typed(Type::Int)
                        } else {
                            CheckOut::Mismatch {
                                expected: type_str(Type::Int),
                                found_type: type_str(rt),
                                found_span: rhs.spec_span(),
                                span,
                            }
                        },
                        _ => out2,
                    }
                } else {
                    CheckOut::Mismatch {
                        expected: type_str(Type::Int),
                        found_type: type_str(lt),
                        found_span: lhs.spec_span(),
                        span,
                    }
                },
                _ => out1,
            }
        },
        Expression::Int { .. } => CheckOut::Typed(Type::Int),
        Expression::Unit { .. } => CheckOut::Typed(Type::Unit),
    }
}

/// How the executable checker's result relates to the outcome of the
/// rules: the same type, or the same error kind, spans and message
/// text.
pub open spec fn check_matches(r: Result<Type, Error>, out: CheckOut) -> bool {
    match out {
        CheckOut::Typed(t) => r == Ok::<Type, Error>(t),
        CheckOut::Mismatch { expected, found_type, found_span, span } => r matches Err(e)
            && e.span == span && (e.kind matches ErrorKind::TypeMismatch {
            expected: es,
            found_type: fs,
            found_span: fsp,
        } && es@ == expected && fs@ == found_type && fsp == found_span),
        CheckOut::Undefined { name, span, outer } => r matches Err(e) && e.span == outer && (
        e.kind matches ErrorKind::UndefinedSymbol { name: n2, span: s2 } && n2 == name && s2
            == span),
    }
}

impl View for TypeChecker {
    type V = Seq<(char, Type)>;

    closed spec fn view(&self) -> Seq<(char, Type)> {
        self.context@
    }
}

impl TypeChecker {
    pub fn new() -> (tc: TypeChecker)
        ensures
            tc@ == Seq::<(char, Type)>::empty(),
    {
        TypeChecker { context: Vec::new() }
    }

    /// The type bound to `name`, a copy of the latest binding.
    fn lookup(&self, name: char) -> (r: Option<Type>)
        ensures
            r == ctx_lookup(self@, name),
    {
        let n = self.context.len();
        proof {
            assert(self@.take(n as int) =~= self@);
        }
        let mut i: usize = n;
        while i > 0
            invariant
                i <= n,
                n == self@.len(),
                ctx_lookup(self@, name) == ctx_lookup(self@.take(i as int), name),
            decreases i,
        {
            i = i - 1;
            proof {
                assert(self@.take(i as int + 1).last() == self@[i as int]);
                assert(self@.take(i as int + 1).drop_last() =~= self@.take(i as int));
            }
            if self.context[i].0 == name {
                return Some(copy_type(&self.context[i].1));
            }
        }
        proof {
            assert(self@.take(0) =~= Seq::<(char, Type)>::empty());
        }
        None
    }

    /// Checks the term under the current context and returns its type,
    /// or the first error.  `context_span` is the span of the enclosing
    /// term, reported on an undefined symbol.  The result is exactly
    /// `check_spec` of the inputs, and the context is handed back
    /// unchanged.
    pub fn check(&mut self, expr: &Expression, context_span: Span) -> (r: Result<Type, Error>)
        ensures
            final(self)@ == old(self)@,
            check_matches(r, check_spec(*expr, old(self)@, context_span)),
        decreases *expr,
    {
        match expr {
            Expression::Variable(v) => match self.lookup(v.name) {
                Some(t) => Ok(t),
                None => Err(
                    Error {
                        kind: ErrorKind::UndefinedSymbol { name: v.name, span: v.span },
                        span: context_span,
                    },
                ),
            },
            Expression::Abstraction { variable, typ, expression, span } => {
                let n0 = self.context.len();
                self.context.push((variable.name, copy_type(typ)));
                let r2 = self.check(&**expression, *span);
                self.context.truncate(n0);
                proof {
                    assert(self@ =~= old(self)@);
                }
                match r2 {
                    Ok(t2) => Ok(Type::Function(Box::new(copy_type(typ)), Box::new(t2))),
                    Err(e) => Err(e),
                }
            },
            Expression::Application { callee, arg, span } => {
                let r1 = self.check(&**callee, *span);
                match r1 {
                    Err(e) => Err(e),
                    Ok(ct) => match ct {
                        Type::Function(head, tail) => {
                            let r2 = self.check(&**arg, *span);
                            match r2 {
                                Err(e) => Err(e),
                                Ok(at) => {
                                    if type_eq(&at, &*head) {
                                        Ok(*tail)
                                    } else {
                                        Err(
                                            Error {
                                                kind: ErrorKind::TypeMismatch {
                                                    expected: head.to_string(),
                                                    found_type: at.to_string(),
                                                    found_span: arg.get_span(),
                                                },
                                                span: *span,
                                            },
                                        )
                                    }
                                },
                            }
                        },
                        _ => {
                            proof {
                                reveal_strlit("Function");
                                assert("Function"@ =~= seq![
                                    'F',
                                    'u',
                                    'n',
                                    'c',
                                    't',
                                    'i',
                                    'o',
                                    'n',
                                ]);
                            }
                            let expected = String::from_str("Function");
                            Err(
                                Error {
                                    kind: ErrorKind::TypeMismatch {
                                        expected,
                                        found_type: ct.to_string(),
                                        found_span: arg.get_span(),
                                    },
                                    span: *span,
                                },
                            )
                        },
                    },
                }
            },
            Expression::Addition { lhs, rhs, span } => {
                let r1 = self.check(&**lhs, *span);
                match r1 {
                    Err(e) => Err(e),
                    Ok(lt) => {
                        if type_eq(&lt, &Type::Int) {
                            let r2 = self.check(&**rhs, *span);
                            match r2 {
                                Err(e) => Err(e),
                                Ok(rt) => {
                                    if type_eq(&rt, &Type::Int) {
                                        Ok(Type::Int)
                                    } else {
                                        Err(
                                            Error {
                                                kind: ErrorKind::TypeMismatch {
                                                    expected: Type::Int.to_string(),
                                                    found_type: rt.to_string(),
                                                    found_span: rhs.get_span(),
                                                },
                                                span: *span,
                                            },
                                        )
                                    }
                                },
                            }
                        } else {
                            Err(
                                Error {
                                    kind: ErrorKind::TypeMismatch {
                                        expected: Type::Int.to_string(),
                                        found_type: lt.to_string(),
                                        found_span: lhs.get_span(),
                                    },
                                    span: *span,
                                },
                            )
                        }
                    },
                }
            },
            Expression::Int { .. } => Ok(Type::Int),
            Expression::Unit { .. } => Ok(Type::Unit),
        }
    }
}

} // verus!

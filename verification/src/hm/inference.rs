use crate::hm::ast::binds_size_from;
use crate::hm::ast::Bind;
use crate::hm::ast::Expression;
use crate::hm::error::Error;
use crate::hm::unify::apply_spec;
use crate::hm::unify::empty_table;
use crate::hm::unify::err_matches;
use crate::hm::unify::rev_cs;
use crate::hm::unify::satisfies;
use crate::hm::unify::solve_constraints;
use crate::hm::unify::solve_fuel;
use crate::hm::unify::solved_form;
use crate::hm::unify::SolveResult;
use crate::hm::unify::Substitution;
use crate::span::Span;
use vstd::prelude::*;
use vstd::string::StringExecFns;

verus! {

/// The small algebra of types: functions, unresolved type variables, and
/// the two base types.  A `Function` owns its parameter and result
/// subtrees; equality is structural.
#[derive(Debug)]
pub enum Type {
    Function(Box<Type>, Box<Type>),
    Variable(u16),
    Unit,
    Int,
}

impl Type {
    /// Structural size: number of nodes of the type tree.
    pub open spec fn size(self) -> nat
        decreases self,
    {
        match self {
            Type::Function(p, r) => 1 + p.size() + r.size(),
            Type::Variable(_) => 1,
            Type::Unit => 1,
            Type::Int => 1,
        }
    }
}

/// Structural equality, as a plain recursive function.
pub fn type_eq(a: &Type, b: &Type) -> (r: bool)
    ensures
        r == (a == b),
    decreases *a,
{
    match (a, b) {
        (Type::Function(p1, r1), Type::Function(p2, r2)) => {
            type_eq(&**p1, &**p2) && type_eq(&**r1, &**r2)
        },
        (Type::Variable(id1), Type::Variable(id2)) => id1 == id2,
        (Type::Unit, Type::Unit) => true,
        (Type::Int, Type::Int) => true,
        _ => false,
    }
}

impl PartialEq for Type {
    fn eq(&self, other: &Self) -> (r: bool) {
        type_eq(self, other)
    }
}

impl vstd::std_specs::cmp::PartialEqSpecImpl for Type {
    open spec fn obeys_eq_spec() -> bool {
        true
    }

    open spec fn eq_spec(&self, other: &Type) -> bool {
        *self == *other
    }
}

/// A structural copy of a type.
pub fn copy_type(t: &Type) -> (r: Type)
    ensures
        r == *t,
    decreases *t,
{
    match t {
        Type::Function(p, r) => Type::Function(Box::new(copy_type(&**p)), Box::new(copy_type(&**r))),
        Type::Variable(id) => Type::Variable(*id),
        Type::Unit => Type::Unit,
        Type::Int => Type::Int,
    }
}

/// The decimal digit `d`, for `0 <= d <= 9`.
pub open spec fn digit_char(d: int) -> char {
    if d == 0 {
        '0'
    } else if d == 1 {
        '1'
    } else if d == 2 {
        '2'
    } else if d == 3 {
        '3'
    } else if d == 4 {
        '4'
    } else if d == 5 {
        '5'
    } else if d == 6 {
        '6'
    } else if d == 7 {
        '7'
    } else if d == 8 {
        '8'
    } else {
        '9'
    }
}

/// The decimal rendering of `n >= 0`, most significant digit first.
pub open spec fn dec_digits(n: int) -> Seq<char>
    decreases n,
{
    if n < 10 {
        seq![digit_char(n)]
    } else {
        dec_digits(n / 10).push(digit_char(n % 10))
    }
}

/// The rendering of a type: `Function` prints right-associatively as
/// `param -> result`, parenthesizing the parameter exactly when it is
/// itself a function type; a variable prints as `t` plus its id.
pub open spec fn type_str(t: Type) -> Seq<char>
    decreases t,
{
    match t {
        Type::Function(p, r) => {
            let ps = if *p is Function {
                seq!['('] + type_str(*p) + seq![')']
            } else {
                type_str(*p)
            };
            ps + seq![' ', '-', '>', ' '] + type_str(*r)
        },
        Type::Variable(id) => seq!['t'] + dec_digits(id as int),
        Type::Unit => seq!['U', 'n', 'i', 't'],
        Type::Int => seq!['I', 'n', 't'],
    }
}

/// Appends the decimal rendering of `n` to `s`.
fn push_digits(s: &mut String, n: u16)
    ensures
        final(s)@ == old(s)@ + dec_digits(n as int),
    decreases n,
{
    if n >= 10 {
        push_digits(s, n / 10);
    }
    let d = n % 10;
    proof {
        reveal_strlit("0");
        reveal_strlit("1");
        reveal_strlit("2");
        reveal_strlit("3");
        reveal_strlit("4");
        reveal_strlit("5");
        reveal_strlit("6");
        reveal_strlit("7");
        reveal_strlit("8");
        reveal_strlit("9");
    }
    if d == 0 {
        s.append("0");
    } else if d == 1 {
        s.append("1");
    } else if d == 2 {
        s.append("2");
    } else if d == 3 {
        s.append("3");
    } else if d == 4 {
        s.append("4");
    } else if d == 5 {
        s.append("5");
    } else if d == 6 {
        s.append("6");
    } else if d == 7 {
        s.append("7");
    } else if d == 8 {
        s.append("8");
    } else {
        s.append("9");
    }
    proof {
        assert(s@ =~= old(s)@ + dec_digits(n as int));
    }
}

/// Appends the rendering of `t` to `s`.
fn push_type(s: &mut String, t: &Type)
    ensures
        final(s)@ == old(s)@ + type_str(*t),
    decreases *t,
{
    proof {
        reveal_strlit("(");
        reveal_strlit(")");
        reveal_strlit(" -> ");
        reveal_strlit("t");
        reveal_strlit("Unit");
        reveal_strlit("Int");
    }
    match t {
        Type::Function(p, r) => {
            let parenthesize = matches!(&**p, Type::Function(..));
            if parenthesize {
                s.append("(");
            }
            push_type(s, &**p);
            if parenthesize {
                s.append(")");
            }
            s.append(" -> ");
            push_type(s, &**r);
        },
        Type::Variable(id) => {
            s.append("t");
            push_digits(s, *id);
        },
        Type::Unit => {
            s.append("Unit");
        },
        Type::Int => {
            s.append("Int");
        },
    }
    proof {
        assert(s@ =~= old(s)@ + type_str(*t));
    }
}

impl Type {
    /// Renders the type as text, e.g. `(Int -> Int) -> t3`.
    pub fn to_string(&self) -> (r: String)
        ensures
            r@ == type_str(*self),
    {
        let mut s = String::new();
        push_type(&mut s, self);
        proof {
            assert(s@ =~= type_str(*self));
        }
        s
    }
}

/// One equation between two types, recorded during the tree walk and
/// consumed by the unifier.  `span` is the byte range of the term that
/// produced the left side, so a failure to satisfy the equation can be
/// reported there.
#[derive(Debug)]
pub struct Constraint {
    pub left: Type,
    pub right: Type,
    pub span: Span,
}

/// A variable-typing environment: name-to-type bindings where the latest
/// binding of a name shadows earlier ones.  Each inference case extends
/// it for its own subtree only and restores it before returning.
pub struct Environment {
    entries: Vec<(char, Type)>,
}

/// The binding of `name` in `env`, latest first.
pub open spec fn lookup_spec(env: Seq<(char, Type)>, name: char) -> Option<Type>
    decreases env.len(),
{
    if env.len() == 0 {
        None
    } else if env.last().0 == name {
        Some(env.last().1)
    } else {
        lookup_spec(env.drop_last(), name)
    }
}

impl View for Environment {
    type V = Seq<(char, Type)>;

    closed spec fn view(&self) -> Seq<(char, Type)> {
        self.entries@
    }
}

impl Environment {
    pub fn new() -> (env: Environment)
        ensures
            env@ == Seq::<(char, Type)>::empty(),
    {
        Environment { entries: Vec::new() }
    }

    pub fn len(&self) -> (n: usize)
        ensures
            n == self@.len(),
    {
        self.entries.len()
    }

    /// Binds `name` to `ty`, shadowing any earlier binding of `name`.
    pub fn push(&mut self, name: char, ty: Type)
        ensures
            final(self)@ == old(self)@.push((name, ty)),
    {
        self.entries.push((name, ty));
    }

    /// Removes bindings until `len` are left; the inverse of the pushes a
    /// subtree made.
    pub fn truncate(&mut self, len: usize)
        ensures
            len <= old(self)@.len() ==> final(self)@ == old(self)@.subrange(0, len as int),
            len > old(self)@.len() ==> final(self)@ == old(self)@,
    {
        self.entries.truncate(len);
    }

    /// The type bound to `name`, a copy of the latest binding.
    pub fn lookup(&self, name: char) -> (r: Option<Type>)
        ensures
            r == lookup_spec(self@, name),
    {
        let n = self.entries.len();
        proof {
            assert(self@.take(n as int) =~= self@);
        }
        let mut i: usize = n;
        while i > 0
            invariant
                i <= n,
                n == self@.len(),
                lookup_spec(self@, name) == lookup_spec(self@.take(i as int), name),
            decreases i,
        {
            i = i - 1;
            proof {
                assert(self@.take(i as int + 1).last() == self@[i as int]);
                assert(self@.take(i as int + 1).drop_last() =~= self@.take(i as int));
            }
            if self.entries[i].0 == name {
                return Some(copy_type(&self.entries[i].1));
            }
        }
        proof {
            assert(self@.take(0) =~= Seq::<(char, Type)>::empty());
        }
        None
    }
}

/// What one inference step returned, together with the engine state it
/// left behind: the constraints collected so far and the next fresh
/// variable id.
pub ghost struct InferOut {
    pub result: Result<Type, Error>,
    pub constraints: Seq<Constraint>,
    pub var_count: int,
}

/// As `InferOut`, for a run over the bindings of a `letrec` group, which
/// yields no type of its own.
pub ghost struct BindsOut {
    pub error: Option<Error>,
    pub constraints: Seq<Constraint>,
    pub var_count: int,
}

/// `env` extended with one fresh type variable per binding of a `letrec`
/// group, in order: binding `i` gets `Type::Variable(vc + i)`.
pub open spec fn letrec_env(env: Seq<(char, Type)>, binds: Seq<Bind>, vc: int) -> Seq<(char, Type)> {
    env + Seq::new(binds.len(), |i: int| (binds[i].variable.name, Type::Variable((vc + i) as u16)))
}

/// The inference rules, one case per term form.  This is the whole
/// meaning of `Inference::infer`: the result, the constraints recorded
/// and the variables allocated are all functions of the term, the
/// environment and the incoming state, so inference is deterministic.
pub open spec fn infer_spec(e: Expression, env: Seq<(char, Type)>, cs: Seq<Constraint>, vc: int) -> InferOut
    decreases e, 0int, 0int,
{
    match e {
        Expression::Variable(v) => match lookup_spec(env, v.name) {
            Some(t) => InferOut { result: Ok(t), constraints: cs, var_count: vc },
            None => InferOut {
                result: Err(Error::UndefinedSymbol { name: v.name, span: v.span }),
                constraints: cs,
                var_count: vc,
            },
        },
        Expression::Abstraction { variable, expression, .. } => {
            let t1 = Type::Variable(vc as u16);
            let out = infer_spec(*expression, env.push((variable.name, t1)), cs, vc + 1);
            match out.result {
                Ok(t2) => InferOut {
                    result: Ok(Type::Function(Box::new(t1), Box::new(t2))),
                    constraints: out.constraints,
                    var_count: out.var_count,
                },
                Err(_) => out,
            }
        },
        Expression::Application { callee, arg, span } => {
            let out1 = infer_spec(*callee, env, cs, vc);
            match out1.result {
                Err(_) => out1,
                Ok(t1) => {
                    let out2 = infer_spec(*arg, env, out1.constraints, out1.var_count);
                    match out2.result {
                        Err(_) => out2,
                        Ok(t2) => {
                            let ret = Type::Variable(out2.var_count as u16);
                            let c = Constraint {
                                left: t1,
                                right: Type::Function(Box::new(t2), Box::new(ret)),
                                span,
                            };
                            InferOut {
                                result: Ok(ret),
                                constraints: out2.constraints.push(c),
                                var_count: out2.var_count + 1,
                            }
                        },
                    }
                },
            }
        },
        Expression::Addition { lhs, rhs, .. } => {
            let out1 = infer_spec(*lhs, env, cs, vc);
            match out1.result {
                Err(_) => out1,
                Ok(t1) => {
                    let out2 = infer_spec(*rhs, env, out1.constraints, out1.var_count);
                    match out2.result {
                        Err(_) => out2,
                        Ok(t2) => {
                            let c1 = Constraint { left: t1, right: Type::Int, span: lhs.spec_span() };
                            let c2 = Constraint { left: t2, right: Type::Int, span: rhs.spec_span() };
                            InferOut {
                                result: Ok(Type::Int),
                                constraints: out2.constraints.push(c1).push(c2),
                                var_count: out2.var_count,
                            }
                        },
                    }
                },
            }
        },
        Expression::Let { bind, body, .. } => {
            let out1 = infer_spec(bind.expression, env, cs, vc);
            match out1.result {
                Err(_) => out1,
                Ok(t) => infer_spec(
                    *body,
                    env.push((bind.variable.name, t)),
                    out1.constraints,
                    out1.var_count,
                ),
            }
        },
        Expression::Letrec { binds, body, .. } => {
            let env1 = letrec_env(env, binds@, vc);
            let out1 = infer_binds_spec(binds@, 0, vc, env1, cs, vc + binds@.len());
            match out1.error {
                Some(er) => InferOut {
                    result: Err(er),
                    constraints: out1.constraints,
                    var_count: out1.var_count,
                },
                None => infer_spec(*body, env1, out1.constraints, out1.var_count),
            }
        },
        Expression::Int { .. } => InferOut { result: Ok(Type::Int), constraints: cs, var_count: vc },
        Expression::Unit { .. } => InferOut {
            result: Ok(Type::Unit),
            constraints: cs,
            var_count: vc,
        },
    }
}

/// Infers the right-hand sides of `binds[i..]` in order under the fixed
/// environment `env`, recording for each one the constraint tying its
/// fresh variable `Type::Variable(vc0 + i)` to its inferred type, and
/// stopping at the first error.
pub open spec fn infer_binds_spec(
    binds: Seq<Bind>,
    i: int,
    vc0: int,
    env: Seq<(char, Type)>,
    cs: Seq<Constraint>,
    vc: int,
) -> BindsOut
    decreases binds, 1int, binds.len() - i,
{
    if i < 0 || i >= binds.len() {
        BindsOut { error: None, constraints: cs, var_count: vc }
    } else {
        let out = infer_spec(binds[i].expression, env, cs, vc);
        match out.result {
            Err(er) => BindsOut {
                error: Some(er),
                constraints: out.constraints,
                var_count: out.var_count,
            },
            Ok(t) => {
                let c = Constraint {
                    left: Type::Variable((vc0 + i) as u16),
                    right: t,
                    span: binds[i].expression.spec_span(),
                };
                infer_binds_spec(binds, i + 1, vc0, env, out.constraints.push(c), out.var_count)
            },
        }
    }
}

/// Each binding contributes at least one node to the size of the group.
pub proof fn lemma_binds_size_lower(binds: Seq<Bind>, i: int)
    requires
        0 <= i,
    ensures
        binds_size_from(binds, i) >= binds.len() - i,
    decreases binds.len() - i,
{
    if 0 <= i < binds.len() {
        lemma_binds_size_lower(binds, i + 1);
    }
}

/// Inference never reuses a variable id and allocates at most one fresh
/// variable per node of the term.
pub proof fn lemma_infer_growth(e: Expression, env: Seq<(char, Type)>, cs: Seq<Constraint>, vc: int)
    ensures
        vc <= infer_spec(e, env, cs, vc).var_count,
        infer_spec(e, env, cs, vc).var_count <= vc + e.size(),
    decreases e, 0int, 0int,
{
    match e {
        Expression::Variable(_) => {},
        Expression::Abstraction { variable, expression, .. } => {
            let t1 = Type::Variable(vc as u16);
            lemma_infer_growth(*expression, env.push((variable.name, t1)), cs, vc + 1);
        },
        Expression::Application { callee, arg, .. } => {
            let out1 = infer_spec(*callee, env, cs, vc);
            lemma_infer_growth(*callee, env, cs, vc);
            if out1.result is Ok {
                lemma_infer_growth(*arg, env, out1.constraints, out1.var_count);
            }
        },
        Expression::Addition { lhs, rhs, .. } => {
            let out1 = infer_spec(*lhs, env, cs, vc);
            lemma_infer_growth(*lhs, env, cs, vc);
            if out1.result is Ok {
                lemma_infer_growth(*rhs, env, out1.constraints, out1.var_count);
            }
        },
        Expression::Let { bind, body, .. } => {
            let out1 = infer_spec(bind.expression, env, cs, vc);
            lemma_infer_growth(bind.expression, env, cs, vc);
            match out1.result {
                Ok(t) => {
                    lemma_infer_growth(
                        *body,
                        env.push((bind.variable.name, t)),
                        out1.constraints,
                        out1.var_count,
                    );
                },
                Err(_) => {},
            }
        },
        Expression::Letrec { binds, body, .. } => {
            let env1 = letrec_env(env, binds@, vc);
            let out1 = infer_binds_spec(binds@, 0, vc, env1, cs, vc + binds@.len());
            lemma_infer_binds_growth(binds@, 0, vc, env1, cs, vc + binds@.len());
            lemma_binds_size_lower(binds@, 0);
            if out1.error is None {
                lemma_infer_growth(*body, env1, out1.constraints, out1.var_count);
            }
        },
        Expression::Int { .. } => {},
        Expression::Unit { .. } => {},
    }
}

/// As `lemma_infer_growth`, for the run over a `letrec` group.
pub proof fn lemma_infer_binds_growth(
    binds: Seq<Bind>,
    i: int,
    vc0: int,
    env: Seq<(char, Type)>,
    cs: Seq<Constraint>,
    vc: int,
)
    requires
        0 <= i,
    ensures
        vc <= infer_binds_spec(binds, i, vc0, env, cs, vc).var_count,
        infer_binds_spec(binds, i, vc0, env, cs, vc).var_count + (binds.len() - i) <= vc
            + binds_size_from(binds, i),
    decreases binds, 1int, binds.len() - i,
{
    if 0 <= i < binds.len() {
        let out = infer_spec(binds[i].expression, env, cs, vc);
        lemma_infer_growth(binds[i].expression, env, cs, vc);
        lemma_binds_size_lower(binds, i + 1);
        match out.result {
            Ok(t) => {
                let c = Constraint {
                    left: Type::Variable((vc0 + i) as u16),
                    right: t,
                    span: binds[i].expression.spec_span(),
                };
                lemma_infer_binds_growth(
                    binds,
                    i + 1,
                    vc0,
                    env,
                    out.constraints.push(c),
                    out.var_count,
                );
            },
            Err(_) => {},
        }
    }
}

/// Determinism of the whole pipeline: the tree walk is a function of
/// the term, the environment and the engine state (`infer_spec`), and
/// the solver's outcome on the collected constraints does not depend on
/// which fuel witnesses it — so running inference twice on the same
/// term tree yields the same final type or the same error.
pub proof fn lemma_inference_deterministic(
    e: Expression,
    env: Seq<(char, Type)>,
    cs: Seq<Constraint>,
    vc: int,
    f1: nat,
    f2: nat,
)
    requires
        solve_fuel(
            rev_cs(infer_spec(e, env, cs, vc).constraints),
            empty_table(),
            f1,
        ) is Some,
        solve_fuel(
            rev_cs(infer_spec(e, env, cs, vc).constraints),
            empty_table(),
            f2,
        ) is Some,
    ensures
        solve_fuel(
            rev_cs(infer_spec(e, env, cs, vc).constraints),
            empty_table(),
            f1,
        ) == solve_fuel(
            rev_cs(infer_spec(e, env, cs, vc).constraints),
            empty_table(),
            f2,
        ),
{
    crate::hm::unify::lemma_solve_fuel_agree(
        rev_cs(infer_spec(e, env, cs, vc).constraints),
        empty_table(),
        f1,
        f2,
    );
}

/// One inference run: the fresh-variable counter, the constraints
/// collected so far, and the substitution the unifier computed.  The
/// caller owns the state and makes a new `Inference` for each
/// independent program.
pub struct Inference {
    pub constraints: Vec<Constraint>,
    pub substitutions: Substitution,
    pub var_count: u16,
}

impl Inference {
    pub fn new() -> (r: Inference)
        ensures
            r.constraints@ == Seq::<Constraint>::empty(),
            r.substitutions@ == Seq::<Option<Type>>::empty(),
            r.var_count == 0,
    {
        let substitutions = Substitution::empty(0);
        proof {
            assert(substitutions@ =~= Seq::<Option<Type>>::empty());
        }
        Inference { constraints: Vec::new(), substitutions, var_count: 0 }
    }

    /// Allocates the next type variable.  Ids are dense and increasing:
    /// no two calls within one run return the same id.
    pub fn fresh_type_variable(&mut self) -> (t: Type)
        requires
            old(self).var_count < u16::MAX,
        ensures
            t == Type::Variable(old(self).var_count),
            final(self).var_count == old(self).var_count + 1,
            final(self).constraints@ == old(self).constraints@,
            final(self).substitutions@ == old(self).substitutions@,
    {
        let t = Type::Variable(self.var_count);
        self.var_count = self.var_count + 1;
        t
    }

    /// Walks the term under `env`, allocating fresh type variables and
    /// recording constraints, and returns the (possibly still
    /// variable-containing) type of the term, or the first
    /// `UndefinedSymbol` error.  The result and the state left behind
    /// are exactly `infer_spec` of the inputs; `env` is handed back
    /// unchanged.  The bound on `var_count` leaves room for the fresh
    /// variables the term can demand.
    #[verifier::loop_isolation(false)]
    pub fn infer(&mut self, expr: &Expression, env: &mut Environment) -> (r: Result<Type, Error>)
        requires
            old(self).var_count + expr.size() <= u16::MAX,
        ensures
            final(env)@ == old(env)@,
            final(self).substitutions@ == old(self).substitutions@,
            ({
                let out = infer_spec(
                    *expr,
                    old(env)@,
                    old(self).constraints@,
                    old(self).var_count as int,
                );
                r == out.result && final(self).constraints@ == out.constraints
                    && final(self).var_count as int == out.var_count
            }),
        decreases *expr, 1int, 0int,
    {
        match expr {
            Expression::Variable(v) => match env.lookup(v.name) {
                Some(t) => Ok(t),
                None => Err(Error::UndefinedSymbol { name: v.name, span: v.span }),
            },
            Expression::Abstraction { variable, expression, .. } => {
                let t1 = self.fresh_type_variable();
                let n0 = env.len();
                env.push(variable.name, copy_type(&t1));
                let r2 = self.infer(&**expression, env);
                env.truncate(n0);
                proof {
                    assert(env@ =~= old(env)@);
                }
                match r2 {
                    Ok(t2) => Ok(Type::Function(Box::new(t1), Box::new(t2))),
                    Err(e) => Err(e),
                }
            },
            Expression::Application { callee, arg, span } => {
                let r1 = self.infer(&**callee, env);
                match r1 {
                    Err(e) => Err(e),
                    Ok(t1) => {
                        proof {
                            lemma_infer_growth(
                                **callee,
                                old(env)@,
                                old(self).constraints@,
                                old(self).var_count as int,
                            );
                        }
                        let r2 = self.infer(&**arg, env);
                        match r2 {
                            Err(e) => Err(e),
                            Ok(t2) => {
                                proof {
                                    let out1 = infer_spec(
                                        **callee,
                                        old(env)@,
                                        old(self).constraints@,
                                        old(self).var_count as int,
                                    );
                                    lemma_infer_growth(
                                        **arg,
                                        old(env)@,
                                        out1.constraints,
                                        out1.var_count,
                                    );
                                }
                                let ret = self.fresh_type_variable();
                                self.constraints.push(
                                    Constraint {
                                        left: t1,
                                        right: Type::Function(
                                            Box::new(t2),
                                            Box::new(copy_type(&ret)),
                                        ),
                                        span: *span,
                                    },
                                );
                                Ok(ret)
                            },
                        }
                    },
                }
            },
            Expression::Addition { lhs, rhs, .. } => {
                let r1 = self.infer(&**lhs, env);
                match r1 {
                    Err(e) => Err(e),
                    Ok(t1) => {
                        proof {
                            lemma_infer_growth(
                                **lhs,
                                old(env)@,
                                old(self).constraints@,
                                old(self).var_count as int,
                            );
                        }
                        let r2 = self.infer(&**rhs, env);
                        match r2 {
                            Err(e) => Err(e),
                            Ok(t2) => {
                                let lspan = lhs.get_span();
                                let rspan = rhs.get_span();
                                self.constraints.push(
                                    Constraint { left: t1, right: Type::Int, span: lspan },
                                );
                                self.constraints.push(
                                    Constraint { left: t2, right: Type::Int, span: rspan },
                                );
                                Ok(Type::Int)
                            },
                        }
                    },
                }
            },
            Expression::Let { bind, body, .. } => {
                let r1 = self.infer(&bind.expression, env);
                match r1 {
                    Err(e) => Err(e),
                    Ok(t) => {
                        proof {
                            lemma_infer_growth(
                                bind.expression,
                                old(env)@,
                                old(self).constraints@,
                                old(self).var_count as int,
                            );
                        }
                        let n0 = env.len();
                        env.push(bind.variable.name, t);
                        let r2 = self.infer(&**body, env);
                        env.truncate(n0);
                        proof {
                            assert(env@ =~= old(env)@);
                        }
                        r2
                    },
                }
            },
            Expression::Letrec { .. } => self.infer_letrec(expr, env),
            Expression::Int { .. } => Ok(Type::Int),
            Expression::Unit { .. } => Ok(Type::Unit),
        }
    }

    /// Solves the constraints recorded so far into a substitution,
    /// storing it in `substitutions` and returning it, or returns the
    /// first contradiction.  See `solve_constraints` for the contract;
    /// the constraints and the counter are left untouched.
    pub fn solve(&mut self) -> (r: Result<Substitution, Error>)
        ensures
            final(self).constraints@ == old(self).constraints@,
            final(self).var_count == old(self).var_count,
            match r {
                Ok(sub) => {
                    &&& final(self).substitutions@ == sub@
                    &&& exists|f: nat|
                        solve_fuel(
                            rev_cs(old(self).constraints@),
                            empty_table(),
                            f,
                        ) == Some(SolveResult::Done(sub@))
                    &&& solved_form(sub@)
                    &&& forall|i: int|
                        0 <= i < old(self).constraints@.len() ==> satisfies(
                            sub@,
                            #[trigger] old(self).constraints@[i],
                        )
                },
                Err(e) => {
                    &&& final(self).substitutions@ == old(self).substitutions@
                    &&& exists|f: nat|
                        solve_fuel(
                            rev_cs(old(self).constraints@),
                            empty_table(),
                            f,
                        ) is Some && err_matches(
                            e,
                            solve_fuel(
                                rev_cs(old(self).constraints@),
                                empty_table(),
                                f,
                            ),
                        )
                },
            },
    {
        let r = solve_constraints(&self.constraints);
        match r {
            Ok(sub) => {
                self.substitutions = sub.duplicate();
                Ok(sub)
            },
            Err(e) => Err(e),
        }
    }

    /// The whole pipeline on one term: walk it collecting constraints,
    /// solve them, and apply the substitution once to the raw type to
    /// obtain the final, fully resolved (or still partially generic)
    /// type.
    pub fn infer_resolved(&mut self, expr: &Expression, env: &mut Environment) -> (r: Result<
        Type,
        Error,
    >)
        requires
            old(self).var_count + expr.size() <= u16::MAX,
        ensures
            final(env)@ == old(env)@,
            ({
                let out = infer_spec(
                    *expr,
                    old(env)@,
                    old(self).constraints@,
                    old(self).var_count as int,
                );
                &&& final(self).constraints@ == out.constraints
                &&& final(self).var_count as int == out.var_count
                &&& match out.result {
                    Err(e) => r == Err::<Type, Error>(e) && final(self).substitutions@ == old(
                        self,
                    ).substitutions@,
                    Ok(t0) => match r {
                        Ok(t) => exists|f: nat|
                            (#[trigger] solve_fuel(
                                rev_cs(out.constraints),
                                empty_table(),
                                f,
                            ) matches Some(SolveResult::Done(sub))
                                && t == apply_spec(sub, t0)
                                && solved_form(sub)
                                && final(self).substitutions@ == sub && (forall|i: int|
                                0 <= i < out.constraints.len() ==> satisfies(
                                    sub,
                                    #[trigger] out.constraints[i],
                                ))),
                        Err(e) => exists|f: nat|
                            solve_fuel(
                                rev_cs(out.constraints),
                                empty_table(),
                                f,
                            ) is Some && err_matches(
                                e,
                                solve_fuel(
                                    rev_cs(out.constraints),
                                    empty_table(),
                                    f,
                                ),
                            ),
                    },
                }
            }),
    {
        let t0r = self.infer(expr, env);
        match t0r {
            Err(e) => Err(e),
            Ok(t0) => match self.solve() {
                Err(e) => Err(e),
                Ok(sub) => Ok(sub.apply(&t0)),
            },
        }
    }

    /// The `letrec` case of `infer`: first one fresh variable per
    /// binding, then each right-hand side under the group environment
    /// with a constraint per binding, then the body.
    #[verifier::loop_isolation(false)]
    fn infer_letrec(&mut self, expr: &Expression, env: &mut Environment) -> (r: Result<
        Type,
        Error,
    >)
        requires
            expr is Letrec,
            old(self).var_count + expr.size() <= u16::MAX,
        ensures
            final(env)@ == old(env)@,
            final(self).substitutions@ == old(self).substitutions@,
            ({
                let out = infer_spec(
                    *expr,
                    old(env)@,
                    old(self).constraints@,
                    old(self).var_count as int,
                );
                r == out.result && final(self).constraints@ == out.constraints
                    && final(self).var_count as int == out.var_count
            }),
        decreases *expr, 0int, 0int,
    {
        match expr {
            Expression::Letrec { binds, body, .. } => {
                let ghost env0 = env@;
                let ghost cs0 = self.constraints@;
                let base = self.var_count;
                let ghost vc0 = self.var_count as int;
                let n0 = env.len();
                let nb = binds.len();
                proof {
                    lemma_binds_size_lower(binds@, 0);
                }
                let mut k: usize = 0;
                while k < nb
                    invariant
                        k <= nb,
                        self.var_count as int == vc0 + k,
                        self.constraints@ == cs0,
                        self.substitutions@ == old(self).substitutions@,
                        env@ == env0 + Seq::new(
                            k as nat,
                            |i: int| (binds@[i].variable.name, Type::Variable((vc0 + i) as u16)),
                        ),
                    decreases nb - k,
                {
                    let t = self.fresh_type_variable();
                    env.push(binds[k].variable.name, t);
                    k = k + 1;
                    proof {
                        assert(env@ =~= env0 + Seq::new(
                            k as nat,
                            |i: int| (binds@[i].variable.name, Type::Variable((vc0 + i) as u16)),
                        ));
                    }
                }
                let ghost env1 = letrec_env(env0, binds@, vc0);
                proof {
                    assert(env@ =~= env1);
                }
                let ghost target = infer_binds_spec(binds@, 0, vc0, env1, cs0, vc0 + nb as int);
                let mut k2: usize = 0;
                while k2 < nb
                    invariant
                        k2 <= nb,
                        env@ == env1,
                        self.substitutions@ == old(self).substitutions@,
                        infer_binds_spec(
                            binds@,
                            k2 as int,
                            vc0,
                            env1,
                            self.constraints@,
                            self.var_count as int,
                        ) == target,
                        self.var_count as int + binds_size_from(binds@, k2 as int) + body.size()
                            <= u16::MAX + (nb - k2),
                    decreases nb - k2,
                {
                    let ghost cs_pre = self.constraints@;
                    let ghost vc_pre = self.var_count as int;
                    proof {
                        lemma_binds_size_lower(binds@, k2 as int + 1);
                    }
                    let r = self.infer(&binds[k2].expression, env);
                    proof {
                        lemma_infer_growth(binds@[k2 as int].expression, env1, cs_pre, vc_pre);
                    }
                    match r {
                        Err(e) => {
                            env.truncate(n0);
                            proof {
                                assert(env@ =~= env0);
                            }
                            return Err(e);
                        },
                        Ok(t) => {
                            let sp = binds[k2].expression.get_span();
                            self.constraints.push(
                                Constraint {
                                    left: Type::Variable(base + k2 as u16),
                                    right: t,
                                    span: sp,
                                },
                            );
                        },
                    }
                    k2 = k2 + 1;
                }
                let rb = self.infer(&**body, env);
                env.truncate(n0);
                proof {
                    assert(env@ =~= env0);
                }
                rb
            },
            _ => {
                proof {
                    assert(false);
                }
                Ok(Type::Unit)
            },
        }
    }
}

} // verus!

use crate::hm::error::Error;
use crate::hm::inference::copy_type;
use crate::hm::inference::type_eq;
use crate::hm::inference::type_str;
use crate::hm::inference::Constraint;
use crate::hm::inference::Type;
use crate::span::Span;
use vstd::prelude::*;

verus! {

/// The number of type-variable ids: every `u16` id has a slot in a
/// substitution's table, so no variable is ever out of its range.
pub const ID_SPACE: usize = 65536;

/// A mapping from type-variable id to type, produced by unification.
/// Entry `id` of the table is the binding of `Type::Variable(id)`; `None`
/// means the variable is unresolved.
#[derive(Debug)]
pub struct Substitution {
    table: Vec<Option<Type>>,
}

/// Whether variable `id` occurs anywhere in `t`.
pub open spec fn occurs_spec(id: u16, t: Type) -> bool
    decreases t,
{
    match t {
        Type::Function(p, r) => occurs_spec(id, *p) || occurs_spec(id, *r),
        Type::Variable(j) => j == id,
        Type::Unit => false,
        Type::Int => false,
    }
}

/// Whether `id` is bound by the substitution `s`.
pub open spec fn bound(s: Seq<Option<Type>>, id: u16) -> bool {
    id < s.len() && s[id as int] is Some
}

/// One pass of the substitution over `t`: every bound variable is
/// replaced by its binding, unbound variables stay.
pub open spec fn apply_spec(s: Seq<Option<Type>>, t: Type) -> Type
    decreases t,
{
    match t {
        Type::Function(p, r) => Type::Function(
            Box::new(apply_spec(s, *p)),
            Box::new(apply_spec(s, *r)),
        ),
        Type::Variable(j) => if bound(s, j) {
            s[j as int]->Some_0
        } else {
            t
        },
        Type::Unit => t,
        Type::Int => t,
    }
}

/// No variable bound by `s` occurs in `t`; applying `s` to such a `t`
/// leaves it unchanged.
pub open spec fn no_bound_vars(s: Seq<Option<Type>>, t: Type) -> bool {
    forall|id: u16| bound(s, id) ==> !occurs_spec(id, t)
}

/// The substitution is in solved form: no binding mentions a bound
/// variable.  This is what makes one application pass a fixpoint.
pub open spec fn solved_form(s: Seq<Option<Type>>) -> bool {
    forall|id: u16| bound(s, id) ==> no_bound_vars(s, #[trigger] s[id as int]->Some_0)
}

/// Whether exec variable `id` occurs in `t`.
pub fn occurs(id: u16, t: &Type) -> (r: bool)
    ensures
        r == occurs_spec(id, *t),
    decreases *t,
{
    match t {
        Type::Function(p, r) => occurs(id, &**p) || occurs(id, &**r),
        Type::Variable(j) => *j == id,
        Type::Unit => false,
        Type::Int => false,
    }
}

impl View for Substitution {
    type V = Seq<Option<Type>>;

    closed spec fn view(&self) -> Seq<Option<Type>> {
        self.table@
    }
}

impl Substitution {
    /// A substitution binding none of the `n` variables.
    pub fn empty(n: usize) -> (s: Substitution)
        ensures
            s@.len() == n,
            forall|k: int| 0 <= k < n ==> s@[k] is None,
            forall|id: u16| !bound(s@, id),
    {
        let mut table: Vec<Option<Type>> = Vec::new();
        let mut i: usize = 0;
        while i < n
            invariant
                i <= n,
                table@.len() == i,
                forall|k: int| 0 <= k < i ==> table@[k] is None,
            decreases n - i,
        {
            table.push(None);
            i = i + 1;
        }
        Substitution { table }
    }

    /// A copy of the binding of variable `id`, or `None` if `id` is
    /// unresolved or out of range.
    pub fn get(&self, id: u16) -> (r: Option<Type>)
        ensures
            r is Some <==> bound(self@, id),
            r is Some ==> r->Some_0 == self@[id as int]->Some_0,
    {
        if (id as usize) < self.table.len() {
            match &self.table[id as usize] {
                Some(t) => Some(copy_type(t)),
                None => None,
            }
        } else {
            None
        }
    }

    /// A deep copy of the substitution.
    pub fn duplicate(&self) -> (r: Substitution)
        ensures
            r@ == self@,
    {
        let n = self.table.len();
        let mut table: Vec<Option<Type>> = Vec::new();
        let mut i: usize = 0;
        while i < n
            invariant
                i <= n,
                n == self@.len(),
                table@.len() == i,
                forall|k: int| 0 <= k < i ==> table@[k] == self@[k],
            decreases n - i,
        {
            match &self.table[i] {
                Some(t) => table.push(Some(copy_type(t))),
                None => table.push(None),
            }
            i = i + 1;
        }
        let r = Substitution { table };
        proof {
            assert(r@ =~= self@);
        }
        r
    }

    /// Applies the substitution to `t` in one pass.
    pub fn apply(&self, t: &Type) -> (r: Type)
        ensures
            r == apply_spec(self@, *t),
        decreases *t,
    {
        match t {
            Type::Function(p, q) => Type::Function(
                Box::new(self.apply(&**p)),
                Box::new(self.apply(&**q)),
            ),
            Type::Variable(j) => {
                if (*j as usize) < self.table.len() {
                    match &self.table[*j as usize] {
                        Some(u) => copy_type(u),
                        None => Type::Variable(*j),
                    }
                } else {
                    Type::Variable(*j)
                }
            },
            Type::Unit => Type::Unit,
            Type::Int => Type::Int,
        }
    }
}

/// `t` with every occurrence of `Variable(id)` replaced by `u`.
pub open spec fn subst1(id: u16, u: Type, t: Type) -> Type
    decreases t,
{
    match t {
        Type::Function(p, r) => Type::Function(
            Box::new(subst1(id, u, *p)),
            Box::new(subst1(id, u, *r)),
        ),
        Type::Variable(j) => if j == id {
            u
        } else {
            t
        },
        Type::Unit => t,
        Type::Int => t,
    }
}

/// The substitution after resolving `id` to `u`: every earlier binding
/// has `id` replaced by `u` inside it, and `id` itself maps to `u`.
/// This eager propagation is what keeps the table in solved form.
pub open spec fn bind_update(s: Seq<Option<Type>>, id: u16, u: Type) -> Seq<Option<Type>> {
    s.map(
        |j: int, o: Option<Type>|
            match o {
                Some(t) => Some(subst1(id, u, t)),
                None => None,
            },
    ).update(id as int, Some(u))
}

/// How one run of the unifier can end: a solved substitution, two
/// incompatible concrete types, or a variable that would have to contain
/// itself.
pub ghost enum SolveResult {
    Done(Seq<Option<Type>>),
    Mismatch { expected: Type, found: Type, span: Span },
    Infinite { span: Span },
}

/// The unification algorithm, step-indexed: pop the last constraint,
/// apply the substitution so far to both sides, then discard, bind with
/// occurs check, decompose, or fail.  `None` means `fuel` steps were not
/// enough; the solver proves that some finite fuel always is.
pub open spec fn solve_fuel(w: Seq<Constraint>, s: Seq<Option<Type>>, fuel: nat) -> Option<
    SolveResult,
>
    decreases fuel,
{
    if w.len() == 0 {
        Some(SolveResult::Done(s))
    } else if fuel == 0 {
        None
    } else {
        let c = w.last();
        let rest = w.drop_last();
        let l = apply_spec(s, c.left);
        let r = apply_spec(s, c.right);
        if l == r {
            solve_fuel(rest, s, (fuel - 1) as nat)
        } else if l is Variable {
            if occurs_spec(l->Variable_0, r) {
                Some(SolveResult::Infinite { span: c.span })
            } else {
                solve_fuel(rest, bind_update(s, l->Variable_0, r), (fuel - 1) as nat)
            }
        } else if r is Variable {
            if occurs_spec(r->Variable_0, l) {
                Some(SolveResult::Infinite { span: c.span })
            } else {
                solve_fuel(rest, bind_update(s, r->Variable_0, l), (fuel - 1) as nat)
            }
        } else if l is Function && r is Function {
            let w2 = rest.push(
                Constraint { left: *l->Function_0, right: *r->Function_0, span: c.span },
            ).push(Constraint { left: *l->Function_1, right: *r->Function_1, span: c.span });
            solve_fuel(w2, s, (fuel - 1) as nat)
        } else {
            Some(SolveResult::Mismatch { expected: r, found: l, span: c.span })
        }
    }
}

/// The substitution makes both sides of the constraint the same type.
pub open spec fn satisfies(s: Seq<Option<Type>>, c: Constraint) -> bool {
    apply_spec(s, c.left) == apply_spec(s, c.right)
}

/// `sf` agrees with every binding of `s`, read as an equation
/// `Variable(j) = s[j]`.
pub open spec fn sat_subst(sf: Seq<Option<Type>>, s: Seq<Option<Type>>) -> bool {
    forall|j: u16|
        bound(s, j) ==> apply_spec(sf, Type::Variable(j)) == apply_spec(
            sf,
            #[trigger] s[j as int]->Some_0,
        )
}

/// How the executable solver's error relates to the outcome of the
/// algorithm: the same kind and span, with the types rendered as text.
pub open spec fn err_matches(e: Error, out: Option<SolveResult>) -> bool {
    match out {
        Some(SolveResult::Mismatch { expected, found, span }) => e matches Error::UnificationFailure {
            expected: es,
            found: fs,
            span: sp,
        } && es@ == type_str(expected) && fs@ == type_str(found) && sp == span,
        Some(SolveResult::Infinite { span }) => e == (Error::InfiniteType { span }),
        _ => false,
    }
}

/// Size of one constraint after applying `s` to both sides; the
/// termination measure weighs the worklist this way.
pub open spec fn csize(s: Seq<Option<Type>>, c: Constraint) -> nat {
    apply_spec(s, c.left).size() + apply_spec(s, c.right).size()
}

/// Total applied size of a worklist.
pub open spec fn wsize(s: Seq<Option<Type>>, w: Seq<Constraint>) -> nat
    decreases w.len(),
{
    if w.len() == 0 {
        0
    } else {
        wsize(s, w.drop_last()) + csize(s, w.last())
    }
}

/// How many variables the substitution leaves unresolved.
pub open spec fn unbound_count(s: Seq<Option<Type>>) -> nat
    decreases s.len(),
{
    if s.len() == 0 {
        0
    } else {
        unbound_count(s.drop_last()) + if s.last() is None {
            1nat
        } else {
            0nat
        }
    }
}

proof fn lemma_type_size_pos(t: Type)
    ensures
        t.size() >= 1,
{
    match t {
        Type::Function(_, _) => {},
        Type::Variable(_) => {},
        Type::Unit => {},
        Type::Int => {},
    }
}

/// In solved form, an applied type mentions no bound variable.
proof fn lemma_apply_no_bound(s: Seq<Option<Type>>, t: Type)
    requires
        solved_form(s),
    ensures
        no_bound_vars(s, apply_spec(s, t)),
    decreases t,
{
    match t {
        Type::Function(p, r) => {
            lemma_apply_no_bound(s, *p);
            lemma_apply_no_bound(s, *r);
            assert forall|id: u16| bound(s, id) implies !occurs_spec(
                id,
                apply_spec(s, t),
            ) by {
                assert(!occurs_spec(id, apply_spec(s, *p)));
                assert(!occurs_spec(id, apply_spec(s, *r)));
            }
        },
        Type::Variable(j) => {
            if bound(s, j) {
                assert(no_bound_vars(s, s[j as int]->Some_0));
            }
        },
        Type::Unit => {},
        Type::Int => {},
    }
}

/// Applying a substitution to a type free of its bound variables is the
/// identity.
proof fn lemma_apply_id(s: Seq<Option<Type>>, t: Type)
    requires
        no_bound_vars(s, t),
    ensures
        apply_spec(s, t) == t,
    decreases t,
{
    match t {
        Type::Function(p, r) => {
            assert forall|id: u16| bound(s, id) implies !occurs_spec(id, *p) && !occurs_spec(
                id,
                *r,
            ) by {
                assert(!occurs_spec(id, t));
            }
            lemma_apply_id(s, *p);
            lemma_apply_id(s, *r);
        },
        Type::Variable(j) => {
            if bound(s, j) {
                assert(occurs_spec(j, t));
            }
        },
        Type::Unit => {},
        Type::Int => {},
    }
}

/// Once the solver is done, its substitution is a fixpoint: applying it
/// to an already-applied type changes nothing more.
pub proof fn lemma_apply_idempotent(s: Seq<Option<Type>>, t: Type)
    requires
        solved_form(s),
    ensures
        apply_spec(s, apply_spec(s, t)) == apply_spec(s, t),
{
    lemma_apply_no_bound(s, t);
    lemma_apply_id(s, apply_spec(s, t));
}

/// A variable of the result of `subst1` was in `t` (and is not the one
/// replaced) or is in the replacement.
proof fn lemma_subst1_occurs(k: u16, id: u16, u: Type, t: Type)
    ensures
        occurs_spec(k, subst1(id, u, t)) ==> ((occurs_spec(k, t) && k != id) || occurs_spec(k, u)),
    decreases t,
{
    match t {
        Type::Function(p, r) => {
            lemma_subst1_occurs(k, id, u, *p);
            lemma_subst1_occurs(k, id, u, *r);
        },
        Type::Variable(_) => {},
        Type::Unit => {},
        Type::Int => {},
    }
}

/// Binding an unresolved variable to a type in which it does not occur
/// keeps the table in solved form and resolves exactly that variable.
proof fn lemma_bind_solved(s: Seq<Option<Type>>, id: u16, u: Type)
    requires
        solved_form(s),
        !bound(s, id),
        (id as int) < s.len(),
        no_bound_vars(s, u),
        !occurs_spec(id, u),
    ensures
        bind_update(s, id, u).len() == s.len(),
        solved_form(bind_update(s, id, u)),
        forall|k: u16| bound(bind_update(s, id, u), k) <==> (bound(s, k) || k == id),
{
    let s2 = bind_update(s, id, u);
    assert forall|k: u16| bound(s2, k) implies no_bound_vars(s2, s2[k as int]->Some_0) by {
        if k == id {
            assert(s2[k as int]->Some_0 == u);
            assert forall|m: u16| bound(s2, m) implies !occurs_spec(m, u) by {
                assert(bound(s, m) || m == id);
            }
        } else {
            assert(bound(s, k));
            let tk = s[k as int]->Some_0;
            assert(s2[k as int]->Some_0 == subst1(id, u, tk));
            assert forall|m: u16| bound(s2, m) implies !occurs_spec(m, subst1(id, u, tk)) by {
                lemma_subst1_occurs(m, id, u, tk);
                assert(bound(s, m) || m == id);
                assert(!occurs_spec(m, u));
                if m != id {
                    assert(!occurs_spec(m, tk));
                }
            }
        }
    }
}

proof fn lemma_unbound_same(s1: Seq<Option<Type>>, s2: Seq<Option<Type>>)
    requires
        s1.len() == s2.len(),
        forall|i: int| 0 <= i < s1.len() ==> (s1[i] is None <==> s2[i] is None),
    ensures
        unbound_count(s1) == unbound_count(s2),
    decreases s1.len(),
{
    if s1.len() > 0 {
        lemma_unbound_same(s1.drop_last(), s2.drop_last());
    }
}

proof fn lemma_unbound_update(s: Seq<Option<Type>>, i: int, u: Type)
    requires
        0 <= i < s.len(),
        s[i] is None,
    ensures
        unbound_count(s.update(i, Some(u))) + 1 == unbound_count(s),
    decreases s.len(),
{
    let s2 = s.update(i, Some(u));
    if i == s.len() - 1 {
        assert(s2.drop_last() =~= s.drop_last());
    } else {
        assert(s2.drop_last() =~= s.drop_last().update(i, Some(u)));
        lemma_unbound_update(s.drop_last(), i, u);
    }
}

/// Binding an unresolved variable lowers the number of unresolved
/// variables by one: the first component of the termination measure.
proof fn lemma_unbound_bind(s: Seq<Option<Type>>, id: u16, u: Type)
    requires
        (id as int) < s.len(),
        s[id as int] is None,
    ensures
        unbound_count(bind_update(s, id, u)) + 1 == unbound_count(s),
{
    let mapped = s.map(
        |j: int, o: Option<Type>|
            match o {
                Some(t) => Some(subst1(id, u, t)),
                None => None,
            },
    );
    lemma_unbound_same(s, mapped);
    lemma_unbound_update(mapped, id as int, u);
}

/// `sf` collapses an application of `s` wherever `sf` agrees with `s`'s
/// bindings.
proof fn lemma_sat_apply(sf: Seq<Option<Type>>, s: Seq<Option<Type>>, t: Type)
    requires
        sat_subst(sf, s),
    ensures
        apply_spec(sf, apply_spec(s, t)) == apply_spec(sf, t),
    decreases t,
{
    match t {
        Type::Function(p, r) => {
            lemma_sat_apply(sf, s, *p);
            lemma_sat_apply(sf, s, *r);
        },
        Type::Variable(j) => {
            if bound(s, j) {
                assert(apply_spec(s, t) == s[j as int]->Some_0);
            }
        },
        Type::Unit => {},
        Type::Int => {},
    }
}

proof fn lemma_subst1_sat(sf: Seq<Option<Type>>, id: u16, u: Type, t: Type)
    requires
        apply_spec(sf, Type::Variable(id)) == apply_spec(sf, u),
    ensures
        apply_spec(sf, subst1(id, u, t)) == apply_spec(sf, t),
    decreases t,
{
    match t {
        Type::Function(p, r) => {
            lemma_subst1_sat(sf, id, u, *p);
            lemma_subst1_sat(sf, id, u, *r);
        },
        Type::Variable(_) => {},
        Type::Unit => {},
        Type::Int => {},
    }
}

/// Agreement with the bindings made after resolving `id` gives back
/// agreement with the earlier bindings, plus the new equation itself.
proof fn lemma_sat_bind(sf: Seq<Option<Type>>, s: Seq<Option<Type>>, id: u16, u: Type)
    requires
        (id as int) < s.len(),
        !bound(s, id),
        sat_subst(sf, bind_update(s, id, u)),
    ensures
        sat_subst(sf, s),
        apply_spec(sf, Type::Variable(id)) == apply_spec(sf, u),
{
    let s2 = bind_update(s, id, u);
    assert(bound(s2, id) && s2[id as int]->Some_0 == u);
    assert forall|j: u16|
        bound(s, j) implies apply_spec(sf, Type::Variable(j)) == apply_spec(
        sf,
        s[j as int]->Some_0,
    ) by {
        assert(j != id);
        assert(bound(s2, j) && s2[j as int]->Some_0 == subst1(id, u, s[j as int]->Some_0));
        lemma_subst1_sat(sf, id, u, s[j as int]->Some_0);
    }
}

/// A structural copy of a constraint.
fn copy_constraint(c: &Constraint) -> (r: Constraint)
    ensures
        r == *c,
{
    Constraint { left: copy_type(&c.left), right: copy_type(&c.right), span: c.span }
}

/// `t` with every occurrence of `Variable(id)` replaced by a copy of
/// `u`.
fn subst1_exec(id: u16, u: &Type, t: &Type) -> (r: Type)
    ensures
        r == subst1(id, *u, *t),
    decreases *t,
{
    match t {
        Type::Function(p, q) => Type::Function(
            Box::new(subst1_exec(id, u, &**p)),
            Box::new(subst1_exec(id, u, &**q)),
        ),
        Type::Variable(j) => {
            if *j == id {
                copy_type(u)
            } else {
                Type::Variable(*j)
            }
        },
        Type::Unit => Type::Unit,
        Type::Int => Type::Int,
    }
}

impl Substitution {
    /// Resolves `id` to `u`: rewrites every binding with the new
    /// equation and records it, keeping the table in solved form.
    #[verifier::loop_isolation(false)]
    fn bind(&mut self, id: u16, u: &Type)
        requires
            (id as int) < old(self)@.len(),
        ensures
            final(self)@ == bind_update(old(self)@, id, *u),
            final(self)@.len() == old(self)@.len(),
    {
        let n = self.table.len();
        let mut nt: Vec<Option<Type>> = Vec::new();
        let mut i: usize = 0;
        while i < n
            invariant
                i <= n,
                nt@.len() == i,
                forall|k: int| 0 <= k < i ==> nt@[k] == bind_update(old(self)@, id, *u)[k],
            decreases n - i,
        {
            if i == id as usize {
                nt.push(Some(copy_type(u)));
            } else {
                match &self.table[i] {
                    Some(t) => nt.push(Some(subst1_exec(id, u, t))),
                    None => nt.push(None),
                }
            }
            i = i + 1;
        }
        self.table = nt;
        proof {
            assert(self@ =~= bind_update(old(self)@, id, *u));
        }
    }
}

/// One run of the unifier over `work`, popping from the end.  The
/// returned ghost fuel witnesses that `solve_fuel` reaches the same
/// outcome; on success the final table is in solved form, satisfies
/// every constraint that was on the worklist, and still agrees with
/// every binding the table already had.
fn solve_go(sub: &mut Substitution, work: &mut Vec<Constraint>) -> (r: (Result<(), Error>, Ghost<
    nat,
>))
    requires
        solved_form(old(sub)@),
        old(sub)@.len() == ID_SPACE,
    ensures
        final(sub)@.len() == ID_SPACE,
        ({
            let out = solve_fuel(old(work)@, old(sub)@, r.1@);
            match r.0 {
                Ok(_) => {
                    &&& out == Some(SolveResult::Done(final(sub)@))
                    &&& solved_form(final(sub)@)
                    &&& sat_subst(final(sub)@, old(sub)@)
                    &&& forall|i: int|
                        0 <= i < old(work)@.len() ==> satisfies(
                            final(sub)@,
                            #[trigger] old(work)@[i],
                        )
                },
                Err(e) => err_matches(e, out),
            }
        }),
    decreases unbound_count(sub@), wsize(sub@, work@),
{
    let ghost s0 = sub@;
    let ghost w0 = work@;
    let popped = work.pop();
    match popped {
        None => {
            proof {
                assert(solve_fuel(w0, s0, 0) == Some(SolveResult::Done(s0)));
                assert forall|j: u16| bound(s0, j) implies apply_spec(s0, Type::Variable(j))
                    == apply_spec(s0, s0[j as int]->Some_0) by {
                    lemma_apply_id(s0, s0[j as int]->Some_0);
                }
            }
            (Ok(()), Ghost(0))
        },
        Some(c) => {
            proof {
                assert(work@ =~= w0.drop_last());
                assert(c == w0.last());
            }
            let l = sub.apply(&c.left);
            let r = sub.apply(&c.right);
            let ghost sl = apply_spec(s0, c.left);
            let ghost sr = apply_spec(s0, c.right);
            if type_eq(&l, &r) {
                proof {
                    lemma_type_size_pos(sl);
                }
                let res = solve_go(sub, work);
                let ghost f = res.1@;
                proof {
                    assert(solve_fuel(w0, s0, f + 1) == solve_fuel(w0.drop_last(), s0, f));
                    if res.0 is Ok {
                        lemma_sat_apply(sub@, s0, c.left);
                        lemma_sat_apply(sub@, s0, c.right);
                        assert forall|i: int| 0 <= i < w0.len() implies satisfies(
                            sub@,
                            w0[i],
                        ) by {
                            if i < w0.len() - 1 {
                                assert(w0[i] == w0.drop_last()[i]);
                            } else {
                                assert(w0[i] == c);
                            }
                        }
                    }
                }
                (res.0, Ghost(f + 1))
            } else if let Type::Variable(idl) = l {
                if occurs(idl, &r) {
                    proof {
                        assert(solve_fuel(w0, s0, 1) == Some(
                            SolveResult::Infinite { span: c.span },
                        ));
                    }
                    (Err(Error::InfiniteType { span: c.span }), Ghost(1))
                } else {
                    proof {
                        lemma_apply_no_bound(s0, c.left);
                        assert(occurs_spec(idl, sl));
                        assert(!bound(s0, idl));
                        lemma_apply_no_bound(s0, c.right);
                        lemma_bind_solved(s0, idl, sr);
                        lemma_unbound_bind(s0, idl, sr);
                    }
                    sub.bind(idl, &r);
                    let res = solve_go(sub, work);
                    let ghost f = res.1@;
                    proof {
                        assert(solve_fuel(w0, s0, f + 1) == solve_fuel(
                            w0.drop_last(),
                            bind_update(s0, idl, sr),
                            f,
                        ));
                        if res.0 is Ok {
                            lemma_sat_bind(sub@, s0, idl, sr);
                            lemma_sat_apply(sub@, s0, c.left);
                            lemma_sat_apply(sub@, s0, c.right);
                            assert forall|i: int| 0 <= i < w0.len() implies satisfies(
                                sub@,
                                w0[i],
                            ) by {
                                if i < w0.len() - 1 {
                                    assert(w0[i] == w0.drop_last()[i]);
                                } else {
                                    assert(w0[i] == c);
                                }
                            }
                        }
                    }
                    (res.0, Ghost(f + 1))
                }
            } else if let Type::Variable(idr) = r {
                if occurs(idr, &l) {
                    proof {
                        assert(solve_fuel(w0, s0, 1) == Some(
                            SolveResult::Infinite { span: c.span },
                        ));
                    }
                    (Err(Error::InfiniteType { span: c.span }), Ghost(1))
                } else {
                    proof {
                        lemma_apply_no_bound(s0, c.right);
                        assert(occurs_spec(idr, sr));
                        assert(!bound(s0, idr));
                        lemma_apply_no_bound(s0, c.left);
                        lemma_bind_solved(s0, idr, sl);
                        lemma_unbound_bind(s0, idr, sl);
                    }
                    sub.bind(idr, &l);
                    let res = solve_go(sub, work);
                    let ghost f = res.1@;
                    proof {
                        assert(solve_fuel(w0, s0, f + 1) == solve_fuel(
                            w0.drop_last(),
                            bind_update(s0, idr, sl),
                            f,
                        ));
                        if res.0 is Ok {
                            lemma_sat_bind(sub@, s0, idr, sl);
                            lemma_sat_apply(sub@, s0, c.left);
                            lemma_sat_apply(sub@, s0, c.right);
                            assert forall|i: int| 0 <= i < w0.len() implies satisfies(
                                sub@,
                                w0[i],
                            ) by {
                                if i < w0.len() - 1 {
                                    assert(w0[i] == w0.drop_last()[i]);
                                } else {
                                    assert(w0[i] == c);
                                }
                            }
                        }
                    }
                    (res.0, Ghost(f + 1))
                }
            } else {
                let l_fun = matches!(l, Type::Function(..));
                let r_fun = matches!(r, Type::Function(..));
                if l_fun && r_fun {
                    match (l, r) {
                        (Type::Function(lp, lq), Type::Function(rp, rq)) => {
                            let ghost c1 = Constraint { left: *lp, right: *rp, span: c.span };
                            let ghost c2 = Constraint { left: *lq, right: *rq, span: c.span };
                            proof {
                                lemma_apply_no_bound(s0, c.left);
                                lemma_apply_no_bound(s0, c.right);
                                assert forall|m: u16| bound(s0, m) implies !occurs_spec(m, *lp)
                                    && !occurs_spec(m, *lq) && !occurs_spec(m, *rp)
                                    && !occurs_spec(m, *rq) by {
                                    assert(!occurs_spec(m, sl));
                                    assert(!occurs_spec(m, sr));
                                }
                                lemma_apply_id(s0, *lp);
                                lemma_apply_id(s0, *lq);
                                lemma_apply_id(s0, *rp);
                                lemma_apply_id(s0, *rq);
                                assert(work@.push(c1).drop_last() =~= work@);
                                assert(work@.push(c1).push(c2).drop_last() =~= work@.push(c1));
                                assert(work@.push(c1).last() == c1);
                                assert(work@.push(c1).push(c2).last() == c2);
                                assert(sl == l && sr == r);
                                assert(sl.size() == 1 + (*lp).size() + (*lq).size());
                                assert(sr.size() == 1 + (*rp).size() + (*rq).size());
                                assert(csize(s0, c) == sl.size() + sr.size());
                                assert(csize(s0, c1) == (*lp).size() + (*rp).size());
                                assert(csize(s0, c2) == (*lq).size() + (*rq).size());
                                assert(wsize(s0, w0) == wsize(s0, work@) + csize(s0, c));
                                assert(wsize(s0, work@.push(c1)) == wsize(s0, work@) + csize(
                                    s0,
                                    c1,
                                ));
                                assert(wsize(s0, work@.push(c1).push(c2)) == wsize(
                                    s0,
                                    work@.push(c1),
                                ) + csize(s0, c2));
                                assert(wsize(s0, work@.push(c1).push(c2)) == wsize(s0, w0) - 2);
                            }
                            work.push(Constraint { left: *lp, right: *rp, span: c.span });
                            work.push(Constraint { left: *lq, right: *rq, span: c.span });
                            let ghost w2 = work@;
                            let res = solve_go(sub, work);
                            let ghost f = res.1@;
                            proof {
                                assert(solve_fuel(w0, s0, f + 1) == solve_fuel(w2, s0, f));
                                if res.0 is Ok {
                                    lemma_sat_apply(sub@, s0, c.left);
                                    lemma_sat_apply(sub@, s0, c.right);
                                    assert(satisfies(sub@, w2[w2.len() - 2]));
                                    assert(satisfies(sub@, w2[w2.len() - 1]));
                                    assert(w2[w2.len() - 2] == c1 && w2[w2.len() - 1] == c2);
                                    assert(apply_spec(sub@, sl) == apply_spec(sub@, sr));
                                    assert forall|i: int| 0 <= i < w0.len() implies satisfies(
                                        sub@,
                                        w0[i],
                                    ) by {
                                        if i < w0.len() - 1 {
                                            assert(w0[i] == w2[i]);
                                        } else {
                                            assert(w0[i] == c);
                                        }
                                    }
                                }
                            }
                            (res.0, Ghost(f + 1))
                        },
                        _ => {
                            proof {
                                assert(false);
                            }
                            (Ok(()), Ghost(0))
                        },
                    }
                } else {
                    let expected = r.to_string();
                    let found = l.to_string();
                    proof {
                        assert(solve_fuel(w0, s0, 1) == Some(
                            SolveResult::Mismatch { expected: sr, found: sl, span: c.span },
                        ));
                    }
                    (
                        Err(Error::UnificationFailure { expected, found, span: c.span }),
                        Ghost(1),
                    )
                }
            }
        },
    }
}

/// The constraint list in reverse order.  The solver pops from the end
/// of its worklist, so starting from the reversal makes it consume
/// constraints oldest first.
pub open spec fn rev_cs(cs: Seq<Constraint>) -> Seq<Constraint> {
    Seq::new(cs.len(), |i: int| cs[cs.len() - 1 - i])
}

/// The table every run starts from: one empty slot per type-variable id.
pub open spec fn empty_table() -> Seq<Option<Type>> {
    Seq::new(ID_SPACE as nat, |i: int| None::<Type>)
}

/// Solves the constraints into a substitution, or reports the first
/// contradiction.  On success the substitution is in solved form (one
/// application is a fixpoint) and makes the two sides of every given
/// constraint equal; on an error the constraints have no solution at
/// all (`lemma_solve_err_unsatisfiable`).  Either way the outcome is
/// exactly what the step-indexed algorithm `solve_fuel` computes on
/// these constraints, so solving is deterministic
/// (`lemma_solve_fuel_agree`).
pub fn solve_constraints(cs: &Vec<Constraint>) -> (r: Result<Substitution, Error>)
    ensures
        match r {
            Ok(sub) => {
                &&& exists|f: nat|
                    solve_fuel(rev_cs(cs@), empty_table(), f) == Some(SolveResult::Done(sub@))
                &&& solved_form(sub@)
                &&& forall|i: int| 0 <= i < cs@.len() ==> satisfies(sub@, #[trigger] cs@[i])
            },
            Err(e) => exists|f: nat|
                {
                    &&& solve_fuel(rev_cs(cs@), empty_table(), f) is Some
                    &&& err_matches(e, solve_fuel(rev_cs(cs@), empty_table(), f))
                },
        },
{
    let n = cs.len();
    let mut work: Vec<Constraint> = Vec::new();
    let mut i: usize = n;
    #[verifier::loop_isolation(false)]
    while i > 0
        invariant
            i <= n,
            work@.len() == n - i,
            forall|k: int| 0 <= k < n - i ==> work@[k] == cs@[n - 1 - k],
        decreases i,
    {
        i = i - 1;
        work.push(copy_constraint(&cs[i]));
    }
    proof {
        assert(work@ =~= rev_cs(cs@));
    }
    let mut sub = Substitution::empty(ID_SPACE);
    proof {
        assert(sub@ =~= empty_table());
    }
    let res = solve_go(&mut sub, &mut work);
    let ghost f = res.1@;
    match res.0 {
        Ok(_) => {
            proof {
                assert(solve_fuel(rev_cs(cs@), empty_table(), f) == Some(
                    SolveResult::Done(sub@),
                ));
                assert forall|k: int| 0 <= k < cs@.len() implies satisfies(sub@, cs@[k]) by {
                    assert(rev_cs(cs@)[cs@.len() - 1 - k] == cs@[k]);
                    assert(satisfies(sub@, rev_cs(cs@)[cs@.len() - 1 - k]));
                }
            }
            Ok(sub)
        },
        Err(e) => {
            proof {
                assert(solve_fuel(rev_cs(cs@), empty_table(), f) is Some);
            }
            Err(e)
        },
    }
}

/// A type containing `id` never shrinks below the variable under any
/// substitution: what replaces the occurrence sits inside the whole.
proof fn lemma_occurs_size(sf: Seq<Option<Type>>, id: u16, t: Type)
    requires
        occurs_spec(id, t),
    ensures
        apply_spec(sf, t).size() >= apply_spec(sf, Type::Variable(id)).size(),
        t != Type::Variable(id) ==> apply_spec(sf, t).size() > apply_spec(
            sf,
            Type::Variable(id),
        ).size(),
    decreases t,
{
    match t {
        Type::Function(p, r) => {
            if occurs_spec(id, *p) {
                lemma_occurs_size(sf, id, *p);
            } else {
                lemma_occurs_size(sf, id, *r);
            }
            lemma_type_size_pos(apply_spec(sf, *p));
            lemma_type_size_pos(apply_spec(sf, *r));
        },
        Type::Variable(_) => {},
        Type::Unit => {},
        Type::Int => {},
    }
}

/// Soundness of the occurs check: a variable that occurs properly
/// inside a type cannot be unified with it by any substitution — the
/// equation only has infinite solutions, which the type algebra does
/// not contain.
pub proof fn lemma_occurs_check_sound(sf: Seq<Option<Type>>, id: u16, t: Type)
    requires
        occurs_spec(id, t),
        t != Type::Variable(id),
    ensures
        apply_spec(sf, Type::Variable(id)) != apply_spec(sf, t),
{
    lemma_occurs_size(sf, id, t);
}

/// Two types that disagree on their outermost shape — and are not
/// variables, nor a pair of functions — stay different under any
/// substitution: application preserves the head constructor.
proof fn lemma_mismatch_sound(tau: Seq<Option<Type>>, a: Type, b: Type)
    requires
        a != b,
        !(a is Variable),
        !(b is Variable),
        !(a is Function && b is Function),
    ensures
        apply_spec(tau, a) != apply_spec(tau, b),
{
    assert(a is Function ==> apply_spec(tau, a) is Function);
    assert(a is Int ==> apply_spec(tau, a) is Int);
    assert(a is Unit ==> apply_spec(tau, a) is Unit);
    assert(b is Function ==> apply_spec(tau, b) is Function);
    assert(b is Int ==> apply_spec(tau, b) is Int);
    assert(b is Unit ==> apply_spec(tau, b) is Unit);
}

/// Applying the table after a binding is the same as applying the old
/// table and then substituting the new equation.
proof fn lemma_apply_bind_compose(s: Seq<Option<Type>>, id: u16, u: Type, t: Type)
    requires
        (id as int) < s.len(),
        !bound(s, id),
    ensures
        apply_spec(bind_update(s, id, u), t) == subst1(id, u, apply_spec(s, t)),
    decreases t,
{
    let s2 = bind_update(s, id, u);
    match t {
        Type::Function(p, r) => {
            lemma_apply_bind_compose(s, id, u, *p);
            lemma_apply_bind_compose(s, id, u, *r);
        },
        Type::Variable(j) => {
            if j == id {
                assert(s2[id as int] == Some(u));
            } else if bound(s, j) {
                assert(s2[j as int] == Some(subst1(id, u, s[j as int]->Some_0)));
            } else {
                if (j as int) < s.len() {
                    assert(s2[j as int] is None);
                }
            }
        },
        Type::Unit => {},
        Type::Int => {},
    }
}

/// When the algorithm fails, the worklist it failed on has no solution:
/// every candidate substitution breaks at least one of its constraints
/// (read under the bindings already made).
proof fn lemma_solve_error_complete(
    w: Seq<Constraint>,
    s: Seq<Option<Type>>,
    f: nat,
    tau: Seq<Option<Type>>,
)
    requires
        solved_form(s),
        s.len() == ID_SPACE,
        solve_fuel(w, s, f) is Some,
        !(solve_fuel(w, s, f) matches Some(SolveResult::Done(_))),
    ensures
        exists|i: int|
            0 <= i < w.len() && apply_spec(tau, apply_spec(s, #[trigger] w[i].left))
                != apply_spec(tau, apply_spec(s, w[i].right)),
    decreases f,
{
    let c = w.last();
    let rest = w.drop_last();
    let l = apply_spec(s, c.left);
    let r = apply_spec(s, c.right);
    let last = w.len() - 1;
    if l == r {
        lemma_solve_error_complete(rest, s, (f - 1) as nat, tau);
        let i = choose|i: int|
            0 <= i < rest.len() && apply_spec(tau, apply_spec(s, #[trigger] rest[i].left))
                != apply_spec(tau, apply_spec(s, rest[i].right));
        assert(w[i] == rest[i]);
    } else if l is Variable {
        let id = l->Variable_0;
        if occurs_spec(id, r) {
            assert(r != Type::Variable(id));
            lemma_occurs_check_sound(tau, id, r);
            assert(apply_spec(tau, apply_spec(s, w[last].left)) != apply_spec(
                tau,
                apply_spec(s, w[last].right),
            ));
        } else {
            if apply_spec(tau, l) != apply_spec(tau, r) {
                assert(apply_spec(tau, apply_spec(s, w[last].left)) != apply_spec(
                    tau,
                    apply_spec(s, w[last].right),
                ));
            } else {
                lemma_apply_no_bound(s, c.left);
                lemma_apply_no_bound(s, c.right);
                assert(occurs_spec(id, l));
                assert(!bound(s, id));
                lemma_bind_solved(s, id, r);
                lemma_solve_error_complete(rest, bind_update(s, id, r), (f - 1) as nat, tau);
                let s2 = bind_update(s, id, r);
                let i = choose|i: int|
                    0 <= i < rest.len() && apply_spec(tau, apply_spec(s2, #[trigger] rest[i].left))
                        != apply_spec(tau, apply_spec(s2, rest[i].right));
                lemma_apply_bind_compose(s, id, r, rest[i].left);
                lemma_apply_bind_compose(s, id, r, rest[i].right);
                lemma_subst1_sat(tau, id, r, apply_spec(s, rest[i].left));
                lemma_subst1_sat(tau, id, r, apply_spec(s, rest[i].right));
                assert(w[i] == rest[i]);
                assert(apply_spec(tau, apply_spec(s, w[i].left)) != apply_spec(
                    tau,
                    apply_spec(s, w[i].right),
                ));
            }
        }
    } else if r is Variable {
        let id = r->Variable_0;
        if occurs_spec(id, l) {
            assert(l != Type::Variable(id));
            lemma_occurs_check_sound(tau, id, l);
            assert(apply_spec(tau, apply_spec(s, w[last].left)) != apply_spec(
                tau,
                apply_spec(s, w[last].right),
            ));
        } else {
            if apply_spec(tau, l) != apply_spec(tau, r) {
                assert(apply_spec(tau, apply_spec(s, w[last].left)) != apply_spec(
                    tau,
                    apply_spec(s, w[last].right),
                ));
            } else {
                lemma_apply_no_bound(s, c.left);
                lemma_apply_no_bound(s, c.right);
                assert(occurs_spec(id, r));
                assert(!bound(s, id));
                lemma_bind_solved(s, id, l);
                lemma_solve_error_complete(rest, bind_update(s, id, l), (f - 1) as nat, tau);
                let s2 = bind_update(s, id, l);
                let i = choose|i: int|
                    0 <= i < rest.len() && apply_spec(tau, apply_spec(s2, #[trigger] rest[i].left))
                        != apply_spec(tau, apply_spec(s2, rest[i].right));
                lemma_apply_bind_compose(s, id, l, rest[i].left);
                lemma_apply_bind_compose(s, id, l, rest[i].right);
                lemma_subst1_sat(tau, id, l, apply_spec(s, rest[i].left));
                lemma_subst1_sat(tau, id, l, apply_spec(s, rest[i].right));
                assert(w[i] == rest[i]);
                assert(apply_spec(tau, apply_spec(s, w[i].left)) != apply_spec(
                    tau,
                    apply_spec(s, w[i].right),
                ));
            }
        }
    } else if l is Function && r is Function {
        let c1 = Constraint { left: *l->Function_0, right: *r->Function_0, span: c.span };
        let c2 = Constraint { left: *l->Function_1, right: *r->Function_1, span: c.span };
        let w2 = rest.push(c1).push(c2);
        lemma_solve_error_complete(w2, s, (f - 1) as nat, tau);
        let i = choose|i: int|
            0 <= i < w2.len() && apply_spec(tau, apply_spec(s, #[trigger] w2[i].left))
                != apply_spec(tau, apply_spec(s, w2[i].right));
        if i < rest.len() {
            assert(w2[i] == rest[i]);
            assert(w[i] == rest[i]);
            assert(apply_spec(tau, apply_spec(s, w[i].left)) != apply_spec(
                tau,
                apply_spec(s, w[i].right),
            ));
        } else {
            lemma_apply_no_bound(s, c.left);
            lemma_apply_no_bound(s, c.right);
            assert forall|m: u16| bound(s, m) implies !occurs_spec(m, c1.left) && !occurs_spec(
                m,
                c1.right,
            ) && !occurs_spec(m, c2.left) && !occurs_spec(m, c2.right) by {
                assert(!occurs_spec(m, l));
                assert(!occurs_spec(m, r));
            }
            lemma_apply_id(s, c1.left);
            lemma_apply_id(s, c1.right);
            lemma_apply_id(s, c2.left);
            lemma_apply_id(s, c2.right);
            assert(w2[i] == c1 || w2[i] == c2);
            assert(apply_spec(tau, l) != apply_spec(tau, r));
            assert(apply_spec(tau, apply_spec(s, w[last].left)) != apply_spec(
                tau,
                apply_spec(s, w[last].right),
            ));
        }
    } else {
        lemma_mismatch_sound(tau, l, r);
        assert(apply_spec(tau, apply_spec(s, w[last].left)) != apply_spec(
            tau,
            apply_spec(s, w[last].right),
        ));
    }
}

/// Completeness of failure: when solving the constraints reports an
/// error, the constraints really have no solution — every candidate
/// substitution leaves at least one of them with two different sides.
/// Together with the success contract of `solve_constraints`, solving
/// succeeds exactly on satisfiable constraint sets.
pub proof fn lemma_solve_err_unsatisfiable(cs: Seq<Constraint>, f: nat, tau: Seq<Option<Type>>)
    requires
        solve_fuel(rev_cs(cs), empty_table(), f) is Some,
        !(solve_fuel(rev_cs(cs), empty_table(), f) matches Some(SolveResult::Done(_))),
    ensures
        exists|i: int|
            0 <= i < cs.len() && apply_spec(tau, #[trigger] cs[i].left) != apply_spec(
                tau,
                cs[i].right,
            ),
{
    let et = empty_table();
    lemma_solve_error_complete(rev_cs(cs), et, f, tau);
    let j = choose|j: int|
        0 <= j < rev_cs(cs).len() && apply_spec(tau, apply_spec(et, #[trigger] rev_cs(cs)[j].left))
            != apply_spec(tau, apply_spec(et, rev_cs(cs)[j].right));
    let i = cs.len() - 1 - j;
    assert(rev_cs(cs)[j] == cs[i]);
    lemma_apply_id(et, cs[i].left);
    lemma_apply_id(et, cs[i].right);
    assert(apply_spec(tau, cs[i].left) != apply_spec(tau, cs[i].right));
}

/// Two sufficient fuels give the same outcome: the algorithm's answer
/// depends only on the worklist and the starting substitution.
pub proof fn lemma_solve_fuel_agree(
    w: Seq<Constraint>,
    s: Seq<Option<Type>>,
    f1: nat,
    f2: nat,
)
    requires
        solve_fuel(w, s, f1) is Some,
        solve_fuel(w, s, f2) is Some,
    ensures
        solve_fuel(w, s, f1) == solve_fuel(w, s, f2),
    decreases f1,
{
    if w.len() == 0 {
    } else {
        let c = w.last();
        let rest = w.drop_last();
        let l = apply_spec(s, c.left);
        let r = apply_spec(s, c.right);
        if l == r {
            lemma_solve_fuel_agree(rest, s, (f1 - 1) as nat, (f2 - 1) as nat);
        } else if l is Variable {
            if !occurs_spec(l->Variable_0, r) {
                lemma_solve_fuel_agree(
                    rest,
                    bind_update(s, l->Variable_0, r),
                    (f1 - 1) as nat,
                    (f2 - 1) as nat,
                );
            }
        } else if r is Variable {
            if !occurs_spec(r->Variable_0, l) {
                lemma_solve_fuel_agree(
                    rest,
                    bind_update(s, r->Variable_0, l),
                    (f1 - 1) as nat,
                    (f2 - 1) as nat,
                );
            }
        } else if l is Function && r is Function {
            let w2 = rest.push(
                Constraint { left: *l->Function_0, right: *r->Function_0, span: c.span },
            ).push(Constraint { left: *l->Function_1, right: *r->Function_1, span: c.span });
            lemma_solve_fuel_agree(w2, s, (f1 - 1) as nat, (f2 - 1) as nat);
        }
    }
}

} // verus!

//! The spine-based normal-order reducer and the equivalence relations.
//!
//! Reduction walks down the left spine of applications, stacking pending
//! arguments, and performs a beta step whenever an abstraction meets the top
//! of the stack. Since untyped lambda terms need not normalize, every
//! reduction carries a step budget (fuel): each beta step costs one unit, and
//! `None` reports that the budget ran out.

use vstd::prelude::*;

use crate::subst::subst;
use crate::subst::subst_spec;
use crate::term::Lambda;
use crate::term::LambdaV;
use crate::term::Sym;
use crate::term::app_ref;
use crate::term::fv;
use crate::term::size;
use crate::term::vabs;
use crate::term::vapp;
use crate::term::vvar;

verus! {

/// The model of an optional term.
pub open spec fn opt_model(r: Option<Lambda>) -> Option<LambdaV> {
    match r {
        Option::Some(t) => Option::Some(t@),
        Option::None => Option::None,
    }
}

/// The models of the pending-argument stack, innermost argument last.
pub open spec fn stack_model(xs: Seq<Lambda>) -> Seq<LambdaV> {
    xs.map_values(|t: Lambda| t@)
}

/// Reapplies the pending arguments around a head term, the top of the stack
/// becoming the innermost argument.
pub open spec fn unwind(t: LambdaV, xs: Seq<LambdaV>) -> LambdaV
    decreases xs.len(),
{
    if xs.len() == 0 {
        t
    } else {
        unwind(vapp(t, xs.last()), xs.drop_last())
    }
}

/// The total size of the pending arguments.
pub open spec fn stack_size(xs: Seq<LambdaV>) -> nat
    decreases xs.len(),
{
    if xs.len() == 0 {
        0
    } else {
        size(xs.last()) + stack_size(xs.drop_last())
    }
}

/// One spine walk toward weak head normal form: applications push their
/// argument, an abstraction consumes the top of the stack by a beta step,
/// and a variable head takes the leftover arguments back.
pub open spec fn spine_whnf_s(t: LambdaV, xs: Seq<LambdaV>, fuel: nat) -> Option<LambdaV>
    decreases fuel, size(t),
{
    match t {
        LambdaV::App { func, arg } => spine_whnf_s(*func, xs.push(*arg), fuel),
        LambdaV::Abs { name, body } => {
            if xs.len() == 0 {
                Some(vabs(name, *body))
            } else if fuel == 0 {
                None
            } else {
                spine_whnf_s(subst_spec(name, xs.last(), *body), xs.drop_last(), (fuel - 1) as nat)
            }
        }
        LambdaV::Var { name } => Some(unwind(vvar(name), xs)),
    }
}

/// Weak head normal form of `t` under normal order, within `fuel` beta steps.
pub open spec fn whnf_spec(t: LambdaV, fuel: nat) -> Option<LambdaV> {
    spine_whnf_s(t, Seq::empty(), fuel)
}

/// The spine walk of full normalization: like `spine_whnf_s`, but a bare
/// abstraction is normalized under its binder and leftover arguments are
/// normalized before they are reapplied.
pub open spec fn spine_nf_s(t: LambdaV, xs: Seq<LambdaV>, fuel: nat) -> Option<LambdaV>
    decreases fuel, size(t) + stack_size(xs), 0nat,
{
    match t {
        LambdaV::App { func, arg } => {
            proof {
                assert(xs.push(*arg).drop_last() =~= xs);
            }
            spine_nf_s(*func, xs.push(*arg), fuel)
        }
        LambdaV::Abs { name, body } => {
            if xs.len() == 0 {
                match spine_nf_s(*body, Seq::empty(), fuel) {
                    Some(e2) => Some(vabs(name, e2)),
                    None => None,
                }
            } else if fuel == 0 {
                None
            } else {
                spine_nf_s(subst_spec(name, xs.last(), *body), xs.drop_last(), (fuel - 1) as nat)
            }
        }
        LambdaV::Var { name } => nf_args(vvar(name), xs, fuel),
    }
}

/// Normalizes the pending arguments, top of the stack first, and reapplies
/// them around the irreducible head `h`.
pub open spec fn nf_args(h: LambdaV, xs: Seq<LambdaV>, fuel: nat) -> Option<LambdaV>
    decreases fuel, stack_size(xs), 1nat,
{
    if xs.len() == 0 {
        Some(h)
    } else {
        match spine_nf_s(xs.last(), Seq::empty(), fuel) {
            Some(a2) => nf_args(vapp(h, a2), xs.drop_last(), fuel),
            None => None,
        }
    }
}

/// Full normal form of `t` under normal order, within `fuel` beta steps.
pub open spec fn nf_spec(t: LambdaV, fuel: nat) -> Option<LambdaV> {
    spine_nf_s(t, Seq::empty(), fuel)
}

/// The binders passed on the way into a term, innermost binder last.
pub open spec fn env_model(vs: Seq<Sym>) -> Seq<Seq<char>> {
    vs.map_values(|v: Sym| v@)
}

/// The depth of the innermost binder named `x`: `Some(0)` when the last
/// entry matches, counting outward; `None` when no entry does.
pub open spec fn lookup(env: Seq<Seq<char>>, x: Seq<char>) -> Option<int>
    decreases env.len(),
{
    if env.len() == 0 {
        None
    } else if env.last() == x {
        Some(0)
    } else {
        match lookup(env.drop_last(), x) {
            Some(i) => Some(i + 1),
            None => None,
        }
    }
}

/// Alpha-equivalence under two binder environments: equal shape, and each
/// variable either bound at the same depth on both sides or free under the
/// same name on both sides.
pub open spec fn alpha_env(a: LambdaV, b: LambdaV, ea: Seq<Seq<char>>, eb: Seq<Seq<char>>) -> bool
    decreases size(a),
{
    match (a, b) {
        (LambdaV::Var { name: u }, LambdaV::Var { name: u1 }) => match (
            lookup(ea, u),
            lookup(eb, u1),
        ) {
            (Some(i), Some(j)) => i == j,
            (None, None) => u == u1,
            _ => false,
        },
        (LambdaV::App { func: f, arg: x }, LambdaV::App { func: f1, arg: x1 }) => alpha_env(
            *f,
            *f1,
            ea,
            eb,
        ) && alpha_env(*x, *x1, ea, eb),
        (LambdaV::Abs { name: s, body: e }, LambdaV::Abs { name: s1, body: e1 }) => alpha_env(
            *e,
            *e1,
            ea.push(s),
            eb.push(s1),
        ),
        _ => false,
    }
}

/// Alpha-equivalence: the same shape up to a consistent renaming of bound
/// names, with free variables matched by name.
pub open spec fn alpha_eq_s(a: LambdaV, b: LambdaV) -> bool {
    alpha_env(a, b, Seq::empty(), Seq::empty())
}

/// Beta-equivalence within the budget: both normal forms exist and are
/// alpha-equivalent.
pub open spec fn beta_eq_s(a: LambdaV, b: LambdaV, fuel: nat) -> Option<bool> {
    match (nf_spec(a, fuel), nf_spec(b, fuel)) {
        (Some(na), Some(nb)) => Some(alpha_eq_s(na, nb)),
        _ => None,
    }
}

/// Alpha-equivalence under equal environments is reflexive.
proof fn lemma_alpha_env_refl(t: LambdaV, e: Seq<Seq<char>>)
    ensures
        alpha_env(t, t, e, e),
    decreases size(t),
{
    match t {
        LambdaV::Var { name } => {
            match lookup(e, name) {
                Option::Some(i) => {}
                Option::None => {}
            }
        }
        LambdaV::App { func, arg } => {
            lemma_alpha_env_refl(*func, e);
            lemma_alpha_env_refl(*arg, e);
        }
        LambdaV::Abs { name, body } => {
            lemma_alpha_env_refl(*body, e.push(name));
        }
    }
}

/// Alpha-equivalence is reflexive: every term is alpha-equivalent to itself.
pub proof fn lemma_alpha_eq_refl(t: LambdaV)
    ensures
        alpha_eq_s(t, t),
{
    lemma_alpha_env_refl(t, Seq::empty());
}

/// Swapping the sides swaps the environments and nothing else.
proof fn lemma_alpha_env_sym(a: LambdaV, b: LambdaV, ea: Seq<Seq<char>>, eb: Seq<Seq<char>>)
    ensures
        alpha_env(a, b, ea, eb) == alpha_env(b, a, eb, ea),
    decreases size(a),
{
    match (a, b) {
        (LambdaV::Var { name: u }, LambdaV::Var { name: u1 }) => {
            match (lookup(ea, u), lookup(eb, u1)) {
                (Option::Some(i), Option::Some(j)) => {}
                _ => {}
            }
        }
        (LambdaV::App { func: f, arg: x }, LambdaV::App { func: f1, arg: x1 }) => {
            lemma_alpha_env_sym(*f, *f1, ea, eb);
            lemma_alpha_env_sym(*x, *x1, ea, eb);
        }
        (LambdaV::Abs { name: s, body: e }, LambdaV::Abs { name: s1, body: e1 }) => {
            lemma_alpha_env_sym(*e, *e1, ea.push(s), eb.push(s1));
        }
        _ => {}
    }
}

/// Alpha-equivalence is symmetric.
pub proof fn lemma_alpha_eq_sym(a: LambdaV, b: LambdaV)
    ensures
        alpha_eq_s(a, b) == alpha_eq_s(b, a),
{
    lemma_alpha_env_sym(a, b, Seq::empty(), Seq::empty());
}

/// Equivalence under chained environments composes.
proof fn lemma_alpha_env_trans(
    a: LambdaV,
    b: LambdaV,
    c: LambdaV,
    ea: Seq<Seq<char>>,
    eb: Seq<Seq<char>>,
    ec: Seq<Seq<char>>,
)
    requires
        alpha_env(a, b, ea, eb),
        alpha_env(b, c, eb, ec),
    ensures
        alpha_env(a, c, ea, ec),
    decreases size(a),
{
    match (a, b, c) {
        (LambdaV::Var { .. }, LambdaV::Var { .. }, LambdaV::Var { .. }) => {}
        (
            LambdaV::App { func: f, arg: x },
            LambdaV::App { func: f1, arg: x1 },
            LambdaV::App { func: f2, arg: x2 },
        ) => {
            lemma_alpha_env_trans(*f, *f1, *f2, ea, eb, ec);
            lemma_alpha_env_trans(*x, *x1, *x2, ea, eb, ec);
        }
        (
            LambdaV::Abs { name: s, body: e },
            LambdaV::Abs { name: s1, body: e1 },
            LambdaV::Abs { name: s2, body: e2 },
        ) => {
            lemma_alpha_env_trans(*e, *e1, *e2, ea.push(s), eb.push(s1), ec.push(s2));
        }
        _ => {}
    }
}

/// Alpha-equivalence is transitive.
pub proof fn lemma_alpha_eq_trans(a: LambdaV, b: LambdaV, c: LambdaV)
    requires
        alpha_eq_s(a, b),
        alpha_eq_s(b, c),
    ensures
        alpha_eq_s(a, c),
{
    lemma_alpha_env_trans(a, b, c, Seq::empty(), Seq::empty(), Seq::empty());
}

/// Under matching environments, the two sides agree on which names occur
/// free past their binder stacks.
proof fn lemma_alpha_env_fv(a: LambdaV, b: LambdaV, ea: Seq<Seq<char>>, eb: Seq<Seq<char>>)
    requires
        alpha_env(a, b, ea, eb),
    ensures
        forall|w: Seq<char>|
            #![trigger fv(a).contains(w)]
            #![trigger fv(b).contains(w)]
            (fv(a).contains(w) && lookup(ea, w) is None) <==> (fv(b).contains(w) && lookup(
                eb,
                w,
            ) is None),
    decreases size(a),
{
    match (a, b) {
        (LambdaV::Var { name: u }, LambdaV::Var { name: u1 }) => {
            assert forall|w: Seq<char>|
                #![trigger fv(a).contains(w)]
                #![trigger fv(b).contains(w)]
                (fv(a).contains(w) && lookup(ea, w) is None) <==> (fv(b).contains(w) && lookup(
                    eb,
                    w,
                ) is None) by {
                match (lookup(ea, u), lookup(eb, u1)) {
                    (Option::Some(i), Option::Some(j)) => {}
                    (Option::None, Option::None) => {}
                    _ => {}
                }
            }
        }
        (LambdaV::App { func: f, arg: x }, LambdaV::App { func: f1, arg: x1 }) => {
            lemma_alpha_env_fv(*f, *f1, ea, eb);
            lemma_alpha_env_fv(*x, *x1, ea, eb);
            assert forall|w: Seq<char>|
                #![trigger fv(a).contains(w)]
                #![trigger fv(b).contains(w)]
                (fv(a).contains(w) && lookup(ea, w) is None) <==> (fv(b).contains(w) && lookup(
                    eb,
                    w,
                ) is None) by {
                assert(fv(a).contains(w) == (fv(*f).contains(w) || fv(*x).contains(w)));
                assert(fv(b).contains(w) == (fv(*f1).contains(w) || fv(*x1).contains(w)));
            }
        }
        (LambdaV::Abs { name: s, body: e }, LambdaV::Abs { name: s1, body: e1 }) => {
            lemma_alpha_env_fv(*e, *e1, ea.push(s), eb.push(s1));
            assert(ea.push(s).drop_last() =~= ea);
            assert(eb.push(s1).drop_last() =~= eb);
            assert forall|w: Seq<char>|
                #![trigger fv(a).contains(w)]
                #![trigger fv(b).contains(w)]
                (fv(a).contains(w) && lookup(ea, w) is None) <==> (fv(b).contains(w) && lookup(
                    eb,
                    w,
                ) is None) by {
                assert(fv(a).contains(w) == (fv(*e).contains(w) && w != s));
                assert(fv(b).contains(w) == (fv(*e1).contains(w) && w != s1));
                if fv(a).contains(w) && lookup(ea, w) is None {
                    assert(lookup(ea.push(s), w) is None);
                    assert(fv(*e1).contains(w) && lookup(eb.push(s1), w) is None);
                    assert(w != s1);
                }
                if fv(b).contains(w) && lookup(eb, w) is None {
                    assert(lookup(eb.push(s1), w) is None);
                    assert(fv(*e).contains(w) && lookup(ea.push(s), w) is None);
                    assert(w != s);
                }
            }
        }
        _ => {}
    }
}

/// Alpha-equivalent terms have exactly the same free variables.
pub proof fn lemma_alpha_eq_fv(a: LambdaV, b: LambdaV)
    requires
        alpha_eq_s(a, b),
    ensures
        fv(a) == fv(b),
{
    lemma_alpha_env_fv(a, b, Seq::empty(), Seq::empty());
    assert(fv(a) =~= fv(b));
}

/// A term in full normal form: no redex anywhere, that is, no application
/// whose function position is an abstraction.
pub open spec fn is_nf(t: LambdaV) -> bool
    decreases t,
{
    match t {
        LambdaV::Var { .. } => true,
        LambdaV::Abs { body, .. } => is_nf(*body),
        LambdaV::App { func, arg } => is_nf(*func) && is_nf(*arg) && !(*func is Abs),
    }
}

/// Whatever `nf` returns is in full normal form.
proof fn lemma_spine_nf_normal(t: LambdaV, xs: Seq<LambdaV>, fuel: nat)
    ensures
        spine_nf_s(t, xs, fuel) matches Some(r) ==> is_nf(r),
    decreases fuel, size(t) + stack_size(xs), 0nat,
{
    match t {
        LambdaV::App { func, arg } => {
            assert(xs.push(*arg).drop_last() =~= xs);
            lemma_spine_nf_normal(*func, xs.push(*arg), fuel);
        }
        LambdaV::Abs { name, body } => {
            if xs.len() == 0 {
                lemma_spine_nf_normal(*body, Seq::empty(), fuel);
            } else if fuel > 0 {
                lemma_spine_nf_normal(
                    subst_spec(name, xs.last(), *body),
                    xs.drop_last(),
                    (fuel - 1) as nat,
                );
            }
        }
        LambdaV::Var { name } => {
            lemma_nf_args_normal(vvar(name), xs, fuel);
        }
    }
}

/// Reapplying normalized arguments around a non-abstraction normal head
/// yields a non-abstraction normal form.
proof fn lemma_nf_args_normal(h: LambdaV, xs: Seq<LambdaV>, fuel: nat)
    requires
        is_nf(h),
        !(h is Abs),
    ensures
        nf_args(h, xs, fuel) matches Some(r) ==> is_nf(r) && !(r is Abs),
    decreases fuel, stack_size(xs), 1nat,
{
    if xs.len() > 0 {
        lemma_spine_nf_normal(xs.last(), Seq::empty(), fuel);
        match spine_nf_s(xs.last(), Seq::empty(), fuel) {
            Some(a2) => {
                lemma_nf_args_normal(vapp(h, a2), xs.drop_last(), fuel);
            }
            None => {}
        }
    }
}

/// If the reapplied spine is normal, so are its head and every pending
/// argument, and the head of a nonempty spine is no abstraction.
proof fn lemma_unwind_parts(t: LambdaV, xs: Seq<LambdaV>)
    requires
        is_nf(unwind(t, xs)),
    ensures
        is_nf(t),
        forall|i: int| 0 <= i < xs.len() ==> is_nf(#[trigger] xs[i]),
        xs.len() > 0 ==> !(t is Abs),
    decreases xs.len(),
{
    if xs.len() > 0 {
        lemma_unwind_parts(vapp(t, xs.last()), xs.drop_last());
        assert forall|i: int| 0 <= i < xs.len() implies is_nf(#[trigger] xs[i]) by {
            if i < xs.len() - 1 {
                assert(xs.drop_last()[i] == xs[i]);
            } else {
                assert(xs[i] == xs.last());
            }
        }
    }
}

/// Normalizing a spine whose reapplied form is already normal returns that
/// form unchanged, with no fuel consumed.
proof fn lemma_spine_nf_of_normal(t: LambdaV, xs: Seq<LambdaV>, fuel: nat)
    requires
        is_nf(unwind(t, xs)),
    ensures
        spine_nf_s(t, xs, fuel) == Some(unwind(t, xs)),
    decreases fuel, size(t) + stack_size(xs), 0nat,
{
    match t {
        LambdaV::App { func, arg } => {
            assert(xs.push(*arg).drop_last() =~= xs);
            assert(unwind(*func, xs.push(*arg)) == unwind(t, xs));
            lemma_spine_nf_of_normal(*func, xs.push(*arg), fuel);
        }
        LambdaV::Abs { name, body } => {
            lemma_unwind_parts(t, xs);
            assert(xs.len() == 0);
            lemma_spine_nf_of_normal(*body, Seq::empty(), fuel);
            assert(vabs(name, *body) =~= t);
        }
        LambdaV::Var { name } => {
            lemma_unwind_parts(t, xs);
            assert(vvar(name) =~= t);
            lemma_nf_args_of_normal(vvar(name), xs, fuel);
        }
    }
}

/// Reapplying already-normal arguments around a head rebuilds the reapplied
/// form unchanged.
proof fn lemma_nf_args_of_normal(h: LambdaV, xs: Seq<LambdaV>, fuel: nat)
    requires
        is_nf(unwind(h, xs)),
    ensures
        nf_args(h, xs, fuel) == Some(unwind(h, xs)),
    decreases fuel, stack_size(xs), 1nat,
{
    if xs.len() > 0 {
        lemma_unwind_parts(h, xs);
        assert(is_nf(xs.last()));
        lemma_spine_nf_of_normal(xs.last(), Seq::empty(), fuel);
        assert(unwind(vapp(h, xs.last()), xs.drop_last()) == unwind(h, xs));
        lemma_nf_args_of_normal(vapp(h, xs.last()), xs.drop_last(), fuel);
    }
}

/// A term already in full normal form normalizes to itself, whatever the
/// budget.
pub proof fn lemma_nf_of_normal(t: LambdaV, fuel: nat)
    requires
        is_nf(t),
    ensures
        nf_spec(t, fuel) == Some(t),
{
    lemma_spine_nf_of_normal(t, Seq::empty(), fuel);
}

/// Every result of `nf` is in full normal form.
pub proof fn lemma_nf_is_normal(t: LambdaV, fuel: nat)
    ensures
        nf_spec(t, fuel) matches Some(r) ==> is_nf(r),
{
    lemma_spine_nf_normal(t, Seq::empty(), fuel);
}

/// Idempotence of normal form: once a term has reached its full normal form,
/// normalizing again returns the very same term, which is in particular
/// alpha-equivalent to itself.
pub proof fn lemma_nf_idempotent(t: LambdaV, fuel: nat, fuel2: nat)
    requires
        nf_spec(t, fuel) is Some,
    ensures
        nf_spec(nf_spec(t, fuel).unwrap(), fuel2) == Some(nf_spec(t, fuel).unwrap()),
        alpha_eq_s(nf_spec(nf_spec(t, fuel).unwrap(), fuel2).unwrap(), nf_spec(t, fuel).unwrap()),
{
    let r = nf_spec(t, fuel).unwrap();
    lemma_nf_is_normal(t, fuel);
    lemma_nf_of_normal(r, fuel2);
    lemma_alpha_eq_refl(r);
}

/// Looks `x` up among the first `k` entries of the environment, innermost
/// (highest index) first, returning its depth.
fn lookup_from(env: &Vec<Sym>, x: &Sym, k: usize) -> (r: Option<usize>)
    requires
        k <= env@.len(),
    ensures
        match r {
            Some(i) => i < k && lookup(env_model(env@).take(k as int), x@) == Some(i as int),
            None => lookup(env_model(env@).take(k as int), x@) is None,
        },
    decreases k,
{
    if k == 0 {
        None
    } else if env[k - 1] == *x {
        proof {
            assert(env_model(env@).take(k as int).last() == x@);
        }
        Some(0)
    } else {
        proof {
            assert(env_model(env@).take(k as int).last() == env@[k - 1]@);
            assert(env_model(env@).take(k as int).drop_last() =~= env_model(env@).take(
                k as int - 1,
            ));
        }
        match lookup_from(env, x, k - 1) {
            Some(i) => Some(i + 1),
            None => None,
        }
    }
}

/// Reapplies the pending arguments around `t`, top of the stack innermost.
fn unwind_exec(t: Lambda, xs: Vec<Lambda>) -> (r: Lambda)
    ensures
        r@ == unwind(t@, stack_model(xs@)),
    decreases xs@.len(),
{
    let mut ys = xs;
    if ys.len() == 0 {
        t
    } else {
        let ghost xs0 = ys@;
        let a = ys.pop().unwrap();
        proof {
            assert(stack_model(ys@) =~= stack_model(xs0).drop_last());
            assert(a@ == stack_model(xs0).last());
        }
        unwind_exec(app_ref(t, &a), ys)
    }
}

impl Lambda {
    /// The spine walk of `whnf`, with `xs` the pending arguments.
    fn spine_whnf(self, xs: Vec<Lambda>, fuel: u64) -> (r: Option<Lambda>)
        ensures
            opt_model(r) == spine_whnf_s(self@, stack_model(xs@), fuel as nat),
        decreases fuel, size(self@),
    {
        match self {
            Lambda::App(f, a) => {
                let mut ys = xs;
                let ghost xs0 = ys@;
                ys.push(*a);
                proof {
                    assert(stack_model(ys@) =~= stack_model(xs0).push(stack_model(ys@).last()));
                }
                (*f).spine_whnf(ys, fuel)
            }
            Lambda::Abs(s, e) => {
                if xs.len() == 0 {
                    proof {
                        assert(stack_model(xs@) =~= Seq::<LambdaV>::empty());
                    }
                    Some(Lambda::Abs(s, e))
                } else if fuel == 0 {
                    None
                } else {
                    let mut ys = xs;
                    let ghost xs0 = ys@;
                    let a1 = ys.pop().unwrap();
                    let n = subst(&s, &a1, &e);
                    proof {
                        assert(stack_model(ys@) =~= stack_model(xs0).drop_last());
                        assert(a1@ == stack_model(xs0).last());
                    }
                    n.spine_whnf(ys, fuel - 1)
                }
            }
            Lambda::Var(s) => {
                let h = Lambda::Var(s);
                Some(unwind_exec(h, xs))
            }
        }
    }

    /// Reduces the term to weak head normal form under normal order: the
    /// head redex is contracted first, and no reduction happens under an
    /// abstraction. Each beta step costs one unit of `fuel`; `None` reports
    /// that the budget ran out before a weak head normal form appeared.
    pub fn whnf(self, fuel: u64) -> (r: Option<Lambda>)
        ensures
            opt_model(r) == whnf_spec(self@, fuel as nat),
    {
        let xs: Vec<Lambda> = Vec::new();
        proof {
            assert(stack_model(xs@) =~= Seq::<LambdaV>::empty());
        }
        self.spine_whnf(xs, fuel)
    }

    /// The spine walk of `nf`, with `xs` the pending arguments.
    fn spine_nf(self, xs: Vec<Lambda>, fuel: u64) -> (r: Option<Lambda>)
        ensures
            opt_model(r) == spine_nf_s(self@, stack_model(xs@), fuel as nat),
        decreases fuel, size(self@) + stack_size(stack_model(xs@)), 0nat,
    {
        match self {
            Lambda::App(f, a) => {
                let mut ys = xs;
                let ghost xs0 = ys@;
                ys.push(*a);
                proof {
                    assert(stack_model(ys@) =~= stack_model(xs0).push(stack_model(ys@).last()));
                    assert(stack_model(ys@).drop_last() =~= stack_model(xs0));
                }
                (*f).spine_nf(ys, fuel)
            }
            Lambda::Abs(s, e) => {
                if xs.len() == 0 {
                    proof {
                        assert(stack_model(xs@) =~= Seq::<LambdaV>::empty());
                    }
                    let inner: Vec<Lambda> = Vec::new();
                    proof {
                        assert(stack_model(inner@) =~= Seq::<LambdaV>::empty());
                    }
                    match (*e).spine_nf(inner, fuel) {
                        Some(e2) => Some(Lambda::Abs(s, Box::new(e2))),
                        None => None,
                    }
                } else if fuel == 0 {
                    None
                } else {
                    let mut ys = xs;
                    let ghost xs0 = ys@;
                    let a1 = ys.pop().unwrap();
                    let n = subst(&s, &a1, &e);
                    proof {
                        assert(stack_model(ys@) =~= stack_model(xs0).drop_last());
                        assert(a1@ == stack_model(xs0).last());
                    }
                    n.spine_nf(ys, fuel - 1)
                }
            }
            Lambda::Var(s) => {
                let h = Lambda::Var(s);
                h.nf_args_run(xs, fuel)
            }
        }
    }

    /// Normalizes and reapplies the pending arguments around the head `self`.
    fn nf_args_run(self, xs: Vec<Lambda>, fuel: u64) -> (r: Option<Lambda>)
        ensures
            opt_model(r) == nf_args(self@, stack_model(xs@), fuel as nat),
        decreases fuel, stack_size(stack_model(xs@)), 1nat,
    {
        let mut ys = xs;
        if ys.len() == 0 {
            Some(self)
        } else {
            let ghost xs0 = ys@;
            let a = ys.pop().unwrap();
            proof {
                assert(stack_model(ys@) =~= stack_model(xs0).drop_last());
                assert(a@ == stack_model(xs0).last());
            }
            let inner: Vec<Lambda> = Vec::new();
            proof {
                assert(stack_model(inner@) =~= Seq::<LambdaV>::empty());
            }
            match a.spine_nf(inner, fuel) {
                Some(a2) => app_ref(self, &a2).nf_args_run(ys, fuel),
                None => None,
            }
        }
    }

    /// Reduces the term to full normal form under normal order: every redex
    /// is contracted, under abstractions and inside arguments too. Each beta
    /// step costs one unit of `fuel`; `None` reports that the budget ran out
    /// before a normal form appeared.
    pub fn nf(self, fuel: u64) -> (r: Option<Lambda>)
        ensures
            opt_model(r) == nf_spec(self@, fuel as nat),
    {
        let xs: Vec<Lambda> = Vec::new();
        proof {
            assert(stack_model(xs@) =~= Seq::<LambdaV>::empty());
        }
        self.spine_nf(xs, fuel)
    }

    /// The comparison behind `alpha_eq`, carrying the binders passed so far
    /// on each side; both environments come back as they went in.
    fn alpha_env_run(&self, b: &Lambda, ea: &mut Vec<Sym>, eb: &mut Vec<Sym>) -> (r: bool)
        ensures
            r == alpha_env(self@, b@, env_model(old(ea)@), env_model(old(eb)@)),
            final(ea)@ == old(ea)@,
            final(eb)@ == old(eb)@,
        decreases size(self@),
    {
        match (self, b) {
            (Lambda::Var(u), Lambda::Var(u1)) => {
                let ia = lookup_from(ea, u, ea.len());
                let ib = lookup_from(eb, u1, eb.len());
                proof {
                    assert(env_model(ea@).take(ea@.len() as int) =~= env_model(ea@));
                    assert(env_model(eb@).take(eb@.len() as int) =~= env_model(eb@));
                }
                match (ia, ib) {
                    (Some(i), Some(j)) => i == j,
                    (None, None) => *u == *u1,
                    _ => false,
                }
            }
            (Lambda::App(f, a), Lambda::App(f1, a1)) => {
                let r1 = (**f).alpha_env_run(f1, ea, eb);
                if r1 {
                    (**a).alpha_env_run(a1, ea, eb)
                } else {
                    false
                }
            }
            (Lambda::Abs(s, e), Lambda::Abs(s1, e1)) => {
                let ghost ea0 = ea@;
                let ghost eb0 = eb@;
                ea.push(s.clone());
                eb.push(s1.clone());
                proof {
                    assert(env_model(ea@) =~= env_model(ea0).push(s@));
                    assert(env_model(eb@) =~= env_model(eb0).push(s1@));
                }
                let r = (**e).alpha_env_run(e1, ea, eb);
                let _ = ea.pop();
                let _ = eb.pop();
                proof {
                    assert(ea@ =~= ea0);
                    assert(eb@ =~= eb0);
                }
                r
            }
            _ => false,
        }
    }

    /// Whether the two terms are alpha-equivalent: the same shape up to a
    /// consistent renaming of bound names, with free variables matched by
    /// name.
    pub fn alpha_eq(&self, b: &Lambda) -> (r: bool)
        ensures
            r == alpha_eq_s(self@, b@),
    {
        let mut ea: Vec<Sym> = Vec::new();
        let mut eb: Vec<Sym> = Vec::new();
        proof {
            assert(env_model(ea@) =~= Seq::<Seq<char>>::empty());
            assert(env_model(eb@) =~= Seq::<Seq<char>>::empty());
        }
        self.alpha_env_run(b, &mut ea, &mut eb)
    }

    /// Whether the two terms are beta-equivalent: both reach a full normal
    /// form within `fuel` beta steps each, and the normal forms are
    /// alpha-equivalent. `None` reports that a budget ran out.
    pub fn beta_eq(&self, b: &Lambda, fuel: u64) -> (r: Option<bool>)
        ensures
            r == beta_eq_s(self@, b@, fuel as nat),
    {
        match (self.clone().nf(fuel), b.clone().nf(fuel)) {
            (Some(na), Some(nb)) => Some(na.alpha_eq(&nb)),
            _ => None,
        }
    }
}

} // verus!

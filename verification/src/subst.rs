//! Capture-avoiding substitution.

use vstd::prelude::*;

use crate::fresh::clone_sym;
use crate::fresh::contains_name;
use crate::fresh::fresh_spec;
use crate::fresh::lemma_fresh_spec;
use crate::fresh::lemma_fresh_spec_marked;
use crate::term::Lambda;
use crate::term::LambdaV;
use crate::term::Sym;
use crate::term::binders;
use crate::term::fv;
use crate::term::lemma_fv_finite;
use crate::term::size;
use crate::term::vabs;
use crate::term::vapp;
use crate::term::vvar;

verus! {

/// Substitution with a step budget `n`: `None` when the budget runs out.
/// Replaces every free occurrence of `v` in `b` with `x`; a binder equal to
/// `v` shadows it, and a binder free in `x` is first renamed to a fresh name
/// derived by the prime-mark policy.
pub open spec fn subst_n(v: Seq<char>, x: LambdaV, b: LambdaV, n: nat) -> Option<LambdaV>
    decreases n,
{
    if n == 0 {
        None
    } else {
        match b {
            LambdaV::Var { name } => Some(
                if name == v {
                    x
                } else {
                    vvar(name)
                },
            ),
            LambdaV::App { func, arg } => {
                match (subst_n(v, x, *func, (n - 1) as nat), subst_n(v, x, *arg, (n - 1) as nat)) {
                    (Some(f2), Some(a2)) => Some(vapp(f2, a2)),
                    _ => None,
                }
            }
            LambdaV::Abs { name, body } => {
                if name == v {
                    Some(vabs(name, *body))
                } else if fv(x).contains(name) {
                    let n2 = fresh_spec(name, fv(x));
                    match subst_n(name, vvar(n2), *body, (n - 1) as nat) {
                        Some(e2) => match subst_n(v, x, e2, (n - 1) as nat) {
                            Some(r) => Some(vabs(n2, r)),
                            None => None,
                        },
                        None => None,
                    }
                } else {
                    match subst_n(v, x, *body, (n - 1) as nat) {
                        Some(r) => Some(vabs(name, r)),
                        None => None,
                    }
                }
            }
        }
    }
}

/// Renaming a variable to a variable keeps the size of the term.
proof fn lemma_subst_n_rename_size(s: Seq<char>, s2: Seq<char>, e: LambdaV, n: nat)
    ensures
        subst_n(s, vvar(s2), e, n) matches Some(r) ==> size(r) == size(e),
    decreases n,
{
    if n > 0 {
        match e {
            LambdaV::Var { name } => {}
            LambdaV::App { func, arg } => {
                lemma_subst_n_rename_size(s, s2, *func, (n - 1) as nat);
                lemma_subst_n_rename_size(s, s2, *arg, (n - 1) as nat);
            }
            LambdaV::Abs { name, body } => {
                if name != s && fv(vvar(s2)).contains(name) {
                    let n2 = fresh_spec(name, fv(vvar(s2)));
                    lemma_subst_n_rename_size(name, n2, *body, (n - 1) as nat);
                    match subst_n(name, vvar(n2), *body, (n - 1) as nat) {
                        Some(e2) => {
                            lemma_subst_n_rename_size(s, s2, e2, (n - 1) as nat);
                        }
                        None => {}
                    }
                } else {
                    lemma_subst_n_rename_size(s, s2, *body, (n - 1) as nat);
                }
            }
        }
    }
}

/// A budget of `size(b)` steps always suffices.
proof fn lemma_subst_n_some(v: Seq<char>, x: LambdaV, b: LambdaV, n: nat)
    requires
        n >= size(b),
    ensures
        subst_n(v, x, b, n) is Some,
    decreases size(b),
{
    match b {
        LambdaV::Var { name } => {}
        LambdaV::App { func, arg } => {
            lemma_subst_n_some(v, x, *func, (n - 1) as nat);
            lemma_subst_n_some(v, x, *arg, (n - 1) as nat);
        }
        LambdaV::Abs { name, body } => {
            if name != v && fv(x).contains(name) {
                let n2 = fresh_spec(name, fv(x));
                lemma_subst_n_some(name, vvar(n2), *body, (n - 1) as nat);
                let e2 = subst_n(name, vvar(n2), *body, (n - 1) as nat).unwrap();
                lemma_subst_n_rename_size(name, n2, *body, (n - 1) as nat);
                lemma_subst_n_some(v, x, e2, (n - 1) as nat);
            } else if name != v {
                lemma_subst_n_some(v, x, *body, (n - 1) as nat);
            }
        }
    }
}

/// Beyond `size(b)` steps, the budget does not matter.
proof fn lemma_subst_n_stable(v: Seq<char>, x: LambdaV, b: LambdaV, n1: nat, n2: nat)
    requires
        n1 >= size(b),
        n2 >= size(b),
    ensures
        subst_n(v, x, b, n1) == subst_n(v, x, b, n2),
    decreases size(b),
{
    match b {
        LambdaV::Var { name } => {}
        LambdaV::App { func, arg } => {
            lemma_subst_n_stable(v, x, *func, (n1 - 1) as nat, (n2 - 1) as nat);
            lemma_subst_n_stable(v, x, *arg, (n1 - 1) as nat, (n2 - 1) as nat);
        }
        LambdaV::Abs { name, body } => {
            if name != v && fv(x).contains(name) {
                let n2f = fresh_spec(name, fv(x));
                lemma_subst_n_stable(name, vvar(n2f), *body, (n1 - 1) as nat, (n2 - 1) as nat);
                lemma_subst_n_some(name, vvar(n2f), *body, (n1 - 1) as nat);
                let e2 = subst_n(name, vvar(n2f), *body, (n1 - 1) as nat).unwrap();
                lemma_subst_n_rename_size(name, n2f, *body, (n1 - 1) as nat);
                lemma_subst_n_stable(v, x, e2, (n1 - 1) as nat, (n2 - 1) as nat);
            } else if name != v {
                lemma_subst_n_stable(v, x, *body, (n1 - 1) as nat, (n2 - 1) as nat);
            }
        }
    }
}

/// Capture-avoiding substitution `b[v := x]`: replaces every free occurrence
/// of the variable `v` in `b` with the term `x`.
pub open spec fn subst_spec(v: Seq<char>, x: LambdaV, b: LambdaV) -> LambdaV {
    subst_n(v, x, b, size(b)).unwrap()
}

/// The defining equations of `subst_spec`, one per term shape.
pub proof fn lemma_subst_spec_unfold(v: Seq<char>, x: LambdaV, b: LambdaV)
    ensures
        b matches LambdaV::Var { name } ==> subst_spec(v, x, b) == (if name == v {
            x
        } else {
            b
        }),
        b matches LambdaV::App { func, arg } ==> subst_spec(v, x, b) == vapp(
            subst_spec(v, x, *func),
            subst_spec(v, x, *arg),
        ),
        b matches LambdaV::Abs { name, body } ==> subst_spec(v, x, b) == (if name == v {
            b
        } else if fv(x).contains(name) {
            vabs(
                fresh_spec(name, fv(x)),
                subst_spec(v, x, subst_spec(name, vvar(fresh_spec(name, fv(x))), *body)),
            )
        } else {
            vabs(name, subst_spec(v, x, *body))
        }),
{
    let n = size(b);
    match b {
        LambdaV::Var { name } => {
            assert(b == vvar(name));
        }
        LambdaV::App { func, arg } => {
            lemma_subst_n_some(v, x, *func, (n - 1) as nat);
            lemma_subst_n_some(v, x, *arg, (n - 1) as nat);
            lemma_subst_n_stable(v, x, *func, (n - 1) as nat, size(*func));
            lemma_subst_n_stable(v, x, *arg, (n - 1) as nat, size(*arg));
        }
        LambdaV::Abs { name, body } => {
            if name == v {
                assert(b == vabs(name, *body));
            } else if fv(x).contains(name) {
                let n2 = fresh_spec(name, fv(x));
                lemma_subst_n_some(name, vvar(n2), *body, (n - 1) as nat);
                lemma_subst_n_stable(name, vvar(n2), *body, (n - 1) as nat, size(*body));
                let e2 = subst_n(name, vvar(n2), *body, (n - 1) as nat).unwrap();
                lemma_subst_n_rename_size(name, n2, *body, (n - 1) as nat);
                lemma_subst_n_some(v, x, e2, (n - 1) as nat);
                lemma_subst_n_stable(v, x, e2, (n - 1) as nat, size(e2));
            } else {
                lemma_subst_n_some(v, x, *body, (n - 1) as nat);
                lemma_subst_n_stable(v, x, *body, (n - 1) as nat, size(*body));
            }
        }
    }
}

/// Renaming a variable to a variable keeps the size of the term.
pub proof fn lemma_subst_var_size(s: Seq<char>, s2: Seq<char>, e: LambdaV)
    ensures
        size(subst_spec(s, vvar(s2), e)) == size(e),
{
    lemma_subst_n_some(s, vvar(s2), e, size(e));
    lemma_subst_n_rename_size(s, s2, e, size(e));
}

/// Every binder in the term is free of the prime mark, so that freshly
/// generated names can never collide with one of them.
pub open spec fn binders_unprimed(t: LambdaV) -> bool {
    forall|s: Seq<char>| #[trigger] binders(t).contains(s) ==> !s.contains('\'')
}

/// A rename whose target name is no binder of the term is clean: it turns
/// the free occurrences of `s` into `s2`, leaves every other free variable
/// alone, and keeps every binder.
proof fn lemma_rename_fv(s: Seq<char>, s2: Seq<char>, e: LambdaV)
    requires
        !binders(e).contains(s2),
    ensures
        fv(subst_spec(s, vvar(s2), e)) == (if fv(e).contains(s) {
            fv(e).remove(s).insert(s2)
        } else {
            fv(e)
        }),
        binders(subst_spec(s, vvar(s2), e)) == binders(e),
    decreases size(e),
{
    lemma_subst_spec_unfold(s, vvar(s2), e);
    let r = subst_spec(s, vvar(s2), e);
    match e {
        LambdaV::Var { name } => {
            if name == s {
                assert(fv(r) =~= fv(e).remove(s).insert(s2));
                assert(binders(r) =~= binders(e));
            }
        }
        LambdaV::App { func, arg } => {
            assert(!binders(*func).contains(s2));
            assert(!binders(*arg).contains(s2));
            lemma_rename_fv(s, s2, *func);
            lemma_rename_fv(s, s2, *arg);
            if fv(e).contains(s) {
                assert(fv(r) =~= fv(e).remove(s).insert(s2));
            } else {
                assert(fv(r) =~= fv(e));
            }
            assert(binders(r) =~= binders(e));
        }
        LambdaV::Abs { name, body } => {
            if name == s {
                assert(!fv(e).contains(s));
            } else {
                assert(binders(e).contains(name));
                assert(name != s2);
                assert(!fv(vvar(s2)).contains(name));
                assert(!binders(*body).contains(s2));
                lemma_rename_fv(s, s2, *body);
                if fv(e).contains(s) {
                    assert(fv(r) =~= fv(e).remove(s).insert(s2));
                } else {
                    assert(fv(r) =~= fv(e));
                }
                assert(binders(r) =~= binders(e));
            }
        }
    }
}

/// Capture freedom: when every binder of `b` is unprimed — so that the fresh
/// names the prime-mark policy generates stay out of its way — no free
/// variable of `x` is captured by the substitution. Whenever `v` is free in
/// `b`, so that `x` is really pasted in somewhere, every free variable of
/// `x` is still free in `b[v := x]`.
pub proof fn lemma_subst_capture_free(v: Seq<char>, x: LambdaV, b: LambdaV)
    requires
        binders_unprimed(b),
        fv(b).contains(v),
    ensures
        fv(x).subset_of(fv(subst_spec(v, x, b))),
    decreases size(b),
{
    lemma_subst_spec_unfold(v, x, b);
    lemma_fv_finite(x);
    let r = subst_spec(v, x, b);
    match b {
        LambdaV::Var { name } => {
            assert(name == v);
        }
        LambdaV::App { func, arg } => {
            assert forall|s: Seq<char>| #[trigger]
                binders(*func).contains(s) implies !s.contains('\'') by {
                assert(binders(b).contains(s));
            }
            assert forall|s: Seq<char>| #[trigger]
                binders(*arg).contains(s) implies !s.contains('\'') by {
                assert(binders(b).contains(s));
            }
            if fv(*func).contains(v) {
                lemma_subst_capture_free(v, x, *func);
            } else {
                assert(fv(*arg).contains(v));
                lemma_subst_capture_free(v, x, *arg);
            }
            assert(fv(x).subset_of(fv(r)));
        }
        LambdaV::Abs { name, body } => {
            assert(name != v);
            assert(fv(*body).contains(v));
            assert forall|s: Seq<char>| #[trigger]
                binders(*body).contains(s) implies !s.contains('\'') by {
                assert(binders(b).contains(s));
            }
            if fv(x).contains(name) {
                let i2 = fresh_spec(name, fv(x));
                lemma_fresh_spec(name, fv(x));
                lemma_fresh_spec_marked(name, fv(x));
                assert(!binders(*body).contains(i2));
                lemma_rename_fv(name, i2, *body);
                let e2 = subst_spec(name, vvar(i2), *body);
                assert(fv(e2).contains(v));
                assert forall|s: Seq<char>| #[trigger]
                    binders(e2).contains(s) implies !s.contains('\'') by {
                    assert(binders(*body).contains(s));
                }
                lemma_subst_var_size(name, i2, *body);
                lemma_subst_capture_free(v, x, e2);
                assert forall|w: Seq<char>| fv(x).contains(w) implies fv(r).contains(w) by {
                    assert(w != i2);
                    assert(fv(subst_spec(v, x, e2)).contains(w));
                }
            } else {
                lemma_subst_capture_free(v, x, *body);
                assert forall|w: Seq<char>| fv(x).contains(w) implies fv(r).contains(w) by {
                    assert(w != name);
                    assert(fv(subst_spec(v, x, *body)).contains(w));
                }
            }
            assert(fv(x).subset_of(fv(r)));
        }
    }
}

/// Every free variable of the substitution result comes from `b` (and is
/// not the replaced `v`) or from `x`.
pub proof fn lemma_subst_fv_bound(v: Seq<char>, x: LambdaV, b: LambdaV)
    ensures
        fv(subst_spec(v, x, b)).subset_of(fv(b).remove(v).union(fv(x))),
    decreases size(b),
{
    lemma_subst_spec_unfold(v, x, b);
    lemma_fv_finite(x);
    let r = subst_spec(v, x, b);
    let bound = fv(b).remove(v).union(fv(x));
    match b {
        LambdaV::Var { name } => {}
        LambdaV::App { func, arg } => {
            lemma_subst_fv_bound(v, x, *func);
            lemma_subst_fv_bound(v, x, *arg);
            assert forall|w: Seq<char>| fv(r).contains(w) implies bound.contains(w) by {
                assert(fv(subst_spec(v, x, *func)).contains(w) || fv(
                    subst_spec(v, x, *arg),
                ).contains(w));
            }
        }
        LambdaV::Abs { name, body } => {
            if name == v {
            } else if fv(x).contains(name) {
                let i2 = fresh_spec(name, fv(x));
                lemma_fresh_spec(name, fv(x));
                let e2 = subst_spec(name, vvar(i2), *body);
                lemma_subst_fv_bound(name, vvar(i2), *body);
                lemma_subst_var_size(name, i2, *body);
                lemma_subst_fv_bound(v, x, e2);
                assert forall|w: Seq<char>| fv(r).contains(w) implies bound.contains(w) by {
                    assert(fv(subst_spec(v, x, e2)).contains(w) && w != i2);
                    if !fv(x).contains(w) {
                        assert(fv(e2).contains(w) && w != v);
                        assert(fv(*body).remove(name).union(fv(vvar(i2))).contains(w));
                        assert(fv(*body).contains(w) && w != name);
                    }
                }
            } else {
                lemma_subst_fv_bound(v, x, *body);
                assert forall|w: Seq<char>| fv(r).contains(w) implies bound.contains(w) by {
                    assert(fv(subst_spec(v, x, *body)).contains(w) && w != name);
                }
            }
        }
    }
}

/// Replaces every free occurrence of the variable `v` in `b` with the term
/// `x`, renaming bound names as needed so that no free variable of `x` is
/// captured by a binder of `b`.
pub fn subst(v: &Sym, x: &Lambda, b: &Lambda) -> (r: Lambda)
    ensures
        r@ == subst_spec(v@, x@, b@),
    decreases size(b@), 0nat,
{
    proof {
        lemma_subst_spec_unfold(v@, x@, b@);
    }
    match b {
        Lambda::Var(i) => {
            if *i == *v {
                x.clone()
            } else {
                b.clone()
            }
        }
        Lambda::App(f, a) => crate::term::app(&subst(v, x, f), &subst(v, x, a)),
        Lambda::Abs(i, e) => {
            if *i == *v {
                b.clone()
            } else {
                let fvx = x.free_vars();
                proof {
                    lemma_fv_finite(x@);
                }
                if contains_name(&fvx, i) {
                    let i2 = clone_sym(e, i, &fvx);
                    let e2 = subst_var(i, &i2, e);
                    proof {
                        lemma_subst_var_size(i@, i2@, (**e)@);
                    }
                    Lambda::Abs(i2, Box::new(subst(v, x, &e2)))
                } else {
                    Lambda::Abs(i.clone(), Box::new(subst(v, x, e)))
                }
            }
        }
    }
}

/// Renames free occurrences of the variable `s1` in `e` to the variable `s2`.
pub fn subst_var(s1: &Sym, s2: &Sym, e: &Lambda) -> (r: Lambda)
    ensures
        r@ == subst_spec(s1@, vvar(s2@), e@),
    decreases size(e@), 1nat,
{
    let x = Lambda::Var(s2.clone());
    subst(s1, &x, e)
}

} // verus!

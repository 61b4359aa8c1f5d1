//! The term datatype, its mathematical model, and free-variable analysis.

use vstd::prelude::*;

use crate::fresh::contains_name;
use crate::fresh::lemma_names_of_contains;
use crate::fresh::lemma_names_of_index;
use crate::fresh::lemma_names_of_push;
use crate::fresh::names_of;

verus! {

/// A symbolic variable name.
pub type Sym = String;

/// A lambda-calculus term: a variable, an abstraction binding a name in a
/// body, or an application of a function to an argument.
#[derive(Debug, PartialEq, Eq, Hash)]
pub enum Lambda {
    Var(Sym),
    Abs(Sym, Box<Lambda>),
    App(Box<Lambda>, Box<Lambda>),
}

/// The mathematical model of a term: the same tree shape with each name
/// abstracted to its character sequence.
#[verifier::ext_equal]
pub enum LambdaV {
    Var { name: Seq<char> },
    Abs { name: Seq<char>, body: Box<LambdaV> },
    App { func: Box<LambdaV>, arg: Box<LambdaV> },
}

/// Shorthand for a model variable.
pub open spec fn vvar(name: Seq<char>) -> LambdaV {
    LambdaV::Var { name }
}

/// Shorthand for a model abstraction.
pub open spec fn vabs(name: Seq<char>, body: LambdaV) -> LambdaV {
    LambdaV::Abs { name, body: Box::new(body) }
}

/// Shorthand for a model application.
pub open spec fn vapp(func: LambdaV, arg: LambdaV) -> LambdaV {
    LambdaV::App { func: Box::new(func), arg: Box::new(arg) }
}

/// The model of an executable term.
pub open spec fn model(t: &Lambda) -> LambdaV
    decreases t,
{
    match t {
        Lambda::Var(s) => vvar(s@),
        Lambda::Abs(s, e) => vabs(s@, model(e)),
        Lambda::App(f, a) => vapp(model(f), model(a)),
    }
}

impl View for Lambda {
    type V = LambdaV;

    open spec fn view(&self) -> LambdaV {
        model(self)
    }
}

/// The number of nodes in a term; every term has at least one.
pub open spec fn size(t: LambdaV) -> nat
    decreases t,
{
    match t {
        LambdaV::Var { .. } => 1,
        LambdaV::Abs { body, .. } => 1 + size(*body),
        LambdaV::App { func, arg } => 1 + size(*func) + size(*arg),
    }
}

/// The free variables of a term: a variable is its own free variable, an
/// abstraction hides its bound name, an application collects both sides.
pub open spec fn fv(t: LambdaV) -> Set<Seq<char>>
    decreases t,
{
    match t {
        LambdaV::Var { name } => Set::empty().insert(name),
        LambdaV::Abs { name, body } => fv(*body).remove(name),
        LambdaV::App { func, arg } => fv(*func).union(fv(*arg)),
    }
}

/// The names bound by the abstractions occurring anywhere in a term.
pub open spec fn binders(t: LambdaV) -> Set<Seq<char>>
    decreases t,
{
    match t {
        LambdaV::Var { .. } => Set::empty(),
        LambdaV::Abs { name, body } => binders(*body).insert(name),
        LambdaV::App { func, arg } => binders(*func).union(binders(*arg)),
    }
}

/// The free-variable set of any term is finite.
pub proof fn lemma_fv_finite(t: LambdaV)
    ensures
        fv(t).finite(),
    decreases t,
{
    match t {
        LambdaV::Var { .. } => {}
        LambdaV::Abs { name, body } => {
            lemma_fv_finite(*body);
        }
        LambdaV::App { func, arg } => {
            lemma_fv_finite(*func);
            lemma_fv_finite(*arg);
        }
    }
}

/// The name bound by an abstraction is never free in that abstraction.
pub proof fn lemma_binder_not_free(x: Seq<char>, e: LambdaV)
    ensures
        !fv(vabs(x, e)).contains(x),
{
}

impl Lambda {
    /// The free variables of the term, each name listed once, in no promised
    /// order.
    pub fn free_vars(&self) -> (r: Vec<Sym>)
        ensures
            names_of(r@) == fv(self@),
            forall|i: int, j: int| 0 <= i < j < r@.len() ==> r@[i]@ != r@[j]@,
        decreases size(self@),
    {
        match self {
            Lambda::Var(s) => {
                let mut r: Vec<Sym> = Vec::new();
                r.push(s.clone());
                proof {
                    assert forall|x: Seq<char>|
                        names_of(r@).contains(x) <==> fv(self@).contains(x) by {
                        lemma_names_of_contains(r@, x);
                        if fv(self@).contains(x) {
                            assert(r@[0]@ == x);
                        }
                    }
                    assert(names_of(r@) =~= fv(self@));
                }
                r
            }
            Lambda::Abs(s, e) => {
                let sub = (**e).free_vars();
                let mut r: Vec<Sym> = Vec::new();
                let mut k: usize = 0;
                while k < sub.len()
                    invariant
                        0 <= k <= sub@.len(),
                        names_of(sub@) == fv((**e)@),
                        fv(self@) == fv((**e)@).remove(s@),
                        forall|x: Seq<char>|
                            #[trigger] names_of(r@).contains(x) ==> names_of(sub@).contains(x)
                                && x != s@,
                        forall|m: int|
                            0 <= m < k && (#[trigger] sub@[m])@ != s@ ==> names_of(
                                r@,
                            ).contains(sub@[m]@),
                        forall|i: int, j: int| 0 <= i < j < r@.len() ==> r@[i]@ != r@[j]@,
                    decreases sub@.len() - k,
                {
                    let ghost r0 = r@;
                    if !(sub[k] == *s) && !contains_name(&r, &sub[k]) {
                        r.push(sub[k].clone());
                        proof {
                            assert(r@ == r0.push(sub@[k as int]));
                            lemma_names_of_push(r0, sub@[k as int]);
                            lemma_names_of_index(sub@, k as int);
                            lemma_names_of_contains(r0, sub@[k as int]@);
                        }
                    }
                    k += 1;
                }
                proof {
                    assert forall|x: Seq<char>|
                        names_of(r@).contains(x) <==> fv(self@).contains(x) by {
                        if fv(self@).contains(x) {
                            lemma_names_of_contains(sub@, x);
                            let m = choose|m: int| 0 <= m < sub@.len() && sub@[m]@ == x;
                            assert(names_of(r@).contains(sub@[m]@));
                        }
                    }
                    assert(names_of(r@) =~= fv(self@));
                }
                r
            }
            Lambda::App(f, a) => {
                let mut r = (**f).free_vars();
                let av = (**a).free_vars();
                let ghost fvf = names_of(r@);
                let mut k: usize = 0;
                while k < av.len()
                    invariant
                        0 <= k <= av@.len(),
                        names_of(av@) == fv((**a)@),
                        fvf == fv((**f)@),
                        fv(self@) == fv((**f)@).union(fv((**a)@)),
                        forall|x: Seq<char>|
                            #[trigger] names_of(r@).contains(x) ==> fvf.contains(x)
                                || names_of(av@).contains(x),
                        forall|x: Seq<char>| fvf.contains(x) ==> names_of(r@).contains(x),
                        forall|m: int|
                            0 <= m < k ==> names_of(r@).contains((#[trigger] av@[m])@),
                        forall|i: int, j: int| 0 <= i < j < r@.len() ==> r@[i]@ != r@[j]@,
                    decreases av@.len() - k,
                {
                    let ghost r0 = r@;
                    if !contains_name(&r, &av[k]) {
                        r.push(av[k].clone());
                        proof {
                            assert(r@ == r0.push(av@[k as int]));
                            lemma_names_of_push(r0, av@[k as int]);
                            lemma_names_of_index(av@, k as int);
                            lemma_names_of_contains(r0, av@[k as int]@);
                        }
                    }
                    k += 1;
                }
                proof {
                    assert forall|x: Seq<char>|
                        names_of(r@).contains(x) <==> fv(self@).contains(x) by {
                        if fv((**a)@).contains(x) {
                            lemma_names_of_contains(av@, x);
                            let m = choose|m: int| 0 <= m < av@.len() && av@[m]@ == x;
                            assert(names_of(r@).contains(av@[m]@));
                        }
                    }
                    assert(names_of(r@) =~= fv(self@));
                }
                r
            }
        }
    }
}

impl Clone for Lambda {
    /// A structural copy whose model is the model of the original.
    fn clone(&self) -> (r: Self)
        ensures
            r@ == self@,
        decreases self,
    {
        match self {
            Lambda::Var(s) => Lambda::Var(s.clone()),
            Lambda::Abs(s, e) => Lambda::Abs(s.clone(), Box::new((**e).clone())),
            Lambda::App(f, a) => Lambda::App(Box::new((**f).clone()), Box::new((**a).clone())),
        }
    }
}

/// Builds an application from copies of the two terms.
pub fn app(l1: &Lambda, l2: &Lambda) -> (r: Lambda)
    ensures
        r@ == vapp(l1@, l2@),
{
    Lambda::App(Box::new(l1.clone()), Box::new(l2.clone()))
}

/// Builds an application, consuming the function and copying the argument.
pub fn app_ref(l1: Lambda, l2: &Lambda) -> (r: Lambda)
    ensures
        r@ == vapp(l1@, l2@),
{
    Lambda::App(Box::new(l1), Box::new(l2.clone()))
}

/// Builds an abstraction binding `s` in `l`.
pub fn abs(s: &str, l: Lambda) -> (r: Lambda)
    ensures
        r@ == vabs(s@, l@),
{
    Lambda::Abs(s.to_owned(), Box::new(l))
}

/// Builds a variable named `s`.
pub fn var(s: &str) -> (r: Lambda)
    ensures
        r@ == vvar(s@),
{
    Lambda::Var(s.to_owned())
}

} // verus!

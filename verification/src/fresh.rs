//! Fresh-name generation: the capture-avoidance policy appends a prime mark
//! to a name until the candidate is unused.

use vstd::prelude::*;

use crate::term::Lambda;
use crate::term::Sym;

verus! {

/// The set of names denoted by a vector of symbols.
pub open spec fn names_of(vs: Seq<Sym>) -> Set<Seq<char>> {
    vs.map_values(|v: Sym| v@).to_set()
}

/// A set of names holds `x` exactly when some symbol in the vector spells it.
pub proof fn lemma_names_of_contains(vs: Seq<Sym>, x: Seq<char>)
    ensures
        names_of(vs).contains(x) <==> exists|i: int| 0 <= i < vs.len() && vs[i]@ == x,
{
    let m = vs.map_values(|v: Sym| v@);
    if names_of(vs).contains(x) {
        let i = choose|i: int| 0 <= i < m.len() && m[i] == x;
        assert(vs[i]@ == x);
    }
    if exists|i: int| 0 <= i < vs.len() && vs[i]@ == x {
        let i = choose|i: int| 0 <= i < vs.len() && vs[i]@ == x;
        assert(m[i] == x);
        assert(m.contains(x));
    }
}

/// The set of names denoted by a vector is finite.
pub proof fn lemma_names_of_finite(vs: Seq<Sym>)
    ensures
        names_of(vs).finite(),
{
    broadcast use vstd::seq_lib::seq_to_set_is_finite;

}

/// Appending a symbol adds exactly its spelling to the denoted set.
pub proof fn lemma_names_of_push(vs: Seq<Sym>, v: Sym)
    ensures
        names_of(vs.push(v)) == names_of(vs).insert(v@),
{
    assert forall|x: Seq<char>|
        names_of(vs.push(v)).contains(x) <==> names_of(vs).insert(v@).contains(x) by {
        lemma_names_of_contains(vs.push(v), x);
        lemma_names_of_contains(vs, x);
        if names_of(vs.push(v)).contains(x) {
            let i = choose|i: int| 0 <= i < vs.push(v).len() && vs.push(v)[i]@ == x;
            if i < vs.len() {
                assert(vs[i]@ == x);
            } else {
                assert(v@ == x);
            }
        }
        if names_of(vs).contains(x) {
            let i = choose|i: int| 0 <= i < vs.len() && vs[i]@ == x;
            assert(vs.push(v)[i]@ == x);
        }
        if x == v@ {
            assert(vs.push(v)[vs.len() as int]@ == x);
        }
    }
    assert(names_of(vs.push(v)) =~= names_of(vs).insert(v@));
}

/// The spelling of any listed symbol is in the denoted set.
pub proof fn lemma_names_of_index(vs: Seq<Sym>, i: int)
    requires
        0 <= i < vs.len(),
    ensures
        names_of(vs).contains(vs[i]@),
{
    let m = vs.map_values(|v: Sym| v@);
    assert(m[i] == vs[i]@);
    assert(m.contains(m[i]));
}

/// Whether the vector holds a symbol spelled like `s`.
pub fn contains_name(vars: &Vec<Sym>, s: &Sym) -> (r: bool)
    ensures
        r == names_of(vars@).contains(s@),
{
    proof {
        lemma_names_of_contains(vars@, s@);
    }
    let mut k: usize = 0;
    while k < vars.len()
        invariant
            0 <= k <= vars@.len(),
            forall|j: int| 0 <= j < k ==> vars@[j]@ != s@,
            names_of(vars@).contains(s@) <==> exists|i: int|
                0 <= i < vars@.len() && vars@[i]@ == s@,
        decreases vars@.len() - k,
    {
        if vars[k] == *s {
            return true;
        }
        k += 1;
    }
    false
}

/// Appends the prime mark while the candidate is in `vars`, giving up
/// harmlessly once the step budget `n` runs out.
pub open spec fn freshen(i: Seq<char>, vars: Set<Seq<char>>, n: nat) -> Seq<char>
    decreases n,
{
    if !vars.contains(i) {
        i
    } else if n == 0 {
        i
    } else {
        freshen(i.push('\''), vars, (n - 1) as nat)
    }
}

/// The fresh name derived from `i` outside `vars`: `i` itself when unused,
/// else `i` followed by as many prime marks as needed.
pub open spec fn fresh_spec(i: Seq<char>, vars: Set<Seq<char>>) -> Seq<char> {
    freshen(i, vars, vars.len() + 1)
}

/// The members of `vars` at least as long as `i`: only these can collide with
/// a candidate derived from `i` by appending marks.
pub open spec fn collisions(i: Seq<char>, vars: Set<Seq<char>>) -> Set<Seq<char>> {
    vars.filter(|v: Seq<char>| v.len() >= i.len())
}

/// Appending one mark rules the current candidate out of the collision set.
proof fn lemma_collisions_shrink(i: Seq<char>, vars: Set<Seq<char>>)
    requires
        vars.finite(),
        vars.contains(i),
    ensures
        collisions(i.push('\''), vars).len() < collisions(i, vars).len(),
        collisions(i.push('\''), vars).len() <= collisions(i, vars).len() - 1,
{
    let c1 = collisions(i, vars);
    let c2 = collisions(i.push('\''), vars);
    vars.lemma_len_filter(|v: Seq<char>| v.len() >= i.len());
    vars.lemma_len_filter(|v: Seq<char>| v.len() >= i.push('\'').len());
    assert(c1.contains(i));
    assert(c2.subset_of(c1.remove(i)));
    vstd::set_lib::lemma_len_subset(c2, c1.remove(i));
}

/// With a budget at least the number of possible collisions, the candidate
/// that `freshen` settles on is not in `vars`.
proof fn lemma_freshen_escapes(i: Seq<char>, vars: Set<Seq<char>>, n: nat)
    requires
        vars.finite(),
        n >= collisions(i, vars).len(),
    ensures
        !vars.contains(freshen(i, vars, n)),
    decreases n,
{
    if vars.contains(i) {
        lemma_collisions_shrink(i, vars);
        lemma_freshen_escapes(i.push('\''), vars, (n - 1) as nat);
    }
}

/// Beyond the needed budget, the budget does not matter.
proof fn lemma_freshen_stable(i: Seq<char>, vars: Set<Seq<char>>, n1: nat, n2: nat)
    requires
        vars.finite(),
        n1 >= collisions(i, vars).len(),
        n2 >= collisions(i, vars).len(),
    ensures
        freshen(i, vars, n1) == freshen(i, vars, n2),
    decreases n1,
{
    if vars.contains(i) {
        lemma_collisions_shrink(i, vars);
        lemma_freshen_stable(i.push('\''), vars, (n1 - 1) as nat, (n2 - 1) as nat);
    }
}

/// The fresh name avoids `vars`, and is `i` itself when `i` is already free.
pub proof fn lemma_fresh_spec(i: Seq<char>, vars: Set<Seq<char>>)
    requires
        vars.finite(),
    ensures
        !vars.contains(fresh_spec(i, vars)),
        !vars.contains(i) ==> fresh_spec(i, vars) == i,
{
    vars.lemma_len_filter(|v: Seq<char>| v.len() >= i.len());
    vstd::set_lib::lemma_len_subset(collisions(i, vars), vars);
    lemma_freshen_escapes(i, vars, vars.len() + 1);
}

/// A candidate that already carries a prime mark keeps it through freshening.
proof fn lemma_freshen_keeps_mark(i: Seq<char>, vars: Set<Seq<char>>, n: nat)
    requires
        i.contains('\''),
    ensures
        freshen(i, vars, n).contains('\''),
    decreases n,
{
    if vars.contains(i) && n > 0 {
        let i2 = i.push('\'');
        let k = choose|k: int| 0 <= k < i.len() && i[k] == '\'';
        assert(i2[k] == '\'');
        lemma_freshen_keeps_mark(i2, vars, (n - 1) as nat);
    }
}

/// When the original name is taken, the fresh name carries a prime mark.
pub proof fn lemma_fresh_spec_marked(i: Seq<char>, vars: Set<Seq<char>>)
    requires
        vars.contains(i),
    ensures
        fresh_spec(i, vars).contains('\''),
{
    let i2 = i.push('\'');
    assert(i2[i.len() as int] == '\'');
    assert(i2.contains('\''));
    lemma_freshen_keeps_mark(i2, vars, vars.len() as nat);
}

/// The original name `i` when no member of `vars` spells it, else `i` with
/// prime marks appended until the candidate is unused. The term `e` is not
/// consulted; it rides along for the caller's convenience.
#[allow(unused_variables)]
pub fn clone_sym(e: &Lambda, i: &Sym, vars: &Vec<Sym>) -> (r: Sym)
    ensures
        r@ == fresh_spec(i@, names_of(vars@)),
    decreases collisions(i@, names_of(vars@)).len(),
{
    proof {
        lemma_names_of_finite(vars@);
    }
    if contains_name(vars, i) {
        let i2 = vstd::string::StringExecFns::concat(i.clone(), "'");
        proof {
            reveal_strlit("'");
            assert(i2@ =~= i@.push('\''));
            lemma_collisions_shrink(i@, names_of(vars@));
            let vs = names_of(vars@);
            vs.lemma_len_filter(|v: Seq<char>| v.len() >= i2@.len());
            vstd::set_lib::lemma_len_subset(collisions(i2@, vs), vs);
            lemma_freshen_stable(i2@, vs, vs.len() as nat, vs.len() + 1);
        }
        clone_sym(e, &i2, vars)
    } else {
        i.clone()
    }
}

} // verus!

//! A normalizer for untyped lambda-calculus terms.
//!
//! Terms are built from variables, abstractions and applications. The library
//! computes free variables, performs capture-avoiding substitution, reduces
//! terms to weak head normal form and to full normal form with a spine-based
//! normal-order strategy, and decides alpha- and beta-equivalence.
//!
//! Untyped lambda terms need not normalize, so the reduction entry points
//! take an explicit step budget — a deliberate extension of the base
//! semantics. Each beta step spends one unit, and `None` reports that the
//! budget ran out; a term with a normal form reduces to it under any
//! sufficient budget, and spends none of it once normal.

pub mod fresh;
pub mod reduce;
pub mod subst;
pub mod term;

pub use fresh::clone_sym;
pub use reduce::lemma_alpha_eq_fv;
pub use reduce::lemma_alpha_eq_refl;
pub use reduce::lemma_alpha_eq_sym;
pub use reduce::lemma_alpha_eq_trans;
pub use reduce::lemma_nf_idempotent;
pub use subst::lemma_subst_capture_free;
pub use subst::lemma_subst_fv_bound;
pub use subst::subst;
pub use subst::subst_var;
pub use term::Lambda;
pub use term::Sym;
pub use term::abs;
pub use term::app;
pub use term::app_ref;
pub use term::lemma_binder_not_free;
pub use term::var;

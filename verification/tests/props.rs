use lambda::Lambda;
use lambda::abs;
use lambda::app;
use lambda::clone_sym;
use lambda::subst;
use lambda::subst_var;
use lambda::var;

fn church(n: u32) -> Lambda {
    let mut body = var("z");
    let mut k = 0;
    while k < n {
        body = app(&var("s"), &body);
        k += 1;
    }
    abs("s", abs("z", body))
}

#[test]
fn free_vars_has_no_duplicates() {
    // The same name free twice in the term is listed once.
    let t = app(&var("x"), &app(&var("x"), &var("y")));
    let mut fv = t.free_vars();
    fv.sort();
    assert_eq!(fv, vec!["x".to_string(), "y".to_string()]);
}

#[test]
fn binder_is_not_free() {
    let t = abs("x", app(&var("x"), &var("y")));
    assert_eq!(t.free_vars(), vec!["y".to_string()]);
}

#[test]
fn subst_with_renaming_avoids_capture() {
    // (\x. y)[y := x] renames the binder before substituting: \x'. x.
    let t = abs("x", var("y"));
    let r = subst(&"y".to_string(), &var("x"), &t);
    assert_eq!(r, abs("x'", var("x")));
    // The substituted-in free variable x stays free instead of being captured.
    assert_eq!(r.free_vars(), vec!["x".to_string()]);
}

#[test]
fn subst_var_renames_free_occurrences() {
    let t = app(&var("x"), &abs("x", var("x")));
    let r = subst_var(&"x".to_string(), &"y".to_string(), &t);
    assert_eq!(r, app(&var("y"), &abs("x", var("x"))));
}

#[test]
fn clone_sym_skips_taken_names() {
    let e = var("x");
    let vars = vec!["x".to_string(), "x'".to_string()];
    assert_eq!(clone_sym(&e, &"x".to_string(), &vars), "x''".to_string());
    // A name that is not taken is kept as it is.
    assert_eq!(clone_sym(&e, &"y".to_string(), &vars), "y".to_string());
}

#[test]
fn alpha_eq_renamed_binders() {
    let a = abs("x", var("x"));
    let b = abs("y", var("y"));
    assert!(a.alpha_eq(&b));
    assert!(b.alpha_eq(&a));
    assert!(a.alpha_eq(&a));
    let c = abs("y", var("z"));
    assert!(!a.alpha_eq(&c));
    let d = var("x");
    assert!(!a.alpha_eq(&d));
}

#[test]
fn alpha_eq_distinguishes_bound_from_free() {
    // The identity \y.y and the constant function \x.y differ: the first
    // body variable is bound, the second free. Neither direction may
    // equate them.
    let idy = abs("y", var("y"));
    let consty = abs("x", var("y"));
    assert!(!idy.alpha_eq(&consty));
    assert!(!consty.alpha_eq(&idy));
    assert_eq!(idy.beta_eq(&consty, 100), Some(false));
    // Nested shadowing compares by binder position.
    let a = abs("x", abs("x", var("x")));
    let b = abs("y", abs("x", var("x")));
    assert!(a.alpha_eq(&b));
    assert!(b.alpha_eq(&a));
    let c = abs("y", abs("x", var("y")));
    assert!(!a.alpha_eq(&c));
    assert!(c.alpha_eq(&abs("x", abs("z", var("x")))));
}

#[test]
fn alpha_eq_matches_free_variables_by_name() {
    let a = abs("x", app(&var("x"), &var("u")));
    let b = abs("y", app(&var("y"), &var("u")));
    assert!(a.alpha_eq(&b));
    assert!(b.alpha_eq(&a));
    let c = abs("y", app(&var("y"), &var("w")));
    assert!(!a.alpha_eq(&c));
    assert!(!c.alpha_eq(&a));
}

#[test]
fn freshening_checks_only_the_substituted_terms_free_variables() {
    // The prime-mark policy retests a candidate only against the free
    // variables of the substituted term, so a primed name already present
    // in the host term can coincide with a freshened binder.
    let b = abs("a", abs("a'", var("a''")));
    let r = subst(&"a''".to_string(), &var("a"), &b);
    assert_eq!(r, abs("a'", abs("a''", var("a''"))));
}

#[test]
fn nf_is_idempotent_on_church_sum() {
    let plus = abs(
        "m",
        abs(
            "n",
            abs(
                "s",
                abs(
                    "z",
                    app(&app(&var("m"), &var("s")), &app(&app(&var("n"), &var("s")), &var("z"))),
                ),
            ),
        ),
    );
    let t = app(&app(&plus, &church(1)), &church(2));
    let n1 = t.nf(1000).unwrap();
    let n2 = n1.clone().nf(1000).unwrap();
    assert_eq!(n1, n2);
    assert!(n1.alpha_eq(&n2));
    assert!(n1.alpha_eq(&church(3)));
}

#[test]
fn whnf_stops_at_the_head() {
    // whnf does not reduce under an abstraction; nf does.
    let id = abs("x", var("x"));
    let t = abs("y", app(&id, &var("y")));
    assert_eq!(t.clone().whnf(1000), Some(t.clone()));
    assert_eq!(t.nf(1000), Some(abs("y", var("y"))));
}

#[test]
fn nf_normalizes_arguments_of_a_stuck_head() {
    let id = abs("x", var("x"));
    let t = app(&var("f"), &app(&id, &var("y")));
    assert_eq!(t.clone().whnf(1000), Some(t.clone()));
    assert_eq!(t.nf(1000), Some(app(&var("f"), &var("y"))));
}

#[test]
fn fuel_runs_out_on_omega() {
    // The self-application loop never reaches a normal form: the budget is
    // spent and `None` comes back instead of an answer.
    let om = abs("x", app(&var("x"), &var("x")));
    let omega = app(&om, &om);
    assert_eq!(omega.clone().whnf(50), None);
    assert_eq!(omega.clone().nf(50), None);
    assert_eq!(omega.beta_eq(&var("a"), 50), None);
}

#[test]
fn beta_eq_distinguishes_free_variables() {
    assert_eq!(var("a").beta_eq(&var("b"), 10), Some(false));
    assert_eq!(var("a").beta_eq(&var("a"), 10), Some(true));
}

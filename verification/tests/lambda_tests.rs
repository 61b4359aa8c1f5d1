use lambda::Lambda;
use lambda::abs;
use lambda::app;
use lambda::clone_sym;
use lambda::subst;
use lambda::var;

fn app2(f: &Lambda, x: &Lambda, y: &Lambda) -> Lambda {
    app(&app(f, x), y)
}

#[test]
fn it_works() {
    let l1 = var("x");
    assert_eq!(l1, l1);

    let l2 = Lambda::Abs("x".to_string(), Box::new(l1));
    println!("{:?}", l2);
}

#[test]
fn test_free_vars() {
    let l1 = var("x");
    assert_eq!(l1.free_vars(), ["x".to_string()].iter().cloned().collect::<Vec<String>>());

    let l2 = var("x");
    assert_eq!(l2.free_vars() == ["y".to_string()].iter().cloned().collect::<Vec<String>>(), false);

    let l3 = Lambda::Abs("y".to_string(), Box::new(var("x")));
    let l3free = l3.free_vars();
    println!("{:?}", l3free);
    assert_eq!(l3free == ["x".to_string()].iter().cloned().collect::<Vec<String>>(), true);
}

#[test]
fn test_clone_sym() {
    let x = var("x");
    let vars1 = ["x".to_string()].iter().cloned().collect::<Vec<String>>();
    println!("clone_sym: {:?}", clone_sym(&x, &"x".to_string(), &vars1))
}

#[test]
fn test_subst() {
    let x = var("x");
    let y = var("y");
    let l1 = abs("x", var("x"));
    // subst(var(x), x, y) -> var(y)
    assert_eq!(subst(&"x".to_string(), &x, &y), var("y"));
    println!("{:?}", subst(&"x".to_string(), &y, &l1));
    assert_eq!(subst(&"x".to_string(), &y, &l1), abs("x", var("x")));
    assert_eq!(subst(&"x".to_string(), &y, &app(&var("x"), &var("z"))), app(&var("y"), &var("z")));
}

#[test]
fn test_whnf() {
    let id = abs("x", var("x"));
    let apply_id = app(&id.clone(), &var("oi"));
    println!("whnf? {:?}", app(&id, &var("oi")).whnf(1000));
    assert_eq!(apply_id.whnf(1000), Some(var("oi")));

    let (z, s, m, n) = (&var("z"), &var("s"), &var("m"), &var("n"));

    // Some Church encoded arithmetic
    let _zero = abs("s", abs("z", z.clone()));
    let one = abs("s", abs("z", app(s, z)));
    let two = abs("s", abs("z", app(s, &app(s, z))));
    let three = abs("s", abs("z", app(s, &app(s, &app(s, z)))));
    let plus = abs("m", abs("n", abs("s", abs("z", app2(m, s, &app2(n, s, z))))));

    // 1 + 2 = 3, hooray!
    assert!(app2(&plus, &one, &two).beta_eq(&three, 1000) == Some(true));
}

#[test]
fn test_nf() {
    let id = abs("x", var("x")); // \x -> x
    let apply_id = app(&id.clone(), &var("oi")); //(\x -> x)(oi) = oi
    println!("nf? {:?}", app(&id, &var("oi")).nf(1000));
    assert_eq!(apply_id.nf(1000), Some(var("oi")));
}

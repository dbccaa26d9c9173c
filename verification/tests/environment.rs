use minilisp_rust::{Env, Expr};

fn number(x: f64) -> Expr {
    Expr::Number(x.to_bits())
}

#[test]
fn a_new_environment_binds_nothing() {
    let env = Env::new();
    assert_eq!(env.get("x"), None);
    assert_eq!(env.get(""), None);
}

#[test]
fn insert_binds_and_get_finds() {
    let mut env = Env::new();
    env.insert("x".to_string(), number(1.0));
    env.insert("y".to_string(), Expr::Bool(true));
    assert_eq!(env.get("x"), Some(&number(1.0)));
    assert_eq!(env.get("y"), Some(&Expr::Bool(true)));
    assert_eq!(env.get("z"), None);
    assert_eq!(env.get("X"), None);
}

#[test]
fn insert_replaces_a_binding() {
    let mut env = Env::new();
    env.insert("x".to_string(), number(1.0));
    env.insert("y".to_string(), number(2.0));
    env.insert("x".to_string(), number(3.0));
    assert_eq!(env.get("x"), Some(&number(3.0)));
    assert_eq!(env.get("y"), Some(&number(2.0)));
    env.insert("y".to_string(), number(4.0));
    assert_eq!(env.get("x"), Some(&number(3.0)));
    assert_eq!(env.get("y"), Some(&number(4.0)));
}

#[test]
fn len_counts_the_names() {
    let mut env = Env::new();
    assert_eq!(env.len(), 0);
    env.insert("x".to_string(), number(1.0));
    env.insert("y".to_string(), number(2.0));
    assert_eq!(env.len(), 2);
    env.insert("x".to_string(), number(3.0));
    env.insert("y".to_string(), number(4.0));
    assert_eq!(env.len(), 2);
    env.insert("".to_string(), number(5.0));
    assert_eq!(env.len(), 3);
    assert_eq!(env.get(""), Some(&number(5.0)));
    assert_eq!(env.clone().len(), 3);
}

#[test]
fn a_clone_is_independent() {
    let mut env = Env::new();
    env.insert("x".to_string(), number(1.0));
    let mut copy = env.clone();
    copy.insert("x".to_string(), number(2.0));
    copy.insert("y".to_string(), number(3.0));
    assert_eq!(env.get("x"), Some(&number(1.0)));
    assert_eq!(env.get("y"), None);
    assert_eq!(copy.get("x"), Some(&number(2.0)));
    assert_eq!(copy.get("y"), Some(&number(3.0)));
}

#[test]
fn an_expression_clones_to_an_equal_one() {
    let e = Expr::List(vec![
        Expr::Symbol("f".to_string()),
        Expr::Func {
            params: vec!["a".to_string(), "b".to_string()],
            body: Box::new(Expr::List(vec![Expr::String("s".to_string()), number(1.0)])),
        },
        Expr::Bool(false),
    ]);
    assert_eq!(e.clone(), e);
}

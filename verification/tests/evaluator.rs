use minilisp_rust::builtin::apply_builtin_op;
use minilisp_rust::eval::{
    apply_procedure, eval, eval_define, eval_if, eval_lambda, eval_within,
};
use minilisp_rust::parser::parse;
use minilisp_rust::{ArithOp, Builtin, Env, EvalError, Expr};

fn arith(op: ArithOp, a: u64, b: u64) -> u64 {
    let x = f64::from_bits(a);
    let y = f64::from_bits(b);
    let r = match op {
        ArithOp::Add => x + y,
        ArithOp::Sub => x - y,
        ArithOp::Mul => x * y,
        ArithOp::Div => x / y,
    };
    r.to_bits()
}

fn read_number(token: &str) -> Option<u64> {
    token.parse::<f64>().ok().map(f64::to_bits)
}

fn show_number(bits: u64) -> String {
    f64::from_bits(bits).to_string()
}

fn number(x: f64) -> Expr {
    Expr::Number(x.to_bits())
}

fn symbol(name: &str) -> Expr {
    Expr::Symbol(name.to_string())
}

fn string(s: &str) -> Expr {
    Expr::String(s.to_string())
}

fn read(text: &str) -> Expr {
    parse(text, &read_number).unwrap()
}

fn run(text: &str, env: &mut Env) -> Result<Expr, EvalError> {
    eval(&read(text), env, &arith)
}

fn value(text: &str) -> Result<Expr, EvalError> {
    run(text, &mut Env::new())
}

fn message(text: &str) -> String {
    value(text).unwrap_err().message(&show_number)
}

// --- what evaluates to itself ---

#[test]
fn literals_are_their_own_values() {
    assert_eq!(value("42"), Ok(number(42.0)));
    assert_eq!(value("true"), Ok(Expr::Bool(true)));
    assert_eq!(value("\"s\""), Ok(string("s")));
    assert_eq!(value("()"), Ok(Expr::List(vec![])));
    let f = Expr::Func { params: vec!["x".to_string()], body: Box::new(symbol("y")) };
    assert_eq!(eval(&f, &mut Env::new(), &arith), Ok(f));
}

#[test]
fn symbols_are_looked_up() {
    let mut env = Env::new();
    env.insert("x".to_string(), string("bound"));
    assert_eq!(run("x", &mut env), Ok(string("bound")));
    assert_eq!(run("y", &mut env), Err(EvalError::UndefinedVariable("y".to_string())));
}

// --- the built-in operators ---

#[test]
fn plus_and_times_fold_from_their_identities() {
    assert_eq!(value("(+)"), Ok(number(0.0)));
    assert_eq!(value("(*)"), Ok(number(1.0)));
    assert_eq!(value("(+ 5)"), Ok(number(5.0)));
    assert_eq!(value("(* 5)"), Ok(number(5.0)));
    assert_eq!(value("(+ 1 2 3 4)"), Ok(number(10.0)));
    assert_eq!(value("(* 1.5 2 4)"), Ok(number(12.0)));
    assert_eq!(value("(+ 0.1 0.2)"), Ok(number(0.1 + 0.2)));
    // 0.0 + -0.0 is 0.0: the fold starts from the identity.
    assert_eq!(value("(+ -0)"), Ok(number(0.0)));
    assert_eq!(value("(* -0)"), Ok(number(-0.0)));
}

#[test]
fn minus_negates_one_and_subtracts_many() {
    assert_eq!(value("(- 5)"), Ok(number(-5.0)));
    assert_eq!(value("(- 0)"), Ok(number(-0.0)));
    assert_eq!(value("(- 10 1)"), Ok(number(9.0)));
    assert_eq!(value("(- 10 1 2 3)"), Ok(number(4.0)));
    assert_eq!(value("(-)"), Err(EvalError::MissingOperand(ArithOp::Sub)));
}

#[test]
fn slash_passes_one_and_divides_many() {
    assert_eq!(value("(/ 8)"), Ok(number(8.0)));
    assert_eq!(value("(/ 0)"), Ok(number(0.0)));
    assert_eq!(value("(/ 8 2)"), Ok(number(4.0)));
    assert_eq!(value("(/ 8 2 2)"), Ok(number(2.0)));
    assert_eq!(value("(/ 1 3)"), Ok(number(1.0 / 3.0)));
    assert_eq!(value("(/ 0 5)"), Ok(number(0.0)));
    assert_eq!(value("(/)"), Err(EvalError::MissingOperand(ArithOp::Div)));
}

#[test]
fn a_zero_divisor_fails_before_anything_else() {
    assert_eq!(value("(/ 10 0)"), Err(EvalError::DivisionByZero));
    assert_eq!(value("(/ 10 -0)"), Err(EvalError::DivisionByZero));
    assert_eq!(value("(/ 10 2 0.0 5)"), Err(EvalError::DivisionByZero));
    assert_eq!(value("(/ 0 0)"), Err(EvalError::DivisionByZero));
    // The guard comes before the check of the arguments' kinds.
    assert_eq!(value("(/ \"a\" 0)"), Err(EvalError::DivisionByZero));
    assert_eq!(value("(/ 1 true 0)"), Err(EvalError::DivisionByZero));
}

#[test]
fn division_by_zero_is_never_asked_of_the_arithmetic() {
    let strict = |op: ArithOp, a: u64, b: u64| -> u64 {
        if op == ArithOp::Div {
            assert!(f64::from_bits(b) != 0.0, "asked to divide by zero");
        }
        arith(op, a, b)
    };
    let mut env = Env::new();
    assert_eq!(eval(&read("(/ 10 0)"), &mut env, &strict), Err(EvalError::DivisionByZero));
    assert_eq!(eval(&read("(/ 0 1 0)"), &mut env, &strict), Err(EvalError::DivisionByZero));
    assert_eq!(eval(&read("(/ 10 4 0)"), &mut env, &strict), Err(EvalError::DivisionByZero));
    assert_eq!(eval(&read("(/ 0 4)"), &mut env, &strict), Ok(number(0.0)));
}

#[test]
fn a_failing_application_computes_nothing() {
    let never = |_: ArithOp, _: u64, _: u64| -> u64 { panic!("asked to compute") };
    let zero = vec![number(10.0), number(4.0), number(0.0)];
    assert_eq!(apply_builtin_op("/", &zero, &never), Some(Err(EvalError::DivisionByZero)));
    let mixed = vec![number(10.0), number(4.0), string("a")];
    assert_eq!(
        apply_builtin_op("+", &mixed, &never),
        Some(Err(EvalError::NumberExpected(Builtin::Arith(ArithOp::Add))))
    );
    assert_eq!(
        apply_builtin_op("/", &mixed, &never),
        Some(Err(EvalError::NumberExpected(Builtin::Arith(ArithOp::Div))))
    );
    let none: Vec<Expr> = vec![];
    assert_eq!(
        apply_builtin_op("-", &none, &never),
        Some(Err(EvalError::MissingOperand(ArithOp::Sub)))
    );
    // Nor is anything asked where the library computes by itself.
    let one = vec![number(3.0)];
    assert_eq!(apply_builtin_op("-", &one, &never), Some(Ok(number(-3.0))));
    assert_eq!(apply_builtin_op("/", &one, &never), Some(Ok(number(3.0))));
    assert_eq!(apply_builtin_op("+", &none, &never), Some(Ok(number(0.0))));
    let two = vec![number(3.0), number(2.0)];
    assert_eq!(apply_builtin_op(">", &two, &never), Some(Ok(Expr::Bool(true))));
}

#[test]
fn arithmetic_wants_numbers() {
    let add = EvalError::NumberExpected(Builtin::Arith(ArithOp::Add));
    assert_eq!(value("(+ 1 \"a\")"), Err(add));
    assert_eq!(
        value("(- true)"),
        Err(EvalError::NumberExpected(Builtin::Arith(ArithOp::Sub)))
    );
    assert_eq!(
        value("(* 2 ())"),
        Err(EvalError::NumberExpected(Builtin::Arith(ArithOp::Mul)))
    );
    assert_eq!(
        value("(/ 1 \"a\")"),
        Err(EvalError::NumberExpected(Builtin::Arith(ArithOp::Div)))
    );
    assert_eq!(message("(+ 1 \"a\")"), "Operator '+' requires number arguments.");
    assert_eq!(message("(- true)"), "Operator '-' requires number arguments.");
    assert_eq!(message("(* 2 ())"), "Operator '*' requires number arguments.");
    assert_eq!(message("(/ 1 \"a\")"), "Operator '/' requires number arguments.");
    assert_eq!(message("(-)"), "Operator '-' requires at least one argument.");
    assert_eq!(message("(/)"), "Operator '/' requires at least one argument.");
}

#[test]
fn greater_compares_two_numbers() {
    assert_eq!(value("(> 5 2)"), Ok(Expr::Bool(true)));
    assert_eq!(value("(> 2 5)"), Ok(Expr::Bool(false)));
    assert_eq!(value("(> 2 2)"), Ok(Expr::Bool(false)));
    assert_eq!(value("(> 0 -0)"), Ok(Expr::Bool(false)));
    assert_eq!(value("(> -1 -2)"), Ok(Expr::Bool(true)));
    assert_eq!(value("(> inf 1e308)"), Ok(Expr::Bool(true)));
    assert_eq!(value("(> nan 1)"), Ok(Expr::Bool(false)));
    assert_eq!(value("(> 1)"), Err(EvalError::InvalidComparison));
    assert_eq!(value("(>)"), Err(EvalError::InvalidComparison));
    assert_eq!(value("(> 1 2 3)"), Err(EvalError::InvalidComparison));
    assert_eq!(value("(> 1 \"a\")"), Err(EvalError::NumberExpected(Builtin::Greater)));
    assert_eq!(value("(> \"a\" 1)"), Err(EvalError::NumberExpected(Builtin::Greater)));
    assert_eq!(message("(> 1)"), "'>' requires two arguments.");
    assert_eq!(message("(> 1 \"a\")"), "'>' requires number arguments.");
}

#[test]
fn concat_joins_strings() {
    assert_eq!(value("(concat)"), Ok(string("")));
    assert_eq!(value("(concat \"a\")"), Ok(string("a")));
    assert_eq!(value("(concat \"a\" \"\" \"bc\" \"d\")"), Ok(string("abcd")));
    assert_eq!(value("(concat \"a\" 1)"), Err(EvalError::StringExpected));
    assert_eq!(message("(concat \"a\" 1)"), "'concat' requires string arguments.");
}

#[test]
fn apply_builtin_op_knows_its_names() {
    let args = vec![number(6.0), number(3.0)];
    assert_eq!(apply_builtin_op("+", &args, &arith), Some(Ok(number(9.0))));
    assert_eq!(apply_builtin_op("-", &args, &arith), Some(Ok(number(3.0))));
    assert_eq!(apply_builtin_op("*", &args, &arith), Some(Ok(number(18.0))));
    assert_eq!(apply_builtin_op("/", &args, &arith), Some(Ok(number(2.0))));
    assert_eq!(apply_builtin_op(">", &args, &arith), Some(Ok(Expr::Bool(true))));
    assert_eq!(apply_builtin_op("concat", &args, &arith), Some(Err(EvalError::StringExpected)));
    assert_eq!(apply_builtin_op("<", &args, &arith), None);
    assert_eq!(apply_builtin_op("", &args, &arith), None);
    assert_eq!(apply_builtin_op("define", &args, &arith), None);
    assert_eq!(apply_builtin_op("++", &args, &arith), None);
}

#[test]
fn arithmetic_is_the_callers() {
    // An arithmetic that works on the bits as integers.
    let integers = |op: ArithOp, a: u64, b: u64| -> u64 {
        match op {
            ArithOp::Add => a.wrapping_add(b),
            ArithOp::Sub => a.wrapping_sub(b),
            ArithOp::Mul => a.wrapping_mul(b),
            ArithOp::Div => a / b,
        }
    };
    let args = vec![Expr::Number(20), Expr::Number(5), Expr::Number(2)];
    assert_eq!(apply_builtin_op("+", &args, &integers), Some(Ok(Expr::Number(27))));
    assert_eq!(apply_builtin_op("-", &args, &integers), Some(Ok(Expr::Number(13))));
    // The product starts from the bits of 1.0.
    assert_eq!(
        apply_builtin_op("*", &args, &integers),
        Some(Ok(Expr::Number(0x3ff0_0000_0000_0000u64.wrapping_mul(200))))
    );
    assert_eq!(apply_builtin_op("/", &args, &integers), Some(Ok(Expr::Number(2))));
}

// --- define ---

#[test]
fn define_binds_and_gives_the_symbol() {
    let mut env = Env::new();
    assert_eq!(run("(define x (+ 1 2))", &mut env), Ok(symbol("x")));
    assert_eq!(env.get("x"), Some(&number(3.0)));
    assert_eq!(run("(define x \"again\")", &mut env), Ok(symbol("x")));
    assert_eq!(env.get("x"), Some(&string("again")));
}

#[test]
fn define_wants_a_symbol_and_a_value() {
    assert_eq!(value("(define)"), Err(EvalError::InvalidDefine));
    assert_eq!(value("(define x)"), Err(EvalError::InvalidDefine));
    assert_eq!(value("(define x 1 2)"), Err(EvalError::InvalidDefine));
    assert_eq!(value("(define 1 2)"), Err(EvalError::InvalidDefineTarget));
    assert_eq!(value("(define (x) 2)"), Err(EvalError::InvalidDefineTarget));
    assert_eq!(message("(define x)"), "'define' requires a symbol and a value.");
    assert_eq!(message("(define 1 2)"), "The first argument to 'define' must be a symbol.");
}

#[test]
fn define_checks_the_name_before_the_value() {
    let mut env = Env::new();
    assert_eq!(run("(define 1 (define y 2))", &mut env), Err(EvalError::InvalidDefineTarget));
    assert_eq!(env.get("y"), None);
}

#[test]
fn define_of_a_failing_value_binds_nothing() {
    let mut env = Env::new();
    assert_eq!(
        run("(define x missing)", &mut env),
        Err(EvalError::UndefinedVariable("missing".to_string()))
    );
    assert_eq!(env.get("x"), None);
}

#[test]
fn eval_define_takes_the_operands() {
    let mut env = Env::new();
    let args = vec![symbol("z"), number(4.0)];
    assert_eq!(eval_define(&args, &mut env, &arith, 10), Ok(symbol("z")));
    assert_eq!(env.get("z"), Some(&number(4.0)));
}

// --- lambda ---

#[test]
fn lambda_makes_a_procedure() {
    assert_eq!(
        value("(lambda (x y) (+ x y))"),
        Ok(Expr::Func {
            params: vec!["x".to_string(), "y".to_string()],
            body: Box::new(Expr::List(vec![symbol("+"), symbol("x"), symbol("y")])),
        })
    );
    assert_eq!(
        value("(lambda () missing)"),
        Ok(Expr::Func { params: vec![], body: Box::new(symbol("missing")) })
    );
}

#[test]
fn lambda_wants_symbols_and_a_body() {
    assert_eq!(value("(lambda)"), Err(EvalError::InvalidLambda));
    assert_eq!(value("(lambda (x))"), Err(EvalError::InvalidLambda));
    assert_eq!(value("(lambda (x) x x)"), Err(EvalError::InvalidLambda));
    assert_eq!(value("(lambda x x)"), Err(EvalError::InvalidLambdaParams));
    assert_eq!(value("(lambda 1 x)"), Err(EvalError::InvalidLambdaParams));
    assert_eq!(value("(lambda (x 1) x)"), Err(EvalError::InvalidLambdaParam));
    assert_eq!(value("(lambda ((x)) x)"), Err(EvalError::InvalidLambdaParam));
    assert_eq!(message("(lambda (x))"), "'lambda' requires a list of parameters and a body.");
    assert_eq!(
        message("(lambda x x)"),
        "The first argument to 'lambda' must be a list of symbols."
    );
    assert_eq!(message("(lambda (x 1) x)"), "Lambda parameters must be symbols.");
}

#[test]
fn eval_lambda_takes_the_operands() {
    let args = vec![Expr::List(vec![symbol("a")]), number(1.0)];
    assert_eq!(
        eval_lambda(&args),
        Ok(Expr::Func { params: vec!["a".to_string()], body: Box::new(number(1.0)) })
    );
}

// --- if ---

#[test]
fn if_takes_one_branch() {
    assert_eq!(value("(if true 1 2)"), Ok(number(1.0)));
    assert_eq!(value("(if false 1 2)"), Ok(number(2.0)));
    assert_eq!(value("(if (> 5 2) \"yes\" \"no\")"), Ok(string("yes")));
    assert_eq!(value("(if (> 2 5) \"yes\" \"no\")"), Ok(string("no")));
}

#[test]
fn if_leaves_the_other_branch_alone() {
    assert_eq!(value("(if (> 5 2) \"yes\" (/ 1 0))"), Ok(string("yes")));
    assert_eq!(value("(if (> 2 5) missing \"no\")"), Ok(string("no")));
    assert_eq!(value("(if true 1 (1 2 3))"), Ok(number(1.0)));
    let mut env = Env::new();
    assert_eq!(run("(if true (define a 1) (define b 2))", &mut env), Ok(symbol("a")));
    assert_eq!(env.get("a"), Some(&number(1.0)));
    assert_eq!(env.get("b"), None);
}

#[test]
fn if_wants_a_truth_value_and_two_branches() {
    assert_eq!(value("(if)"), Err(EvalError::InvalidIf));
    assert_eq!(value("(if true 1)"), Err(EvalError::InvalidIf));
    assert_eq!(value("(if true 1 2 3)"), Err(EvalError::InvalidIf));
    assert_eq!(value("(if 1 2 3)"), Err(EvalError::NonBooleanCondition));
    assert_eq!(value("(if \"true\" 2 3)"), Err(EvalError::NonBooleanCondition));
    assert_eq!(value("(if missing 2 3)"), Err(EvalError::UndefinedVariable("missing".to_string())));
    assert_eq!(
        message("(if true 1)"),
        "'if' requires a condition, a then branch, and an else branch."
    );
    assert_eq!(message("(if 1 2 3)"), "The condition for 'if' must evaluate to a boolean.");
}

#[test]
fn eval_if_takes_the_operands() {
    let mut env = Env::new();
    let args = vec![Expr::Bool(false), number(1.0), number(2.0)];
    assert_eq!(eval_if(&args, &mut env, &arith, 10), Ok(number(2.0)));
}

// --- application ---

#[test]
fn procedures_are_applied() {
    assert_eq!(value("((lambda (x) (* x x)) 5)"), Ok(number(25.0)));
    assert_eq!(value("((lambda () 7))"), Ok(number(7.0)));
    assert_eq!(value("((lambda (a b) (- a b)) 10 4)"), Ok(number(6.0)));
    assert_eq!(value("((lambda (f) (f 3)) (lambda (x) (+ x 1)))"), Ok(number(4.0)));
}

#[test]
fn procedures_may_call_themselves() {
    let mut env = Env::new();
    run("(define fact (lambda (n) (if (> n 1) (* n (fact (- n 1))) 1)))", &mut env).unwrap();
    assert_eq!(run("(fact 5)", &mut env), Ok(number(120.0)));
    assert_eq!(run("(fact 1)", &mut env), Ok(number(1.0)));
    assert_eq!(run("(fact 20)", &mut env), Ok(number(2432902008176640000.0)));
}

#[test]
fn the_number_of_arguments_must_match() {
    assert_eq!(
        value("((lambda (x y) x) 1)"),
        Err(EvalError::ArityMismatch { expected: 2, received: 1 })
    );
    assert_eq!(
        value("((lambda () 1) 1 2 3)"),
        Err(EvalError::ArityMismatch { expected: 0, received: 3 })
    );
    assert_eq!(message("((lambda (x y) x) 1)"), "Function expects 2 arguments, but received 1.");
    assert_eq!(
        message("((lambda (a) a) 1 2 3 4 5 6 7 8 9 10 11 12)"),
        "Function expects 1 arguments, but received 12."
    );
}

#[test]
fn only_procedures_are_applied() {
    assert_eq!(value("(5 1 2)"), Err(EvalError::NotAFunction(number(5.0))));
    assert_eq!(value("(\"s\")"), Err(EvalError::NotAFunction(string("s"))));
    assert_eq!(value("(true)"), Err(EvalError::NotAFunction(Expr::Bool(true))));
    assert_eq!(message("(5 1 2)"), "Not a function: 5");
    assert_eq!(message("(\"s\")"), "Not a function: \"s\"");
    assert_eq!(message("(())"), "Not a function: ()");
    let mut env = Env::new();
    env.insert("n".to_string(), number(1.0));
    // The message shows the operator as written, not its value.
    assert_eq!(run("(n 2)", &mut env), Err(EvalError::NotAFunction(symbol("n"))));
    assert_eq!(run("(n 2)", &mut env).unwrap_err().message(&show_number), "Not a function: n");
    assert_eq!(
        run("((if true n n) 2)", &mut env).unwrap_err().message(&show_number),
        "Not a function: (if true n n)"
    );
}

#[test]
fn an_unknown_operator_is_an_undefined_variable() {
    assert_eq!(value("(foo 1)"), Err(EvalError::UndefinedVariable("foo".to_string())));
    assert_eq!(message("(+ x 5)"), "Variable 'x' not found.");
    assert_eq!(message("(foo 1)"), "Variable 'foo' not found.");
}

#[test]
fn operands_come_before_the_operator() {
    let mut env = Env::new();
    // The operand fails first, though the operator is unbound too.
    assert_eq!(
        run("(foo (define a 1) b)", &mut env),
        Err(EvalError::UndefinedVariable("b".to_string()))
    );
    // What was defined before the error stays.
    assert_eq!(env.get("a"), Some(&number(1.0)));
    assert_eq!(
        run("(foo (define c 1))", &mut env),
        Err(EvalError::UndefinedVariable("foo".to_string()))
    );
    assert_eq!(env.get("c"), Some(&number(1.0)));
}

#[test]
fn operands_are_evaluated_from_left_to_right() {
    let mut env = Env::new();
    assert_eq!(
        run("((lambda (a b c) c) (define x 1) (define x 2) x)", &mut env),
        Ok(number(2.0))
    );
    assert_eq!(env.get("x"), Some(&number(2.0)));
}

#[test]
fn built_in_names_cannot_be_taken_over() {
    let mut env = Env::new();
    run("(define + (lambda (a b) 0))", &mut env).unwrap();
    assert_eq!(run("(+ 1 2)", &mut env), Ok(number(3.0)));
    run("(define concat 5)", &mut env).unwrap();
    assert_eq!(run("(concat \"a\" \"b\")", &mut env), Ok(string("ab")));
    // As a value the name is what was bound.
    assert_eq!(run("concat", &mut env), Ok(number(5.0)));
}

#[test]
fn apply_procedure_takes_operator_and_operands() {
    let mut env = Env::new();
    let op = read("(lambda (x) (+ x 1))");
    let args = vec![number(2.0)];
    assert_eq!(apply_procedure(&op, &args, &mut env, &arith, 10), Ok(number(3.0)));
    assert_eq!(apply_procedure(&symbol("*"), &args, &mut env, &arith, 10), Ok(number(2.0)));
}

// --- scoping ---

#[test]
fn a_free_name_means_what_it_means_at_the_call() {
    let mut env = Env::new();
    run("(define f (lambda () x))", &mut env).unwrap();
    run("(define x 1)", &mut env).unwrap();
    run("(define g (lambda (x) (f)))", &mut env).unwrap();
    // Called at the top, `f` sees the top's `x`; called inside `g`, it sees
    // the `x` that `g` was given.
    assert_eq!(run("(f)", &mut env), Ok(number(1.0)));
    assert_eq!(run("(g 2)", &mut env), Ok(number(2.0)));
    assert_eq!(run("(g 3)", &mut env), Ok(number(3.0)));
    assert_eq!(run("(f)", &mut env), Ok(number(1.0)));
}

#[test]
fn a_procedure_keeps_nothing_from_where_it_was_made() {
    let mut env = Env::new();
    run("(define make (lambda (x) (lambda () x)))", &mut env).unwrap();
    run("(define h (make 10))", &mut env).unwrap();
    // The `x` of the call to `make` is gone.
    assert_eq!(run("(h)", &mut env), Err(EvalError::UndefinedVariable("x".to_string())));
    run("(define x 7)", &mut env).unwrap();
    assert_eq!(run("(h)", &mut env), Ok(number(7.0)));
}

#[test]
fn what_a_body_defines_stays_in_the_call() {
    let mut env = Env::new();
    run("(define x 1)", &mut env).unwrap();
    run("(define set (lambda () (define x 5)))", &mut env).unwrap();
    run("(define new (lambda () (define y 5)))", &mut env).unwrap();
    assert_eq!(run("(set)", &mut env), Ok(symbol("x")));
    assert_eq!(run("(new)", &mut env), Ok(symbol("y")));
    assert_eq!(env.get("x"), Some(&number(1.0)));
    assert_eq!(env.get("y"), None);
}

#[test]
fn parameters_hide_outer_bindings_for_the_call_only() {
    let mut env = Env::new();
    run("(define x 1)", &mut env).unwrap();
    assert_eq!(run("((lambda (x) (+ x 10)) 2)", &mut env), Ok(number(12.0)));
    assert_eq!(env.get("x"), Some(&number(1.0)));
}

#[test]
fn of_two_parameters_with_one_name_the_later_counts() {
    assert_eq!(value("((lambda (x x) x) 1 2)"), Ok(number(2.0)));
}

#[test]
fn defines_in_operands_reach_the_caller() {
    let mut env = Env::new();
    assert_eq!(run("((lambda (a) y) (define y 3))", &mut env), Ok(number(3.0)));
    assert_eq!(env.get("y"), Some(&number(3.0)));
}

// --- depth ---

#[test]
fn eval_within_bounds_the_nesting() {
    let mut env = Env::new();
    assert_eq!(eval_within(&number(1.0), &mut env, &arith, 0), Err(EvalError::DepthExceeded));
    assert_eq!(eval_within(&number(1.0), &mut env, &arith, 1), Ok(number(1.0)));
    let sum = read("(+ 1 2)");
    assert_eq!(eval_within(&sum, &mut env, &arith, 1), Err(EvalError::DepthExceeded));
    assert_eq!(eval_within(&sum, &mut env, &arith, 2), Ok(number(3.0)));
    let nested = read("(+ 1 (+ 2 (+ 3 4)))");
    assert_eq!(eval_within(&nested, &mut env, &arith, 3), Err(EvalError::DepthExceeded));
    assert_eq!(eval_within(&nested, &mut env, &arith, 4), Ok(number(10.0)));
    assert_eq!(
        EvalError::DepthExceeded.message(&show_number),
        "Evaluation nests too deeply."
    );
}

#[test]
fn eval_within_stops_a_procedure_that_never_returns() {
    let mut env = Env::new();
    run("(define forever (lambda () (forever)))", &mut env).unwrap();
    assert_eq!(
        eval_within(&read("(forever)"), &mut env, &arith, 200),
        Err(EvalError::DepthExceeded)
    );
}

#[test]
fn special_forms_count_as_one_level() {
    let mut env = Env::new();
    let form = read("(if true 1 2)");
    assert_eq!(eval_within(&form, &mut env, &arith, 1), Err(EvalError::DepthExceeded));
    assert_eq!(eval_within(&form, &mut env, &arith, 2), Ok(number(1.0)));
    let lambda = read("(lambda (x) x)");
    assert!(eval_within(&lambda, &mut env, &arith, 1).is_ok());
}

// --- messages ---

#[test]
fn every_error_has_its_message() {
    let cases: Vec<(EvalError, &str)> = vec![
        (EvalError::UndefinedVariable("v".to_string()), "Variable 'v' not found."),
        (EvalError::InvalidDefine, "'define' requires a symbol and a value."),
        (EvalError::InvalidDefineTarget, "The first argument to 'define' must be a symbol."),
        (EvalError::InvalidLambda, "'lambda' requires a list of parameters and a body."),
        (
            EvalError::InvalidLambdaParams,
            "The first argument to 'lambda' must be a list of symbols.",
        ),
        (EvalError::InvalidLambdaParam, "Lambda parameters must be symbols."),
        (EvalError::InvalidIf, "'if' requires a condition, a then branch, and an else branch."),
        (EvalError::NonBooleanCondition, "The condition for 'if' must evaluate to a boolean."),
        (
            EvalError::ArityMismatch { expected: 0, received: 100 },
            "Function expects 0 arguments, but received 100.",
        ),
        (EvalError::NotAFunction(number(1.5)), "Not a function: 1.5"),
        (EvalError::DivisionByZero, "Division by zero."),
        (
            EvalError::NumberExpected(Builtin::Arith(ArithOp::Mul)),
            "Operator '*' requires number arguments.",
        ),
        (EvalError::NumberExpected(Builtin::Greater), "'>' requires number arguments."),
        (EvalError::StringExpected, "'concat' requires string arguments."),
        (EvalError::MissingOperand(ArithOp::Sub), "Operator '-' requires at least one argument."),
        (EvalError::InvalidComparison, "'>' requires two arguments."),
        (EvalError::DepthExceeded, "Evaluation nests too deeply."),
    ];
    for (error, text) in cases {
        assert_eq!(error.message(&show_number), text);
    }
}

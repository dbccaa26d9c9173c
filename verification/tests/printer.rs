use minilisp_rust::parser::parse;
use minilisp_rust::text::push_decimal;
use minilisp_rust::Expr;

fn read_number(token: &str) -> Option<u64> {
    token.parse::<f64>().ok().map(f64::to_bits)
}

fn show_number(bits: u64) -> String {
    f64::from_bits(bits).to_string()
}

fn number(x: f64) -> Expr {
    Expr::Number(x.to_bits())
}

fn symbol(name: &str) -> Expr {
    Expr::Symbol(name.to_string())
}

#[test]
fn atoms_print_as_their_text() {
    assert_eq!(symbol("x").to_string(&show_number), "x");
    assert_eq!(number(6.0).to_string(&show_number), "6");
    assert_eq!(number(2.5).to_string(&show_number), "2.5");
    assert_eq!(number(-0.125).to_string(&show_number), "-0.125");
    assert_eq!(Expr::Bool(true).to_string(&show_number), "true");
    assert_eq!(Expr::Bool(false).to_string(&show_number), "false");
}

#[test]
fn strings_print_between_quotes() {
    assert_eq!(Expr::String("hi".to_string()).to_string(&show_number), "\"hi\"");
    assert_eq!(Expr::String(String::new()).to_string(&show_number), "\"\"");
    assert_eq!(Expr::String("a \"b\"".to_string()).to_string(&show_number), "\"a \"b\"\"");
}

#[test]
fn lists_print_between_parentheses() {
    assert_eq!(Expr::List(vec![]).to_string(&show_number), "()");
    assert_eq!(Expr::List(vec![symbol("a")]).to_string(&show_number), "(a)");
    assert_eq!(
        Expr::List(vec![symbol("+"), number(1.0), number(2.0)]).to_string(&show_number),
        "(+ 1 2)"
    );
    assert_eq!(
        Expr::List(vec![
            symbol("a"),
            Expr::List(vec![Expr::List(vec![]), Expr::String("s t".to_string())]),
            Expr::Bool(true),
        ])
        .to_string(&show_number),
        "(a (() \"s t\") true)"
    );
}

#[test]
fn procedures_print_as_a_placeholder() {
    let f = Expr::Func { params: vec!["x".to_string()], body: Box::new(symbol("x")) };
    assert_eq!(f.to_string(&show_number), "<function>");
    assert_eq!(Expr::List(vec![f, number(1.0)]).to_string(&show_number), "(<function> 1)");
}

#[test]
fn numbers_print_as_the_caller_writes_them() {
    let hex = |bits: u64| format!("#{:x}", bits);
    assert_eq!(Expr::Number(255).to_string(&hex), "#ff");
    assert_eq!(Expr::List(vec![Expr::Number(1), Expr::Number(2)]).to_string(&hex), "(#1 #2)");
}

#[test]
fn write_appends() {
    let mut out = String::from("> ");
    Expr::List(vec![symbol("a"), number(1.0)]).write(&mut out, &show_number);
    assert_eq!(out, "> (a 1)");
}

#[test]
fn printed_literals_read_back() {
    let literals = vec![
        number(0.0),
        number(-0.0),
        number(6.0),
        number(0.1),
        number(-2.5e-7),
        number(1e21),
        number(1.7976931348623157e308),
        number(5e-324),
        number(f64::INFINITY),
        number(f64::NEG_INFINITY),
        Expr::Bool(true),
        Expr::Bool(false),
        Expr::String("hello world".to_string()),
        Expr::String(String::new()),
        Expr::String("(not a list)".to_string()),
        symbol("x"),
        symbol("+"),
        symbol("a\"b"),
        Expr::List(vec![]),
        Expr::List(vec![symbol("define"), symbol("x"), number(3.0)]),
        Expr::List(vec![
            Expr::List(vec![symbol("lambda"), Expr::List(vec![symbol("x")]), symbol("x")]),
            Expr::String("a b".to_string()),
            Expr::List(vec![Expr::List(vec![])]),
        ]),
    ];
    for e in literals {
        let text = e.to_string(&show_number);
        assert_eq!(parse(&text, &read_number), Ok(e), "{}", text);
    }
}

#[test]
fn parsed_texts_print_and_read_back() {
    let texts = vec![
        "42",
        "  -1.50 ",
        "1e3",
        "true",
        "\"unterminated",
        "(+ 1 2 3)",
        "( a  ( b\tc )\n\"d e\" )",
        "(if (> 5 2) \"yes\" \"no\")",
        "((lambda (x) (* x x)) 5)",
        "()",
    ];
    for text in texts {
        let e = parse(text, &read_number).unwrap();
        let printed = e.to_string(&show_number);
        assert_eq!(parse(&printed, &read_number), Ok(e), "{}", text);
    }
    let e = parse("( a  ( b\tc )\n\"d e\" 1.0)", &read_number).unwrap();
    assert_eq!(e.to_string(&show_number), "(a (b c) \"d e\" 1)");
}

#[test]
fn push_decimal_writes_base_ten() {
    let mut out = String::new();
    push_decimal(&mut out, 0);
    assert_eq!(out, "0");
    push_decimal(&mut out, 7);
    push_decimal(&mut out, 10);
    push_decimal(&mut out, 12345);
    assert_eq!(out, "071012345");
    let mut big = String::new();
    push_decimal(&mut big, usize::MAX);
    assert_eq!(big, usize::MAX.to_string());
}

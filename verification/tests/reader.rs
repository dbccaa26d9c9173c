use minilisp_rust::parser::{atom, parse, read_from_tokens, tokenize};
use minilisp_rust::text::{chars_of, is_whitespace, same_text};
use minilisp_rust::{Expr, ParseError};

fn read_number(token: &str) -> Option<u64> {
    token.parse::<f64>().ok().map(f64::to_bits)
}

fn number(x: f64) -> Expr {
    Expr::Number(x.to_bits())
}

fn symbol(name: &str) -> Expr {
    Expr::Symbol(name.to_string())
}

fn tokens(input: &str) -> Vec<String> {
    tokenize(input)
}

#[test]
fn tokenize_splits_parentheses_and_words() {
    assert_eq!(tokens("(+ 1 2)"), vec!["(", "+", "1", "2", ")"]);
    assert_eq!(tokens("a(b)c"), vec!["a", "(", "b", ")", "c"]);
    assert_eq!(tokens("()"), vec!["(", ")"]);
    assert_eq!(tokens("(("), vec!["(", "("]);
}

#[test]
fn tokenize_of_nothing_is_nothing() {
    assert_eq!(tokens(""), Vec::<String>::new());
    assert_eq!(tokens("   \t\n"), Vec::<String>::new());
}

#[test]
fn tokenize_drops_every_kind_of_whitespace() {
    assert_eq!(tokens("  a\t\nb\u{a0}c\u{2003}d\u{3000}e\r"), vec!["a", "b", "c", "d", "e"]);
    assert_eq!(tokens("a\u{85}b\u{1680}c\u{2028}d\u{2029}e\u{202f}f\u{205f}g"),
        vec!["a", "b", "c", "d", "e", "f", "g"]);
    assert_eq!(tokens("a\u{b}b\u{c}c"), vec!["a", "b", "c"]);
}

#[test]
fn tokenize_keeps_what_is_not_whitespace() {
    // U+200B (zero width space) and U+FEFF are not whitespace.
    assert_eq!(tokens("a\u{200b}b \u{feff}"), vec!["a\u{200b}b", "\u{feff}"]);
    assert_eq!(tokens("h\u{e9}llo w\u{f6}rld"), vec!["h\u{e9}llo", "w\u{f6}rld"]);
}

#[test]
fn tokenize_reads_strings_verbatim() {
    assert_eq!(tokens("\"hello world\" x"), vec!["\"hello world\"", "x"]);
    assert_eq!(tokens("\"(a b)\""), vec!["\"(a b)\""]);
    assert_eq!(tokens("\"\""), vec!["\"\""]);
    assert_eq!(tokens("\"a\"\"b\""), vec!["\"a\"", "\"b\""]);
    assert_eq!(tokens("\"a\"b"), vec!["\"a\"", "b"]);
    assert_eq!(tokens("\"line\nbreak\""), vec!["\"line\nbreak\""]);
}

#[test]
fn tokenize_closes_an_unterminated_string() {
    assert_eq!(tokens("\"abc"), vec!["\"abc\""]);
    assert_eq!(tokens("\""), vec!["\"\""]);
    assert_eq!(tokens("(a \"b c)"), vec!["(", "a", "\"b c)\""]);
}

#[test]
fn tokenize_lets_a_quote_stand_inside_a_word() {
    assert_eq!(tokens("a\"b c\""), vec!["a\"b", "c\""]);
    assert_eq!(tokens("ab\"(x"), vec!["ab\"", "(", "x"]);
}

#[test]
fn whitespace_is_what_the_standard_library_says() {
    let mut code: u32 = 0;
    while code <= 0x10ffff {
        if let Some(c) = char::from_u32(code) {
            assert_eq!(is_whitespace(c), c.is_whitespace(), "U+{:04X}", code);
        }
        code += 1;
    }
}

#[test]
fn chars_of_gives_the_characters() {
    assert_eq!(chars_of("a\u{e9}\u{1f600}b"), vec!['a', '\u{e9}', '\u{1f600}', 'b']);
    assert_eq!(chars_of(""), Vec::<char>::new());
}

#[test]
fn same_text_compares_characters() {
    assert!(same_text("", ""));
    assert!(same_text("define", "define"));
    assert!(!same_text("define", "defin"));
    assert!(!same_text("define", "defind"));
    assert!(!same_text("a", "b"));
    assert!(same_text("h\u{e9}", "h\u{e9}"));
    assert!(!same_text("h\u{e9}", "h\u{e8}"));
    assert!(!same_text("\u{e9}", "e"));
}

#[test]
fn atom_reads_each_kind() {
    assert_eq!(atom("\"hi\"", &read_number), Expr::String("hi".to_string()));
    assert_eq!(atom("\"\"", &read_number), Expr::String(String::new()));
    assert_eq!(atom("true", &read_number), Expr::Bool(true));
    assert_eq!(atom("false", &read_number), Expr::Bool(false));
    assert_eq!(atom("3.5", &read_number), number(3.5));
    assert_eq!(atom("-2", &read_number), number(-2.0));
    assert_eq!(atom("1e3", &read_number), number(1000.0));
    assert_eq!(atom("inf", &read_number), number(f64::INFINITY));
    assert_eq!(atom("abc", &read_number), symbol("abc"));
    assert_eq!(atom("+", &read_number), symbol("+"));
    assert_eq!(atom("-", &read_number), symbol("-"));
    assert_eq!(atom("True", &read_number), symbol("True"));
    assert_eq!(atom("a\"", &read_number), symbol("a\""));
    assert_eq!(atom("\"a", &read_number), symbol("\"a"));
}

#[test]
fn atom_takes_a_lone_quote_for_a_symbol() {
    assert_eq!(atom("\"", &read_number), symbol("\""));
}

#[test]
fn atom_asks_the_reader_for_numbers_only() {
    let everything = |_: &str| Some(7u64);
    assert_eq!(atom("abc", &everything), Expr::Number(7));
    assert_eq!(atom("true", &everything), Expr::Bool(true));
    assert_eq!(atom("\"1\"", &everything), Expr::String("1".to_string()));
    let nothing = |_: &str| None;
    assert_eq!(atom("12", &nothing), symbol("12"));
}

#[test]
fn parse_reads_atoms() {
    assert_eq!(parse("42", &read_number), Ok(number(42.0)));
    assert_eq!(parse("  x  ", &read_number), Ok(symbol("x")));
    assert_eq!(parse("true", &read_number), Ok(Expr::Bool(true)));
    assert_eq!(parse("\"a b\"", &read_number), Ok(Expr::String("a b".to_string())));
    assert_eq!(parse("\"open", &read_number), Ok(Expr::String("open".to_string())));
}

#[test]
fn parse_reads_nested_lists() {
    assert_eq!(parse("()", &read_number), Ok(Expr::List(vec![])));
    assert_eq!(
        parse("(a (b 1) () \"s\")", &read_number),
        Ok(Expr::List(vec![
            symbol("a"),
            Expr::List(vec![symbol("b"), number(1.0)]),
            Expr::List(vec![]),
            Expr::String("s".to_string()),
        ]))
    );
    assert_eq!(
        parse("(((x)))", &read_number),
        Ok(Expr::List(vec![Expr::List(vec![Expr::List(vec![symbol("x")])])]))
    );
}

#[test]
fn parse_of_no_token_is_unexpected_eof() {
    assert_eq!(parse("", &read_number), Err(ParseError::UnexpectedEof));
    assert_eq!(parse(" \n\t ", &read_number), Err(ParseError::UnexpectedEof));
}

#[test]
fn parse_of_an_open_list_is_missing_closing_paren() {
    assert_eq!(parse("(", &read_number), Err(ParseError::MissingClosingParen));
    assert_eq!(parse("(+ 1 2", &read_number), Err(ParseError::MissingClosingParen));
    assert_eq!(parse("(a (b)", &read_number), Err(ParseError::MissingClosingParen));
    assert_eq!(parse("(a (b", &read_number), Err(ParseError::MissingClosingParen));
    assert_eq!(parse("(a \"b)", &read_number), Err(ParseError::MissingClosingParen));
}

#[test]
fn parse_of_a_stray_paren_is_unexpected_closing_paren() {
    assert_eq!(parse(")", &read_number), Err(ParseError::UnexpectedClosingParen));
    assert_eq!(parse(") (a)", &read_number), Err(ParseError::UnexpectedClosingParen));
}

#[test]
fn parse_of_more_than_one_expression_is_trailing_tokens() {
    assert_eq!(parse("(+ 1 2) 3", &read_number), Err(ParseError::TrailingTokens));
    assert_eq!(parse("a b", &read_number), Err(ParseError::TrailingTokens));
    assert_eq!(parse("(a))", &read_number), Err(ParseError::TrailingTokens));
    assert_eq!(parse("() (", &read_number), Err(ParseError::TrailingTokens));
}

#[test]
fn parse_error_messages() {
    assert_eq!(ParseError::UnexpectedEof.message(), "Unexpected EOF");
    assert_eq!(ParseError::MissingClosingParen.message(), "Missing closing parenthesis.");
    assert_eq!(ParseError::UnexpectedClosingParen.message(), "Unexpected closing parenthesis.");
    assert_eq!(ParseError::TrailingTokens.message(), "Unexpected tokens after main expression.");
}

#[test]
fn read_from_tokens_gives_the_next_position() {
    let all = tokens("a (b (c)) d");
    assert_eq!(read_from_tokens(&all, 0, &read_number), Ok((symbol("a"), 1)));
    assert_eq!(
        read_from_tokens(&all, 1, &read_number),
        Ok((Expr::List(vec![symbol("b"), Expr::List(vec![symbol("c")])]), 7))
    );
    assert_eq!(read_from_tokens(&all, 3, &read_number), Ok((Expr::List(vec![symbol("c")]), 6)));
    assert_eq!(read_from_tokens(&all, 7, &read_number), Ok((symbol("d"), 8)));
    assert_eq!(read_from_tokens(&all, 8, &read_number), Err(ParseError::UnexpectedEof));
    assert_eq!(read_from_tokens(&all, 5, &read_number), Err(ParseError::UnexpectedClosingParen));
}

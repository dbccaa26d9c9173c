//! The reader: text to tokens, tokens to one expression.
use crate::data::{Expr, ExprView, exprs_view, strings_view};
use crate::error::ParseError;
use crate::text::{chars_of, is_space, is_whitespace, push_range, same_text};
use vstd::prelude::*;
use vstd::string::StringExecFns;

verus! {

/// `read_number` reads numbers as `rd` says: whatever it returns for a token
/// is `rd` of the token's characters.
pub open spec fn reads<R: Fn(&str) -> Option<u64>>(
    read_number: &R,
    rd: spec_fn(Seq<char>) -> Option<u64>,
) -> bool {
    forall|token: &str, r: Option<u64>| #[trigger]
        call_ensures(read_number, (token,), r) ==> r == rd(token@)
}

/// `read_number` can be called on every token.
pub open spec fn reads_all<R: Fn(&str) -> Option<u64>>(read_number: &R) -> bool {
    forall|token: &str| #[trigger] call_requires(read_number, (token,))
}

/// The characters that end a bare token.
pub open spec fn is_delimiter(c: char) -> bool {
    is_space(c) || c == '(' || c == ')'
}

/// How many characters stand before the first `"` of `s`, or before its end.
pub open spec fn text_len(s: Seq<char>) -> nat
    decreases s.len(),
{
    if s.len() == 0 || s[0] == '"' {
        0
    } else {
        1 + text_len(s.drop_first())
    }
}

/// How many characters stand before the first delimiter of `s`, or before its
/// end.
pub open spec fn word_len(s: Seq<char>) -> nat
    decreases s.len(),
{
    if s.len() == 0 || is_delimiter(s[0]) {
        0
    } else {
        1 + word_len(s.drop_first())
    }
}

/// The characters before the first `"` are no more than there are.
pub proof fn lemma_text_len_bound(s: Seq<char>)
    ensures
        text_len(s) <= s.len(),
    decreases s.len(),
{
    if s.len() > 0 && s[0] != '"' {
        lemma_text_len_bound(s.drop_first());
    }
}

/// The characters before the first delimiter are no more than there are.
pub proof fn lemma_word_len_bound(s: Seq<char>)
    ensures
        word_len(s) <= s.len(),
    decreases s.len(),
{
    if s.len() > 0 && !is_delimiter(s[0]) {
        lemma_word_len_bound(s.drop_first());
    }
}

/// The tokens of `s`, read from left to right. A parenthesis is a token by
/// itself. A `"` opens a string token, which runs up to the next `"` or, when
/// there is none, to the end of the text; the token is what stands between,
/// set in double quotes. Whitespace separates tokens and is dropped. Anything
/// else begins a bare token, which runs up to the next delimiter.
pub open spec fn lex(s: Seq<char>) -> Seq<Seq<char>>
    decreases s.len(),
{
    if s.len() == 0 {
        Seq::empty()
    } else if s[0] == '(' || s[0] == ')' {
        seq![seq![s[0]]] + lex(s.drop_first())
    } else if s[0] == '"' {
        let body = s.drop_first();
        let n = text_len(body) as int;
        let used = if n < body.len() {
            n + 1
        } else {
            n
        };
        proof {
            lemma_text_len_bound(body);
        }
        seq![seq!['"'] + body.take(n) + seq!['"']] + lex(body.skip(used))
    } else if is_space(s[0]) {
        lex(s.drop_first())
    } else {
        let n = word_len(s) as int;
        proof {
            lemma_word_len_bound(s);
        }
        seq![s.take(n)] + lex(s.skip(n))
    }
}

/// Splits `input` into its tokens. Nothing is refused here: a string that
/// the text does not close is taken as closed where the text ends.
pub fn tokenize(input: &str) -> (tokens: Vec<String>)
    ensures
        strings_view(tokens@) == lex(input@),
{
    let chars = chars_of(input);
    let n = chars.len();
    let mut tokens: Vec<String> = Vec::new();
    let mut i: usize = 0;
    proof {
        assert(chars@.skip(0) =~= chars@);
        assert(strings_view(tokens@) + lex(chars@) =~= lex(chars@));
    }
    while i < n
        invariant
            n == chars.len(),
            chars@ == input@,
            i <= n,
            strings_view(tokens@) + lex(chars@.skip(i as int)) == lex(chars@),
        decreases n - i,
    {
        let ghost here = chars@.skip(i as int);
        let ghost before = strings_view(tokens@);
        let c = chars[i];
        proof {
            assert(here[0] == c);
            assert(here.drop_first() =~= chars@.skip(i + 1));
        }
        if c == '(' || c == ')' {
            let mut token = String::new();
            token.push(c);
            tokens.push(token);
            proof {
                assert(token@ =~= seq![c]);
                assert(strings_view(tokens@) =~= before + seq![token@]);
                assert(before + (seq![seq![c]] + lex(here.drop_first())) =~= before + seq![
                    token@,
                ] + lex(chars@.skip(i + 1)));
            }
            i += 1;
        } else if c == '"' {
            let start = i + 1;
            let mut j = start;
            let ghost body = chars@.skip(start as int);
            proof {
                assert(body.skip(0) =~= body);
            }
            while j < n && chars[j] != '"'
                invariant
                    n == chars.len(),
                    start <= j <= n,
                    body == chars@.skip(start as int),
                    (j - start) + text_len(body.skip(j - start)) == text_len(body),
                decreases n - j,
            {
                proof {
                    let rest = body.skip(j - start);
                    assert(rest[0] == chars@[j as int]);
                    assert(rest.drop_first() =~= body.skip(j + 1 - start));
                }
                j += 1;
            }
            let mut token = String::new();
            token.push('"');
            push_range(&mut token, &chars, start, j);
            token.push('"');
            tokens.push(token);
            let next = if j < n {
                j + 1
            } else {
                j
            };
            proof {
                let rest = body.skip(j - start);
                if j < n {
                    assert(rest[0] == chars@[j as int]);
                }
                assert(text_len(rest) == 0);
                let len = text_len(body) as int;
                assert(len == j - start);
                assert(body.take(len) =~= chars@.subrange(start as int, j as int));
                assert(token@ =~= seq!['"'] + body.take(len) + seq!['"']);
                let used = if len < body.len() {
                    len + 1
                } else {
                    len
                };
                assert(body.skip(used) =~= chars@.skip(next as int));
                assert(here.drop_first() =~= body);
                assert(strings_view(tokens@) =~= before + seq![token@]);
                assert(before + (seq![token@] + lex(body.skip(used))) =~= before + seq![token@]
                    + lex(chars@.skip(next as int)));
            }
            i = next;
        } else if is_whitespace(c) {
            i += 1;
        } else {
            let mut j = i + 1;
            proof {
                assert(here.skip(0) =~= here);
                assert(here.skip(1) =~= here.drop_first());
            }
            while j < n && !(is_whitespace(chars[j]) || chars[j] == '(' || chars[j] == ')')
                invariant
                    n == chars.len(),
                    i < j <= n,
                    here == chars@.skip(i as int),
                    (j - i) + word_len(here.skip(j - i)) == word_len(here),
                decreases n - j,
            {
                proof {
                    let rest = here.skip(j - i);
                    assert(rest[0] == chars@[j as int]);
                    assert(rest.drop_first() =~= here.skip(j + 1 - i));
                }
                j += 1;
            }
            let mut token = String::new();
            push_range(&mut token, &chars, i, j);
            tokens.push(token);
            proof {
                let rest = here.skip(j - i);
                if j < n {
                    assert(rest[0] == chars@[j as int]);
                }
                assert(word_len(rest) == 0);
                let len = word_len(here) as int;
                assert(len == j - i);
                assert(here.take(len) =~= chars@.subrange(i as int, j as int));
                assert(token@ =~= here.take(len));
                assert(here.skip(len) =~= chars@.skip(j as int));
                assert(strings_view(tokens@) =~= before + seq![token@]);
                assert(before + (seq![token@] + lex(here.skip(len))) =~= before + seq![token@]
                    + lex(chars@.skip(j as int)));
            }
            i = j;
        }
    }
    proof {
        assert(chars@.skip(n as int) =~= Seq::<char>::empty());
        assert(strings_view(tokens@) + Seq::<Seq<char>>::empty() =~= strings_view(tokens@));
    }
    tokens
}

/// The expression that a token other than a parenthesis stands for: a string
/// when it is set in double quotes, a truth value when it is `true` or
/// `false`, a number when `rd` reads it as one, and else a symbol.
pub open spec fn atom_spec(rd: spec_fn(Seq<char>) -> Option<u64>, token: Seq<char>) -> ExprView {
    if token.len() >= 2 && token[0] == '"' && token.last() == '"' {
        ExprView::String(token.subrange(1, token.len() - 1))
    } else if token == "true"@ {
        ExprView::Bool(true)
    } else if token == "false"@ {
        ExprView::Bool(false)
    } else {
        match rd(token) {
            Some(bits) => ExprView::Number(bits),
            None => ExprView::Symbol(token),
        }
    }
}

/// Reads one expression from the front of `tokens`; gives it with the tokens
/// that follow it.
pub open spec fn read(rd: spec_fn(Seq<char>) -> Option<u64>, tokens: Seq<Seq<char>>) -> Result<
    (ExprView, Seq<Seq<char>>),
    ParseError,
>
    decreases tokens.len(), 0nat,
{
    if tokens.len() == 0 {
        Err(ParseError::UnexpectedEof)
    } else if tokens[0] == seq!['('] {
        match read_items(rd, tokens.drop_first()) {
            Ok((items, rest)) => Ok((ExprView::List(items), rest)),
            Err(e) => Err(e),
        }
    } else if tokens[0] == seq![')'] {
        Err(ParseError::UnexpectedClosingParen)
    } else {
        Ok((atom_spec(rd, tokens[0]), tokens.drop_first()))
    }
}

/// Reads the items of a list up to its closing parenthesis; gives them with
/// the tokens that follow the parenthesis. (An expression always takes at
/// least one token, see [`lemma_read_consumes`]; the test for it is there for
/// the recursion.)
pub open spec fn read_items(
    rd: spec_fn(Seq<char>) -> Option<u64>,
    tokens: Seq<Seq<char>>,
) -> Result<(Seq<ExprView>, Seq<Seq<char>>), ParseError>
    decreases tokens.len(), 1nat,
{
    if tokens.len() == 0 {
        Err(ParseError::MissingClosingParen)
    } else if tokens[0] == seq![')'] {
        Ok((Seq::empty(), tokens.drop_first()))
    } else {
        match read(rd, tokens) {
            Err(e) => Err(e),
            Ok((item, rest)) => if rest.len() < tokens.len() {
                match read_items(rd, rest) {
                    Err(e) => Err(e),
                    Ok((items, after)) => Ok((seq![item] + items, after)),
                }
            } else {
                Err(ParseError::MissingClosingParen)
            },
        }
    }
}

/// Reading an expression or the items of a list uses up at least one token.
pub proof fn lemma_read_consumes(rd: spec_fn(Seq<char>) -> Option<u64>, tokens: Seq<Seq<char>>)
    ensures
        read(rd, tokens) matches Ok((_, rest)) ==> rest.len() < tokens.len(),
        read_items(rd, tokens) matches Ok((_, rest)) ==> rest.len() < tokens.len(),
    decreases tokens.len(),
{
    if tokens.len() > 0 {
        lemma_read_consumes(rd, tokens.drop_first());
        if tokens[0] != seq![')'] {
            if let Ok((_, rest)) = read(rd, tokens) {
                if rest.len() < tokens.len() {
                    lemma_read_consumes(rd, rest);
                }
            }
        }
    }
}

/// The one expression that the text `s` holds.
pub open spec fn parse_spec(rd: spec_fn(Seq<char>) -> Option<u64>, s: Seq<char>) -> Result<
    ExprView,
    ParseError,
> {
    match read(rd, lex(s)) {
        Err(e) => Err(e),
        Ok((e, rest)) => if rest.len() == 0 {
            Ok(e)
        } else {
            Err(ParseError::TrailingTokens)
        },
    }
}

/// What a result of reading stands for.
pub open spec fn parsed_view(r: Result<Expr, ParseError>) -> Result<ExprView, ParseError> {
    match r {
        Ok(e) => Ok(e@),
        Err(e) => Err(e),
    }
}

/// The expression for one token that is not a parenthesis.
pub fn atom<R: Fn(&str) -> Option<u64>>(token: &str, read_number: &R) -> (r: Expr)
    requires
        reads_all(read_number),
    ensures
        forall|rd: spec_fn(Seq<char>) -> Option<u64>|
            reads(read_number, rd) ==> r@ == #[trigger] atom_spec(rd, token@),
{
    let chars = chars_of(token);
    let n = chars.len();
    if n >= 2 && chars[0] == '"' && chars[n - 1] == '"' {
        let mut inner = String::new();
        push_range(&mut inner, &chars, 1, n - 1);
        proof {
            assert(inner@ =~= token@.subrange(1, token@.len() - 1));
        }
        Expr::String(inner)
    } else if same_text(token, "true") {
        Expr::Bool(true)
    } else if same_text(token, "false") {
        Expr::Bool(false)
    } else {
        match read_number(token) {
            Some(bits) => Expr::Number(bits),
            None => Expr::Symbol(String::from_str(token)),
        }
    }
}

/// What a result of [`read_from_tokens`] stands for: on success the
/// expression and the tokens from the returned position on.
pub open spec fn read_view(r: Result<(Expr, usize), ParseError>, tokens: Seq<Seq<char>>) -> Result<
    (ExprView, Seq<Seq<char>>),
    ParseError,
> {
    match r {
        Ok((e, next)) => Ok((e@, tokens.skip(next as int))),
        Err(e) => Err(e),
    }
}

/// Puts `items` before the items of a result of [`read_items`].
pub open spec fn after_items(
    items: Seq<ExprView>,
    r: Result<(Seq<ExprView>, Seq<Seq<char>>), ParseError>,
) -> Result<(Seq<ExprView>, Seq<Seq<char>>), ParseError> {
    match r {
        Ok((more, rest)) => Ok((items + more, rest)),
        Err(e) => Err(e),
    }
}

/// Reads one expression from `tokens`, starting at `pos`; gives it with the
/// position after it.
pub fn read_from_tokens<R: Fn(&str) -> Option<u64>>(
    tokens: &Vec<String>,
    pos: usize,
    read_number: &R,
) -> (r: Result<(Expr, usize), ParseError>)
    requires
        pos <= tokens.len(),
        reads_all(read_number),
    ensures
        r matches Ok((_, next)) ==> pos < next <= tokens.len(),
        forall|rd: spec_fn(Seq<char>) -> Option<u64>|
            reads(read_number, rd) ==> read_view(r, strings_view(tokens@)) == #[trigger] read(
                rd,
                strings_view(tokens@).skip(pos as int),
            ),
    decreases tokens.len() - pos,
{
    let ghost all = strings_view(tokens@);
    let ghost here = all.skip(pos as int);
    if pos >= tokens.len() {
        return Err(ParseError::UnexpectedEof);
    }
    proof {
        reveal_strlit("(");
        reveal_strlit(")");
        assert("("@ =~= seq!['(']);
        assert(")"@ =~= seq![')']);
        assert(here[0] == tokens@[pos as int]@);
        assert(here.drop_first() =~= all.skip(pos + 1));
    }
    let token = tokens[pos].as_str();
    if same_text(token, "(") {
        let mut items: Vec<Expr> = Vec::new();
        let mut cur: usize = pos + 1;
        proof {
            assert forall|rd: spec_fn(Seq<char>) -> Option<u64>|
                after_items(exprs_view(items@), #[trigger] read_items(rd, all.skip(cur as int)))
                    == read_items(rd, all.skip(pos + 1)) by {
                let r = read_items(rd, all.skip(cur as int));
                if let Ok((more, rest)) = r {
                    assert(exprs_view(items@) + more =~= more);
                }
            }
        }
        while cur < tokens.len() && !same_text(tokens[cur].as_str(), ")")
            invariant
                pos < cur <= tokens.len(),
                all == strings_view(tokens@),
                here == all.skip(pos as int),
                here[0] == seq!['('],
                here.drop_first() == all.skip(pos + 1),
                reads_all(read_number),
                ")"@ == seq![')'],
                forall|rd: spec_fn(Seq<char>) -> Option<u64>|
                    reads(read_number, rd) ==> after_items(
                        exprs_view(items@),
                        #[trigger] read_items(rd, all.skip(cur as int)),
                    ) == read_items(rd, all.skip(pos + 1)),
            decreases tokens.len() - cur,
        {
            let ghost before = exprs_view(items@);
            let ghost tail = all.skip(cur as int);
            proof {
                assert(tail[0] == tokens@[cur as int]@);
            }
            match read_from_tokens(tokens, cur, read_number) {
                Err(e) => {
                    proof {
                        assert forall|rd: spec_fn(Seq<char>) -> Option<u64>|
                            reads(read_number, rd) implies read_view(Err(e), all)
                            == #[trigger] read(rd, here) by {
                            assert(read(rd, tail) == Err::<
                                (ExprView, Seq<Seq<char>>),
                                ParseError,
                            >(e));
                            assert(read_items(rd, tail) == Err::<
                                (Seq<ExprView>, Seq<Seq<char>>),
                                ParseError,
                            >(e));
                            assert(read_items(rd, all.skip(pos + 1)) == Err::<
                                (Seq<ExprView>, Seq<Seq<char>>),
                                ParseError,
                            >(e));
                        }
                    }
                    return Err(e);
                },
                Ok((item, next)) => {
                    items.push(item);
                    proof {
                        assert forall|rd: spec_fn(Seq<char>) -> Option<u64>|
                            reads(read_number, rd) implies after_items(
                            exprs_view(items@),
                            #[trigger] read_items(rd, all.skip(next as int)),
                        ) == read_items(rd, all.skip(pos + 1)) by {
                            assert(read(rd, tail) == Ok::<(ExprView, Seq<Seq<char>>), ParseError>(
                                (item@, all.skip(next as int)),
                            ));
                            let r = read_items(rd, all.skip(next as int));
                            assert(read_items(rd, tail) == after_items(seq![item@], r));
                            assert(exprs_view(items@) =~= before + seq![item@]);
                            if let Ok((more, rest)) = r {
                                assert(before + (seq![item@] + more) =~= exprs_view(items@) + more);
                            }
                        }
                    }
                    cur = next;
                },
            }
        }
        if cur >= tokens.len() {
            proof {
                assert forall|rd: spec_fn(Seq<char>) -> Option<u64>|
                    reads(read_number, rd) implies read_view(
                    Err(ParseError::MissingClosingParen),
                    all,
                ) == #[trigger] read(rd, here) by {
                    assert(all.skip(cur as int).len() == 0);
                    assert(read_items(rd, all.skip(cur as int)) == Err::<
                        (Seq<ExprView>, Seq<Seq<char>>),
                        ParseError,
                    >(ParseError::MissingClosingParen));
                }
            }
            return Err(ParseError::MissingClosingParen);
        }
        proof {
            Expr::lemma_list_view(items);
            assert forall|rd: spec_fn(Seq<char>) -> Option<u64>|
                reads(read_number, rd) implies read_view(
                Ok((Expr::List(items), (cur + 1) as usize)),
                all,
            ) == #[trigger] read(rd, here) by {
                let tail = all.skip(cur as int);
                assert(tail[0] == tokens@[cur as int]@);
                assert(tail.drop_first() =~= all.skip(cur + 1));
                assert(read_items(rd, tail) == Ok::<(Seq<ExprView>, Seq<Seq<char>>), ParseError>(
                    (Seq::empty(), all.skip(cur + 1)),
                ));
                assert(exprs_view(items@) + Seq::<ExprView>::empty() =~= exprs_view(items@));
            }
        }
        Ok((Expr::List(items), cur + 1))
    } else if same_text(token, ")") {
        Err(ParseError::UnexpectedClosingParen)
    } else {
        let e = atom(token, read_number);
        Ok((e, pos + 1))
    }
}

/// Reads `input` as one expression. `read_number` decides which tokens are
/// numbers and gives their bits.
pub fn parse<R: Fn(&str) -> Option<u64>>(input: &str, read_number: &R) -> (r: Result<
    Expr,
    ParseError,
>)
    requires
        reads_all(read_number),
    ensures
        forall|rd: spec_fn(Seq<char>) -> Option<u64>|
            reads(read_number, rd) ==> parsed_view(r) == #[trigger] parse_spec(rd, input@),
{
    let tokens = tokenize(input);
    proof {
        assert(strings_view(tokens@).skip(0) =~= strings_view(tokens@));
    }
    match read_from_tokens(&tokens, 0, read_number) {
        Err(e) => Err(e),
        Ok((e, next)) => {
            if next < tokens.len() {
                Err(ParseError::TrailingTokens)
            } else {
                Ok(e)
            }
        },
    }
}

} // verus!

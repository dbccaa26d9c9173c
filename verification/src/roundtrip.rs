//! The reader undoes the printer: an expression made of literals, once
//! printed, reads back as itself.
use crate::data::ExprView;
use crate::error::ParseError;
use crate::parser::{
    atom_spec, is_delimiter, lex, parse_spec, read, read_items, text_len, word_len,
};
use crate::printer::{render, render_items};
use crate::text::is_space;
use vstd::prelude::*;

verus! {

/// A bare token: not empty, not begun by a double quote, and free of
/// whitespace and parentheses.
pub open spec fn is_word(t: Seq<char>) -> bool {
    &&& t.len() > 0
    &&& t[0] != '"'
    &&& forall|i: int| 0 <= i < t.len() ==> !is_delimiter(#[trigger] t[i])
}

/// An expression made of literals whose text says what it is:
///
/// - a symbol whose name is a bare token that is not `true` or `false` and
///   that `rd` does not read as a number;
/// - a number whose text, as `sh` writes it, is a bare token other than
///   `true` and `false` that `rd` reads as the same number;
/// - a truth value;
/// - a string without a double quote in it;
/// - a list of such expressions.
pub open spec fn is_literal(
    rd: spec_fn(Seq<char>) -> Option<u64>,
    sh: spec_fn(u64) -> Seq<char>,
    e: ExprView,
) -> bool
    decreases e,
{
    match e {
        ExprView::Symbol(name) => is_word(name) && name != "true"@ && name != "false"@ && rd(name)
            is None,
        ExprView::Number(bits) => is_word(sh(bits)) && sh(bits) != "true"@ && sh(bits) != "false"@
            && rd(sh(bits)) == Some(bits),
        ExprView::Bool(_) => true,
        ExprView::String(s) => forall|i: int| 0 <= i < s.len() ==> #[trigger] s[i] != '"',
        ExprView::List(items) => forall|i: int|
            0 <= i < items.len() ==> is_literal(rd, sh, #[trigger] items[i]),
        ExprView::Func { .. } => false,
    }
}

/// The tokens of the text of `e`.
pub open spec fn tokens_of(sh: spec_fn(u64) -> Seq<char>, e: ExprView) -> Seq<Seq<char>>
    decreases e,
{
    match e {
        ExprView::List(items) => seq![seq!['(']] + tokens_of_items(sh, items) + seq![seq![')']],
        _ => seq![render(sh, e)],
    }
}

/// The tokens of the texts of `items`, one expression after the other.
pub open spec fn tokens_of_items(sh: spec_fn(u64) -> Seq<char>, items: Seq<ExprView>) -> Seq<
    Seq<char>,
>
    decreases items,
{
    if items.len() == 0 {
        Seq::empty()
    } else {
        tokens_of(sh, items[0]) + tokens_of_items(sh, items.drop_first())
    }
}

proof fn lemma_word_len_prefix(w: Seq<char>, tail: Seq<char>)
    requires
        forall|i: int| 0 <= i < w.len() ==> !is_delimiter(#[trigger] w[i]),
        tail.len() == 0 || is_delimiter(tail[0]),
    ensures
        word_len(w + tail) == w.len(),
    decreases w.len(),
{
    let s = w + tail;
    if w.len() == 0 {
        assert(s =~= tail);
    } else {
        assert(s[0] == w[0]);
        assert(s.drop_first() =~= w.drop_first() + tail);
        assert forall|i: int| 0 <= i < w.drop_first().len() implies !is_delimiter(
            #[trigger] w.drop_first()[i],
        ) by {
            assert(w.drop_first()[i] == w[i + 1]);
        }
        lemma_word_len_prefix(w.drop_first(), tail);
    }
}

proof fn lemma_text_len_prefix(s: Seq<char>, tail: Seq<char>)
    requires
        forall|i: int| 0 <= i < s.len() ==> #[trigger] s[i] != '"',
    ensures
        text_len(s + seq!['"'] + tail) == s.len(),
    decreases s.len(),
{
    let all = s + seq!['"'] + tail;
    if s.len() == 0 {
        assert(all[0] == '"');
    } else {
        assert(all[0] == s[0]);
        assert(all.drop_first() =~= s.drop_first() + seq!['"'] + tail);
        assert forall|i: int| 0 <= i < s.drop_first().len() implies #[trigger] s.drop_first()[i]
            != '"' by {
            assert(s.drop_first()[i] == s[i + 1]);
        }
        lemma_text_len_prefix(s.drop_first(), tail);
    }
}

/// A bare token before a delimiter or the end is one token.
proof fn lemma_lex_word(w: Seq<char>, tail: Seq<char>)
    requires
        is_word(w),
        tail.len() == 0 || is_delimiter(tail[0]),
    ensures
        lex(w + tail) == seq![w] + lex(tail),
{
    let s = w + tail;
    assert(s[0] == w[0]);
    assert(!is_delimiter(w[0]));
    lemma_word_len_prefix(w, tail);
    assert(s.take(w.len() as int) =~= w);
    assert(s.skip(w.len() as int) =~= tail);
}

/// A quoted string without inner quotes is one token, whatever follows.
proof fn lemma_lex_string(s: Seq<char>, tail: Seq<char>)
    requires
        forall|i: int| 0 <= i < s.len() ==> #[trigger] s[i] != '"',
    ensures
        lex(seq!['"'] + s + seq!['"'] + tail) == seq![seq!['"'] + s + seq!['"']] + lex(tail),
{
    let all = seq!['"'] + s + seq!['"'] + tail;
    let body = all.drop_first();
    assert(all[0] == '"');
    assert(body =~= s + seq!['"'] + tail);
    lemma_text_len_prefix(s, tail);
    let n = s.len() as int;
    assert(body.take(n) =~= s);
    assert(body.skip(n + 1) =~= tail);
}

proof fn lemma_lex_paren(c: char, tail: Seq<char>)
    requires
        c == '(' || c == ')',
    ensures
        lex(seq![c] + tail) == seq![seq![c]] + lex(tail),
{
    let s = seq![c] + tail;
    assert(s[0] == c);
    assert(s.drop_first() =~= tail);
}

proof fn lemma_lex_space(tail: Seq<char>)
    ensures
        lex(seq![' '] + tail) == lex(tail),
{
    let s = seq![' '] + tail;
    assert(s[0] == ' ');
    assert(s.drop_first() =~= tail);
}

proof fn lemma_truth_words()
    ensures
        is_word("true"@),
        is_word("false"@),
{
    reveal_strlit("true");
    reveal_strlit("false");
}

/// The text of a literal, before a delimiter or the end, splits into its
/// tokens.
proof fn lemma_lex_expr(
    rd: spec_fn(Seq<char>) -> Option<u64>,
    sh: spec_fn(u64) -> Seq<char>,
    e: ExprView,
    tail: Seq<char>,
)
    requires
        is_literal(rd, sh, e),
        tail.len() == 0 || is_delimiter(tail[0]),
    ensures
        lex(render(sh, e) + tail) == tokens_of(sh, e) + lex(tail),
    decreases e, 0nat,
{
    match e {
        ExprView::Symbol(name) => {
            lemma_lex_word(name, tail);
        },
        ExprView::Number(bits) => {
            lemma_lex_word(sh(bits), tail);
        },
        ExprView::Bool(b) => {
            lemma_truth_words();
            lemma_lex_word(render(sh, e), tail);
        },
        ExprView::String(s) => {
            lemma_lex_string(s, tail);
        },
        ExprView::List(items) => {
            let inner = render_items(sh, items);
            assert(render(sh, e) + tail =~= seq!['('] + (inner + seq![')'] + tail));
            lemma_lex_paren('(', inner + seq![')'] + tail);
            lemma_lex_items(rd, sh, items, tail);
            assert(seq![seq!['(']] + (tokens_of_items(sh, items) + seq![seq![')']] + lex(tail))
                =~= tokens_of(sh, e) + lex(tail));
        },
        ExprView::Func { .. } => {},
    }
}

/// The texts of the items of a list, with the parenthesis that closes it,
/// split into the items' tokens and the parenthesis.
proof fn lemma_lex_items(
    rd: spec_fn(Seq<char>) -> Option<u64>,
    sh: spec_fn(u64) -> Seq<char>,
    items: Seq<ExprView>,
    tail: Seq<char>,
)
    requires
        forall|i: int| 0 <= i < items.len() ==> is_literal(rd, sh, #[trigger] items[i]),
    ensures
        lex(render_items(sh, items) + seq![')'] + tail) == tokens_of_items(sh, items) + seq![
            seq![')'],
        ] + lex(tail),
    decreases items, 1nat,
{
    let close = seq![')'] + tail;
    if items.len() == 0 {
        assert(render_items(sh, items) + seq![')'] + tail =~= close);
        lemma_lex_paren(')', tail);
        assert(tokens_of_items(sh, items) + seq![seq![')']] + lex(tail) =~= seq![seq![')']] + lex(
            tail,
        ));
    } else {
        let first = render(sh, items[0]);
        let rest = items.drop_first();
        assert forall|i: int| 0 <= i < rest.len() implies is_literal(
            rd,
            sh,
            #[trigger] rest[i],
        ) by {
            assert(rest[i] == items[i + 1]);
        }
        if items.len() == 1 {
            assert(render_items(sh, items) + seq![')'] + tail =~= first + close);
            assert(close[0] == ')');
            lemma_lex_expr(rd, sh, items[0], close);
            lemma_lex_paren(')', tail);
            assert(tokens_of_items(sh, rest) =~= Seq::<Seq<char>>::empty());
            assert(tokens_of(sh, items[0]) + (seq![seq![')']] + lex(tail)) =~= tokens_of_items(
                sh,
                items,
            ) + seq![seq![')']] + lex(tail));
        } else {
            let more = render_items(sh, rest) + seq![')'] + tail;
            assert(render_items(sh, items) + seq![')'] + tail =~= first + (seq![' '] + more));
            assert((seq![' '] + more)[0] == ' ');
            lemma_lex_expr(rd, sh, items[0], seq![' '] + more);
            lemma_lex_space(more);
            lemma_lex_items(rd, sh, rest, tail);
            assert(tokens_of(sh, items[0]) + (tokens_of_items(sh, rest) + seq![seq![')']] + lex(
                tail,
            )) =~= tokens_of_items(sh, items) + seq![seq![')']] + lex(tail));
        }
    }
}

/// The token of a literal that is not a list stands for the literal, and is
/// no parenthesis.
proof fn lemma_atom_of_literal(
    rd: spec_fn(Seq<char>) -> Option<u64>,
    sh: spec_fn(u64) -> Seq<char>,
    e: ExprView,
)
    requires
        is_literal(rd, sh, e),
        !(e is List),
    ensures
        atom_spec(rd, render(sh, e)) == e,
        render(sh, e) != seq!['('],
        render(sh, e) != seq![')'],
{
    let t = render(sh, e);
    match e {
        ExprView::Symbol(name) => {
            assert(!is_delimiter(t[0]));
        },
        ExprView::Number(bits) => {
            assert(!is_delimiter(t[0]));
        },
        ExprView::Bool(b) => {
            lemma_truth_words();
            reveal_strlit("true");
            reveal_strlit("false");
            assert(!is_delimiter(t[0]));
        },
        ExprView::String(s) => {
            assert(t[0] == '"');
            assert(t.last() == '"');
            assert(t.subrange(1, t.len() - 1) =~= s);
        },
        _ => {},
    }
}

/// The tokens of a literal begin with a token that does not close a list.
proof fn lemma_tokens_begin(
    rd: spec_fn(Seq<char>) -> Option<u64>,
    sh: spec_fn(u64) -> Seq<char>,
    e: ExprView,
)
    requires
        is_literal(rd, sh, e),
    ensures
        tokens_of(sh, e).len() > 0,
        tokens_of(sh, e)[0] != seq![')'],
{
    if e is List {
        assert(tokens_of(sh, e)[0] == seq!['(']);
        assert(seq!['('][0] != seq![')'][0]);
    } else {
        lemma_atom_of_literal(rd, sh, e);
    }
}

/// The tokens of a literal, whatever follows them, read as the literal.
proof fn lemma_read_expr(
    rd: spec_fn(Seq<char>) -> Option<u64>,
    sh: spec_fn(u64) -> Seq<char>,
    e: ExprView,
    rest: Seq<Seq<char>>,
)
    requires
        is_literal(rd, sh, e),
    ensures
        read(rd, tokens_of(sh, e) + rest) == Ok::<(ExprView, Seq<Seq<char>>), ParseError>(
            (e, rest),
        ),
    decreases e, 0nat,
{
    let tokens = tokens_of(sh, e) + rest;
    match e {
        ExprView::List(items) => {
            assert(tokens[0] == seq!['(']);
            assert(tokens.drop_first() =~= tokens_of_items(sh, items) + seq![seq![')']] + rest);
            lemma_read_items(rd, sh, items, rest);
        },
        _ => {
            lemma_atom_of_literal(rd, sh, e);
            assert(tokens[0] == render(sh, e));
            assert(tokens.drop_first() =~= rest);
        },
    }
}

/// The tokens of the items of a list and of the parenthesis that closes it,
/// whatever follows them, read as the items.
proof fn lemma_read_items(
    rd: spec_fn(Seq<char>) -> Option<u64>,
    sh: spec_fn(u64) -> Seq<char>,
    items: Seq<ExprView>,
    rest: Seq<Seq<char>>,
)
    requires
        forall|i: int| 0 <= i < items.len() ==> is_literal(rd, sh, #[trigger] items[i]),
    ensures
        read_items(rd, tokens_of_items(sh, items) + seq![seq![')']] + rest) == Ok::<
            (Seq<ExprView>, Seq<Seq<char>>),
            ParseError,
        >((items, rest)),
    decreases items, 1nat,
{
    let tokens = tokens_of_items(sh, items) + seq![seq![')']] + rest;
    if items.len() == 0 {
        assert(tokens[0] == seq![')']);
        assert(tokens.drop_first() =~= rest);
        assert(items =~= Seq::<ExprView>::empty());
    } else {
        let others = items.drop_first();
        assert forall|i: int| 0 <= i < others.len() implies is_literal(
            rd,
            sh,
            #[trigger] others[i],
        ) by {
            assert(others[i] == items[i + 1]);
        }
        let after = tokens_of_items(sh, others) + seq![seq![')']] + rest;
        assert(tokens =~= tokens_of(sh, items[0]) + after);
        lemma_tokens_begin(rd, sh, items[0]);
        assert(tokens[0] == tokens_of(sh, items[0])[0]);
        lemma_read_expr(rd, sh, items[0], after);
        lemma_read_items(rd, sh, others, rest);
        assert(after.len() < tokens.len());
        assert(seq![items[0]] + others =~= items);
    }
}

/// A literal, printed and read again, is the same literal: its text holds
/// exactly one expression, and that expression is the literal itself, with
/// every string, number and symbol as it was and every list in its shape.
pub proof fn lemma_print_then_parse(
    rd: spec_fn(Seq<char>) -> Option<u64>,
    sh: spec_fn(u64) -> Seq<char>,
    e: ExprView,
)
    requires
        is_literal(rd, sh, e),
    ensures
        parse_spec(rd, render(sh, e)) == Ok::<ExprView, ParseError>(e),
{
    let text = render(sh, e);
    let none = Seq::<char>::empty();
    assert(text + none =~= text);
    lemma_lex_expr(rd, sh, e, none);
    assert(lex(none) =~= Seq::<Seq<char>>::empty());
    assert(tokens_of(sh, e) + Seq::<Seq<char>>::empty() =~= tokens_of(sh, e));
    lemma_read_expr(rd, sh, e, Seq::empty());
}

/// A string token: what stands between two double quotes, with no double
/// quote in it.
pub open spec fn is_quoted(t: Seq<char>) -> bool {
    &&& t.len() >= 2
    &&& t[0] == '"'
    &&& t.last() == '"'
    &&& forall|i: int| 1 <= i < t.len() - 1 ==> #[trigger] t[i] != '"'
}

/// What the tokenizer gives: a parenthesis, a string token or a bare token.
pub open spec fn is_token(t: Seq<char>) -> bool {
    t == seq!['('] || t == seq![')'] || is_quoted(t) || is_word(t)
}

/// Every number in `e`, as `sh` writes it, is a bare token other than `true`
/// and `false` that `rd` reads as the same number.
pub open spec fn numbers_read_back(
    rd: spec_fn(Seq<char>) -> Option<u64>,
    sh: spec_fn(u64) -> Seq<char>,
    e: ExprView,
) -> bool
    decreases e,
{
    match e {
        ExprView::Number(bits) => is_word(sh(bits)) && sh(bits) != "true"@ && sh(bits) != "false"@
            && rd(sh(bits)) == Some(bits),
        ExprView::List(items) => forall|i: int|
            0 <= i < items.len() ==> numbers_read_back(rd, sh, #[trigger] items[i]),
        _ => true,
    }
}

proof fn lemma_word_len_chars(s: Seq<char>)
    ensures
        word_len(s) <= s.len(),
        forall|i: int| 0 <= i < word_len(s) ==> !is_delimiter(#[trigger] s[i]),
    decreases s.len(),
{
    if s.len() > 0 && !is_delimiter(s[0]) {
        lemma_word_len_chars(s.drop_first());
        assert forall|i: int| 0 <= i < word_len(s) implies !is_delimiter(#[trigger] s[i]) by {
            if i > 0 {
                assert(s[i] == s.drop_first()[i - 1]);
            }
        }
    }
}

proof fn lemma_text_len_chars(s: Seq<char>)
    ensures
        text_len(s) <= s.len(),
        forall|i: int| 0 <= i < text_len(s) ==> #[trigger] s[i] != '"',
    decreases s.len(),
{
    if s.len() > 0 && s[0] != '"' {
        lemma_text_len_chars(s.drop_first());
        assert forall|i: int| 0 <= i < text_len(s) implies #[trigger] s[i] != '"' by {
            if i > 0 {
                assert(s[i] == s.drop_first()[i - 1]);
            }
        }
    }
}

/// Every token of a text is a parenthesis, a string token or a bare token.
pub proof fn lemma_lex_gives_tokens(s: Seq<char>)
    ensures
        forall|i: int| 0 <= i < lex(s).len() ==> is_token(#[trigger] lex(s)[i]),
    decreases s.len(),
{
    if s.len() == 0 {
    } else if s[0] == '(' || s[0] == ')' {
        lemma_lex_gives_tokens(s.drop_first());
        lemma_tokens_after(seq![s[0]], lex(s.drop_first()));
    } else if s[0] == '"' {
        let body = s.drop_first();
        let n = text_len(body) as int;
        let used = if n < body.len() {
            n + 1
        } else {
            n
        };
        lemma_text_len_chars(body);
        lemma_lex_gives_tokens(body.skip(used));
        let token = seq!['"'] + body.take(n) + seq!['"'];
        assert(is_quoted(token)) by {
            assert forall|i: int| 1 <= i < token.len() - 1 implies #[trigger] token[i] != '"' by {
                assert(token[i] == body[i - 1]);
            }
        }
        lemma_tokens_after(token, lex(body.skip(used)));
    } else if is_space(s[0]) {
        lemma_lex_gives_tokens(s.drop_first());
    } else {
        let n = word_len(s) as int;
        lemma_word_len_chars(s);
        lemma_lex_gives_tokens(s.skip(n));
        assert(is_word(s.take(n)));
        lemma_tokens_after(s.take(n), lex(s.skip(n)));
    }
}

proof fn lemma_tokens_after(first: Seq<char>, others: Seq<Seq<char>>)
    requires
        is_token(first),
        forall|i: int| 0 <= i < others.len() ==> is_token(#[trigger] others[i]),
    ensures
        forall|i: int|
            0 <= i < (seq![first] + others).len() ==> is_token(
                #[trigger] (seq![first] + others)[i],
            ),
{
    let all = seq![first] + others;
    assert forall|i: int| 0 <= i < all.len() implies is_token(#[trigger] all[i]) by {
        if i > 0 {
            assert(all[i] == others[i - 1]);
        }
    }
}

/// A string token or a bare token stands for a literal, provided that, when
/// it is a number, the number reads back.
proof fn lemma_atom_is_literal(
    rd: spec_fn(Seq<char>) -> Option<u64>,
    sh: spec_fn(u64) -> Seq<char>,
    t: Seq<char>,
)
    requires
        is_quoted(t) || is_word(t),
        numbers_read_back(rd, sh, atom_spec(rd, t)),
    ensures
        is_literal(rd, sh, atom_spec(rd, t)),
{
    if t.len() >= 2 && t[0] == '"' && t.last() == '"' {
        let inner = t.subrange(1, t.len() - 1);
        assert forall|i: int| 0 <= i < inner.len() implies #[trigger] inner[i] != '"' by {
            assert(inner[i] == t[i + 1]);
        }
    }
}

/// What is read from tokens is a literal, provided that its numbers read
/// back; and what is left is still tokens.
proof fn lemma_read_gives_literal(
    rd: spec_fn(Seq<char>) -> Option<u64>,
    sh: spec_fn(u64) -> Seq<char>,
    tokens: Seq<Seq<char>>,
)
    requires
        forall|i: int| 0 <= i < tokens.len() ==> is_token(#[trigger] tokens[i]),
    ensures
        read(rd, tokens) matches Ok((e, rest)) ==> {
            &&& numbers_read_back(rd, sh, e) ==> is_literal(rd, sh, e)
            &&& forall|i: int| 0 <= i < rest.len() ==> is_token(#[trigger] rest[i])
        },
    decreases tokens.len(), 0nat,
{
    if tokens.len() > 0 {
        let others = tokens.drop_first();
        assert forall|i: int| 0 <= i < others.len() implies is_token(#[trigger] others[i]) by {
            assert(others[i] == tokens[i + 1]);
        }
        if tokens[0] == seq!['('] {
            lemma_read_items_gives_literals(rd, sh, others);
        } else if tokens[0] == seq![')'] {
        } else {
            assert(is_token(tokens[0]));
            if numbers_read_back(rd, sh, atom_spec(rd, tokens[0])) {
                lemma_atom_is_literal(rd, sh, tokens[0]);
            }
        }
    }
}

proof fn lemma_read_items_gives_literals(
    rd: spec_fn(Seq<char>) -> Option<u64>,
    sh: spec_fn(u64) -> Seq<char>,
    tokens: Seq<Seq<char>>,
)
    requires
        forall|i: int| 0 <= i < tokens.len() ==> is_token(#[trigger] tokens[i]),
    ensures
        read_items(rd, tokens) matches Ok((items, rest)) ==> {
            &&& forall|i: int|
                0 <= i < items.len() && numbers_read_back(rd, sh, #[trigger] items[i])
                    ==> is_literal(rd, sh, items[i])
            &&& forall|i: int| 0 <= i < rest.len() ==> is_token(#[trigger] rest[i])
        },
    decreases tokens.len(), 1nat,
{
    if tokens.len() > 0 {
        if tokens[0] == seq![')'] {
            let others = tokens.drop_first();
            assert forall|i: int| 0 <= i < others.len() implies is_token(#[trigger] others[i]) by {
                assert(others[i] == tokens[i + 1]);
            }
        } else {
            lemma_read_gives_literal(rd, sh, tokens);
            if let Ok((item, rest)) = read(rd, tokens) {
                if rest.len() < tokens.len() {
                    lemma_read_items_gives_literals(rd, sh, rest);
                    if let Ok((more, after)) = read_items(rd, rest) {
                        let items = seq![item] + more;
                        assert forall|i: int|
                            0 <= i < items.len() && numbers_read_back(
                                rd,
                                sh,
                                #[trigger] items[i],
                            ) implies is_literal(rd, sh, items[i]) by {
                            if i > 0 {
                                assert(items[i] == more[i - 1]);
                            }
                        }
                    }
                }
            }
        }
    }
}

/// What is read from a text, printed and read again, is the same again,
/// provided that its numbers read back as `sh` writes them.
pub proof fn lemma_parse_then_print(
    rd: spec_fn(Seq<char>) -> Option<u64>,
    sh: spec_fn(u64) -> Seq<char>,
    text: Seq<char>,
    e: ExprView,
)
    requires
        parse_spec(rd, text) == Ok::<ExprView, ParseError>(e),
        numbers_read_back(rd, sh, e),
    ensures
        is_literal(rd, sh, e),
        parse_spec(rd, render(sh, e)) == Ok::<ExprView, ParseError>(e),
{
    lemma_lex_gives_tokens(text);
    lemma_read_gives_literal(rd, sh, lex(text));
    lemma_print_then_parse(rd, sh, e);
}

} // verus!

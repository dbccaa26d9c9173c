//! The textual form of expressions.
use crate::data::{Expr, ExprView, exprs_view};
use vstd::prelude::*;

verus! {

/// `show` writes numbers as `sh` says: whatever it returns for a number is
/// the text `sh` of it.
pub open spec fn shows<S: Fn(u64) -> String>(show: &S, sh: spec_fn(u64) -> Seq<char>) -> bool {
    forall|bits: u64, r: String| #[trigger] call_ensures(show, (bits,), r) ==> r@ == sh(bits)
}

/// `show` can be called on every number.
pub open spec fn shows_all<S: Fn(u64) -> String>(show: &S) -> bool {
    forall|bits: u64| #[trigger] call_requires(show, (bits,))
}

/// The text of `e`, with numbers written by `sh`: a symbol is its name, a
/// truth value `true` or `false`, a string its characters between double
/// quotes, a list its items between parentheses with one space between
/// neighbours, and a procedure the placeholder `<function>`.
pub open spec fn render(sh: spec_fn(u64) -> Seq<char>, e: ExprView) -> Seq<char>
    decreases e,
{
    match e {
        ExprView::Symbol(name) => name,
        ExprView::Number(bits) => sh(bits),
        ExprView::Bool(b) => if b {
            "true"@
        } else {
            "false"@
        },
        ExprView::String(s) => seq!['"'] + s + seq!['"'],
        ExprView::List(items) => seq!['('] + render_items(sh, items) + seq![')'],
        ExprView::Func { .. } => "<function>"@,
    }
}

/// The texts of `items`, with one space between neighbours.
pub open spec fn render_items(sh: spec_fn(u64) -> Seq<char>, items: Seq<ExprView>) -> Seq<char>
    decreases items,
{
    if items.len() == 0 {
        Seq::empty()
    } else if items.len() == 1 {
        render(sh, items[0])
    } else {
        render(sh, items[0]) + seq![' '] + render_items(sh, items.drop_first())
    }
}

/// What is still to be written of a list when its first `i` items are out.
pub open spec fn render_rest(sh: spec_fn(u64) -> Seq<char>, items: Seq<ExprView>, i: int) -> Seq<
    char,
> {
    if 0 < i < items.len() {
        seq![' '] + render_items(sh, items.skip(i))
    } else {
        render_items(sh, items.skip(i))
    }
}

proof fn lemma_render_rest_step(sh: spec_fn(u64) -> Seq<char>, items: Seq<ExprView>, i: int)
    requires
        0 <= i < items.len(),
    ensures
        render_rest(sh, items, i) == (if i > 0 {
            seq![' ']
        } else {
            Seq::<char>::empty()
        }) + render(sh, items[i]) + render_rest(sh, items, i + 1),
{
    let tail = items.skip(i);
    assert(tail[0] == items[i]);
    assert(tail.drop_first() =~= items.skip(i + 1));
    if i + 1 == items.len() {
        assert(render_items(sh, items.skip(i + 1)) =~= Seq::<char>::empty());
        assert(render_rest(sh, items, i) =~= (if i > 0 {
            seq![' ']
        } else {
            Seq::<char>::empty()
        }) + render(sh, items[i]) + render_rest(sh, items, i + 1));
    } else {
        assert(render_rest(sh, items, i) =~= (if i > 0 {
            seq![' ']
        } else {
            Seq::<char>::empty()
        }) + render(sh, items[i]) + render_rest(sh, items, i + 1));
    }
}

impl Expr {
    /// Appends the text of this expression to `out`.
    pub fn write<S: Fn(u64) -> String>(&self, out: &mut String, show: &S)
        requires
            shows_all(show),
        ensures
            forall|sh: spec_fn(u64) -> Seq<char>|
                shows(show, sh) ==> final(out)@ == old(out)@ + #[trigger] render(sh, self@),
        decreases self,
    {
        match self {
            Expr::Symbol(name) => {
                out.append(name.as_str());
            },
            Expr::Number(bits) => {
                let text = show(*bits);
                out.append(text.as_str());
            },
            Expr::Bool(b) => {
                if *b {
                    out.append("true");
                } else {
                    out.append("false");
                }
            },
            Expr::String(s) => {
                out.push('"');
                out.append(s.as_str());
                out.push('"');
                proof {
                    assert(old(out)@.push('"') + s@ =~= old(out)@ + (seq!['"'] + s@));
                    assert((old(out)@.push('"') + s@).push('"') =~= old(out)@ + (seq!['"'] + s@
                        + seq!['"']));
                }
            },
            Expr::List(items) => {
                out.push('(');
                let mut i: usize = 0;
                proof {
                    Expr::lemma_list_view(*items);
                    assert(exprs_view(items@).skip(0) =~= exprs_view(items@));
                }
                while i < items.len()
                    invariant
                        i <= items.len(),
                        *self == Expr::List(*items),
                        shows_all(show),
                        forall|sh: spec_fn(u64) -> Seq<char>|
                            shows(show, sh) ==> out@ + #[trigger] render_rest(
                                sh,
                                exprs_view(items@),
                                i as int,
                            ) == old(out)@ + seq!['('] + render_items(sh, exprs_view(items@)),
                    decreases items.len() - i,
                {
                    let ghost before = out@;
                    if i > 0 {
                        out.push(' ');
                    }
                    let ghost middle = out@;
                    proof {
                        assert(self->List_0 == *items);
                        assert(decreases_to!(*self => self->List_0));
                        assert(decreases_to!(*items => items[i as int]));
                    }
                    items[i].write(out, show);
                    proof {
                        assert forall|sh: spec_fn(u64) -> Seq<char>| shows(show, sh) implies out@
                            + #[trigger] render_rest(sh, exprs_view(items@), i + 1) == old(out)@
                            + seq!['('] + render_items(sh, exprs_view(items@)) by {
                            lemma_render_rest_step(sh, exprs_view(items@), i as int);
                            let sep = if i > 0 {
                                seq![' ']
                            } else {
                                Seq::<char>::empty()
                            };
                            let item = render(sh, items@[i as int]@);
                            let rest = render_rest(sh, exprs_view(items@), i + 1);
                            assert(middle =~= before + sep);
                            assert(out@ == middle + item);
                            assert(render_rest(sh, exprs_view(items@), i as int) == sep + item
                                + rest);
                            assert(out@ + rest =~= before + (sep + item + rest));
                        }
                    }
                    i += 1;
                }
                out.push(')');
                proof {
                    assert forall|sh: spec_fn(u64) -> Seq<char>| shows(show, sh) implies out@
                        == old(out)@ + #[trigger] render(sh, self@) by {
                        let all = exprs_view(items@);
                        assert(all.skip(all.len() as int) =~= Seq::<ExprView>::empty());
                        assert(render_rest(sh, all, all.len() as int) =~= Seq::<char>::empty());
                        let body = render_items(sh, all);
                        assert(out@ =~= (old(out)@ + seq!['('] + body).push(')'));
                        assert(out@ =~= old(out)@ + (seq!['('] + body + seq![')']));
                    }
                }
            },
            Expr::Func { .. } => {
                out.append("<function>");
            },
        }
    }

    /// The text of this expression.
    pub fn to_string<S: Fn(u64) -> String>(&self, show: &S) -> (r: String)
        requires
            shows_all(show),
        ensures
            forall|sh: spec_fn(u64) -> Seq<char>|
                shows(show, sh) ==> r@ == #[trigger] render(sh, self@),
    {
        let mut out = String::new();
        self.write(&mut out, show);
        proof {
            assert forall|sh: spec_fn(u64) -> Seq<char>| shows(show, sh) implies out@
                == #[trigger] render(sh, self@) by {
                assert(Seq::<char>::empty() + render(sh, self@) =~= render(sh, self@));
            }
        }
        out
    }
}

} // verus!

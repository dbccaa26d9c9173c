//! Expressions, which are both the syntax and the values of the language.
use vstd::prelude::*;

verus! {

/// An expression.
#[derive(Debug, PartialEq)]
pub enum Expr {
    /// An identifier, looked up in the environment when evaluated.
    Symbol(String),
    /// A double-precision number, held as its 64 bits.
    Number(u64),
    /// A truth value.
    Bool(bool),
    /// A string literal.
    String(String),
    /// A list: a call, a special form, or (when empty) the empty value.
    List(Vec<Expr>),
    /// A procedure: parameter names and one body expression.
    Func { params: Vec<String>, body: Box<Expr> },
}

/// The mathematical value of an [`Expr`].
pub ghost enum ExprView {
    Symbol(Seq<char>),
    Number(u64),
    Bool(bool),
    String(Seq<char>),
    List(Seq<ExprView>),
    Func { params: Seq<Seq<char>>, body: Box<ExprView> },
}

/// What a sequence of strings stands for: the characters of each.
pub open spec fn strings_view(texts: Seq<String>) -> Seq<Seq<char>> {
    Seq::new(texts.len(), |i: int| texts[i]@)
}

/// What a sequence of expressions stands for: the value of each.
pub open spec fn exprs_view(items: Seq<Expr>) -> Seq<ExprView> {
    Seq::new(items.len(), |i: int| items[i]@)
}

impl Expr {
    /// The value that this expression stands for. (An index into the items
    /// of a list is always in range; the test for it is there for the
    /// recursion.)
    pub open spec fn model(self) -> ExprView
        decreases self,
    {
        match self {
            Expr::Symbol(s) => ExprView::Symbol(s@),
            Expr::Number(n) => ExprView::Number(n),
            Expr::Bool(b) => ExprView::Bool(b),
            Expr::String(s) => ExprView::String(s@),
            Expr::List(items) => ExprView::List(
                Seq::new(
                    items@.len(),
                    |i: int|
                        if 0 <= i < items@.len() {
                            items@[i].model()
                        } else {
                            arbitrary()
                        },
                ),
            ),
            Expr::Func { params, body } => ExprView::Func {
                params: strings_view(params@),
                body: Box::new((*body).model()),
            },
        }
    }

    /// A list expression stands for the list of what its items stand for.
    pub proof fn lemma_list_view(items: Vec<Expr>)
        ensures
            Expr::List(items)@ == ExprView::List(exprs_view(items@)),
    {
        assert(Expr::List(items).model()->List_0 =~= exprs_view(items@));
    }
}

impl View for Expr {
    type V = ExprView;

    open spec fn view(&self) -> ExprView {
        self.model()
    }
}

/// A copy of `names`.
pub fn clone_names(names: &Vec<String>) -> (r: Vec<String>)
    ensures
        strings_view(r@) == strings_view(names@),
{
    let mut out: Vec<String> = Vec::new();
    let mut i: usize = 0;
    while i < names.len()
        invariant
            i <= names.len(),
            out.len() == i,
            forall|j: int| 0 <= j < i ==> out@[j]@ == names@[j]@,
        decreases names.len() - i,
    {
        out.push(names[i].clone());
        i += 1;
    }
    proof {
        assert(strings_view(out@) =~= strings_view(names@));
    }
    out
}

impl Clone for Expr {
    /// A copy that stands for the same value.
    fn clone(&self) -> (r: Expr)
        ensures
            r@ == self@,
        decreases self,
    {
        match self {
            Expr::Symbol(s) => Expr::Symbol(s.clone()),
            Expr::Number(n) => Expr::Number(*n),
            Expr::Bool(b) => Expr::Bool(*b),
            Expr::String(s) => Expr::String(s.clone()),
            Expr::List(items) => {
                let mut out: Vec<Expr> = Vec::new();
                let mut i: usize = 0;
                while i < items.len()
                    invariant
                        i <= items.len(),
                        out.len() == i,
                        *self == Expr::List(*items),
                        forall|j: int| 0 <= j < i ==> out@[j]@ == items@[j]@,
                    decreases items.len() - i,
                {
                    proof {
                        assert(self->List_0 == *items);
                        assert(decreases_to!(*self => self->List_0));
                        assert(decreases_to!(*items => items[i as int]));
                    }
                    out.push(items[i].clone());
                    i += 1;
                }
                proof {
                    Expr::lemma_list_view(out);
                    Expr::lemma_list_view(*items);
                    assert(exprs_view(out@) =~= exprs_view(items@));
                }
                Expr::List(out)
            },
            Expr::Func { params, body } => Expr::Func {
                params: clone_names(params),
                body: Box::new((**body).clone()),
            },
        }
    }
}

} // verus!

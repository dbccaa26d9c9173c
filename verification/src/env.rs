//! The environment: the bindings from names to values.
use crate::data::{Expr, ExprView};
use crate::text::same_text;
use vstd::prelude::*;

verus! {

/// A mapping from names to values. A name has at most one value; binding it
/// again replaces the value.
#[derive(Debug)]
pub struct Env {
    bindings: Vec<(String, Expr)>,
}

/// No name occurs twice among `bindings`.
spec fn distinct_names(bindings: Seq<(String, Expr)>) -> bool {
    forall|i: int, j: int|
        0 <= i < j < bindings.len() ==> (#[trigger] bindings[i]).0@ != (#[trigger] bindings[j]).0@
}

/// The mapping that a list of bindings stands for.
spec fn bindings_map(bindings: Seq<(String, Expr)>) -> Map<Seq<char>, ExprView>
    decreases bindings.len(),
{
    if bindings.len() == 0 {
        Map::empty()
    } else {
        bindings_map(bindings.drop_last()).insert(bindings.last().0@, bindings.last().1@)
    }
}

proof fn lemma_bindings_map_absent(bindings: Seq<(String, Expr)>, name: Seq<char>)
    requires
        forall|j: int| 0 <= j < bindings.len() ==> bindings[j].0@ != name,
    ensures
        !bindings_map(bindings).contains_key(name),
    decreases bindings.len(),
{
    if bindings.len() > 0 {
        lemma_bindings_map_absent(bindings.drop_last(), name);
    }
}

proof fn lemma_bindings_map_at(bindings: Seq<(String, Expr)>, i: int)
    requires
        distinct_names(bindings),
        0 <= i < bindings.len(),
    ensures
        bindings_map(bindings).contains_key(bindings[i].0@),
        bindings_map(bindings)[bindings[i].0@] == bindings[i].1@,
    decreases bindings.len(),
{
    if i < bindings.len() - 1 {
        assert(bindings.last() == bindings[bindings.len() - 1]);
        lemma_bindings_map_at(bindings.drop_last(), i);
    }
}

proof fn lemma_bindings_map_update(bindings: Seq<(String, Expr)>, i: int, entry: (String, Expr))
    requires
        distinct_names(bindings),
        0 <= i < bindings.len(),
        entry.0@ == bindings[i].0@,
    ensures
        distinct_names(bindings.update(i, entry)),
        bindings_map(bindings.update(i, entry)) == bindings_map(bindings).insert(
            entry.0@,
            entry.1@,
        ),
    decreases bindings.len(),
{
    let updated = bindings.update(i, entry);
    assert(bindings.last() == bindings[bindings.len() - 1]);
    if i < bindings.len() - 1 {
        lemma_bindings_map_update(bindings.drop_last(), i, entry);
        assert(updated.drop_last() =~= bindings.drop_last().update(i, entry));
        assert(updated.last() == bindings.last());
        assert(bindings_map(updated) =~= bindings_map(bindings).insert(entry.0@, entry.1@));
    } else {
        assert(updated.drop_last() =~= bindings.drop_last());
        assert(bindings_map(updated) =~= bindings_map(bindings).insert(entry.0@, entry.1@));
    }
}

proof fn lemma_bindings_map_len(bindings: Seq<(String, Expr)>)
    requires
        distinct_names(bindings),
    ensures
        bindings_map(bindings).dom().finite(),
        bindings_map(bindings).dom().len() == bindings.len(),
    decreases bindings.len(),
{
    if bindings.len() > 0 {
        let before = bindings.drop_last();
        lemma_bindings_map_len(before);
        assert forall|j: int| 0 <= j < before.len() implies before[j].0@ != bindings.last().0@ by {
            assert(before[j] == bindings[j]);
            assert(bindings.last() == bindings[bindings.len() - 1]);
        }
        lemma_bindings_map_absent(before, bindings.last().0@);
        assert(bindings_map(bindings).dom() =~= bindings_map(before).dom().insert(
            bindings.last().0@,
        ));
    }
}

impl View for Env {
    type V = Map<Seq<char>, ExprView>;

    closed spec fn view(&self) -> Map<Seq<char>, ExprView> {
        bindings_map(self.bindings@)
    }
}

impl Env {
    /// No name is bound twice.
    #[verifier::type_invariant]
    spec fn well_formed(self) -> bool {
        distinct_names(self.bindings@)
    }

    /// The environment without bindings.
    pub fn new() -> (r: Env)
        ensures
            r@ == Map::<Seq<char>, ExprView>::empty(),
    {
        Env { bindings: Vec::new() }
    }

    /// The index of the binding of `name`, if it has one.
    fn position(&self, name: &str) -> (r: Option<usize>)
        ensures
            match r {
                Some(i) => i < self.bindings.len() && self.bindings@[i as int].0@ == name@,
                None => forall|j: int|
                    0 <= j < self.bindings.len() ==> self.bindings@[j].0@ != name@,
            },
    {
        let mut i: usize = 0;
        while i < self.bindings.len()
            invariant
                i <= self.bindings.len(),
                forall|j: int| 0 <= j < i ==> self.bindings@[j].0@ != name@,
            decreases self.bindings.len() - i,
        {
            if same_text(self.bindings[i].0.as_str(), name) {
                return Some(i);
            }
            i += 1;
        }
        None
    }

    /// How many names are bound.
    pub fn len(&self) -> (r: usize)
        ensures
            self@.dom().finite(),
            r == self@.dom().len(),
    {
        proof {
            use_type_invariant(self);
            lemma_bindings_map_len(self.bindings@);
        }
        self.bindings.len()
    }

    /// The value bound to `name`, if there is one.
    pub fn get(&self, name: &str) -> (r: Option<&Expr>)
        ensures
            match r {
                Some(value) => self@.contains_key(name@) && value@ == self@[name@],
                None => !self@.contains_key(name@),
            },
    {
        match self.position(name) {
            Some(i) => {
                proof {
                    use_type_invariant(self);
                    lemma_bindings_map_at(self.bindings@, i as int);
                }
                Some(&self.bindings[i].1)
            },
            None => {
                proof {
                    lemma_bindings_map_absent(self.bindings@, name@);
                }
                None
            },
        }
    }

    /// Binds `name` to `value`, in place of any value it had.
    pub fn insert(&mut self, name: String, value: Expr)
        ensures
            final(self)@ == old(self)@.insert(name@, value@),
    {
        proof {
            use_type_invariant(&*self);
        }
        let found = self.position(name.as_str());
        // The list is taken out, changed and put back, so that it is whole
        // whenever it is in its place.
        let mut bindings: Vec<(String, Expr)> = Vec::new();
        core::mem::swap(&mut self.bindings, &mut bindings);
        match found {
            Some(i) => {
                proof {
                    lemma_bindings_map_update(bindings@, i as int, (name, value));
                }
                bindings.set(i, (name, value));
            },
            None => {
                proof {
                    let pushed = bindings@.push((name, value));
                    assert(pushed.drop_last() =~= bindings@);
                    assert(distinct_names(pushed));
                }
                bindings.push((name, value));
            },
        }
        core::mem::swap(&mut self.bindings, &mut bindings);
    }
}

impl Clone for Env {
    /// An independent environment with the same bindings.
    fn clone(&self) -> (r: Env)
        ensures
            r@ == self@,
    {
        let mut out: Vec<(String, Expr)> = Vec::new();
        let mut i: usize = 0;
        proof {
            use_type_invariant(self);
        }
        while i < self.bindings.len()
            invariant
                i <= self.bindings.len(),
                out.len() == i,
                distinct_names(self.bindings@),
                forall|j: int| 0 <= j < i ==> (#[trigger] out@[j]).0@ == self.bindings@[j].0@,
                bindings_map(out@) == bindings_map(self.bindings@.take(i as int)),
            decreases self.bindings.len() - i,
        {
            let name = self.bindings[i].0.clone();
            let value = self.bindings[i].1.clone();
            proof {
                let before = self.bindings@.take(i as int);
                let after = self.bindings@.take(i + 1);
                assert(after.drop_last() =~= before);
                assert(out@.push((name, value)).drop_last() =~= out@);
            }
            out.push((name, value));
            i += 1;
        }
        proof {
            assert(self.bindings@.take(self.bindings.len() as int) =~= self.bindings@);
            assert(distinct_names(out@)) by {
                assert forall|a: int, b: int|
                    0 <= a < b < out@.len() implies (#[trigger] out@[a]).0@
                    != (#[trigger] out@[b]).0@ by {
                    assert(self.bindings@[a].0@ != self.bindings@[b].0@);
                }
            }
        }
        Env { bindings: out }
    }
}

} // verus!

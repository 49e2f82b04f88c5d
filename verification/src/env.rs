use vstd::prelude::*;

verus! {

/// The persistent mapping from variable names to their last-assigned values.
/// Bindings are kept as a history of (name, value) pairs; the view collapses
/// the history, a later assignment overriding an earlier one.
pub struct Environment {
    bindings: Vec<(String, i32)>,
}

/// The mapping that a history of bindings denotes, inserted left to right.
spec fn bindings_map(ps: Seq<(String, i32)>) -> Map<Seq<char>, int>
    decreases ps.len(),
{
    if ps.len() == 0 {
        Map::empty()
    } else {
        bindings_map(ps.drop_last()).insert(ps.last().0@, ps.last().1 as int)
    }
}

impl View for Environment {
    type V = Map<Seq<char>, int>;

    closed spec fn view(&self) -> Map<Seq<char>, int> {
        bindings_map(self.bindings@)
    }
}

/// When an entry's name occurs nowhere later in the history, the map binds
/// that name to that entry's value.
proof fn lemma_bindings_map_found(ps: Seq<(String, i32)>, i: int)
    requires
        0 <= i < ps.len(),
        forall|j: int| i < j < ps.len() ==> (#[trigger] ps[j]).0@ != ps[i].0@,
    ensures
        bindings_map(ps).dom().contains(ps[i].0@),
        bindings_map(ps)[ps[i].0@] == ps[i].1 as int,
    decreases ps.len(),
{
    if i < ps.len() - 1 {
        assert(forall|j: int| i < j < ps.drop_last().len() ==> (#[trigger] ps.drop_last()[j]).0@
            != ps.drop_last()[i].0@);
        lemma_bindings_map_found(ps.drop_last(), i);
    }
}

/// A name that occurs nowhere in the history is not bound.
proof fn lemma_bindings_map_absent(ps: Seq<(String, i32)>, name: Seq<char>)
    requires
        forall|j: int| 0 <= j < ps.len() ==> (#[trigger] ps[j]).0@ != name,
    ensures
        !bindings_map(ps).dom().contains(name),
    decreases ps.len(),
{
    if ps.len() > 0 {
        lemma_bindings_map_absent(ps.drop_last(), name);
    }
}

impl Environment {
    /// A fresh environment, with no bindings.
    pub fn new() -> (r: Self)
        ensures
            r@ == Map::<Seq<char>, int>::empty(),
    {
        Environment { bindings: Vec::new() }
    }

    /// Inserts or overwrites the binding for `name`; no error is possible.
    pub fn assign(&mut self, name: &str, val: i32)
        ensures
            final(self)@ == old(self)@.insert(name@, val as int),
    {
        self.bindings.push((name.to_owned(), val));
        proof {
            assert(self.bindings@.drop_last() =~= old(self).bindings@);
        }
    }

    /// The value bound to `name`, from its most recent assignment; `None`
    /// when no assignment gave it a value.
    pub fn lookup(&self, name: &str) -> (r: Option<i32>)
        ensures
            match r {
                Some(v) => self@.dom().contains(name@) && self@[name@] == v as int,
                None => !self@.dom().contains(name@),
            },
    {
        let key: String = name.to_owned();
        let mut idx: usize = self.bindings.len();
        while idx > 0
            invariant
                idx <= self.bindings@.len(),
                key@ == name@,
                forall|j: int| idx <= j < self.bindings@.len() ==> (#[trigger] self.bindings@[j]).0@
                    != name@,
            decreases idx,
        {
            idx = idx - 1;
            if self.bindings[idx].0 == key {
                proof {
                    lemma_bindings_map_found(self.bindings@, idx as int);
                }
                return Some(self.bindings[idx].1);
            }
        }
        proof {
            lemma_bindings_map_absent(self.bindings@, name@);
        }
        None
    }
}

} // verus!

//! Environments: the variables and functions in scope, by name.
use vstd::prelude::*;

use crate::value::{Value, ValueV};

verus! {

/// A map from names to values. Each name occurs once.
pub struct Environment {
    entries: Vec<(String, Value)>,
}

impl Environment {
    /// No name occurs twice.
    spec fn unique_names(&self) -> bool {
        forall|i: int, j: int|
            0 <= i < j < self.entries@.len() ==> #[trigger] self.entries@[i].0@
                != #[trigger] self.entries@[j].0@
    }

    #[verifier::type_invariant]
    spec fn well_formed(&self) -> bool {
        self.unique_names()
    }

    /// Whether `name` is bound.
    pub closed spec fn binds(&self, name: Seq<char>) -> bool {
        exists|i: int| 0 <= i < self.entries@.len() && #[trigger] self.entries@[i].0@ == name
    }

    /// The position of the entry for `name`.
    spec fn index_of(&self, name: Seq<char>) -> int {
        choose|i: int| 0 <= i < self.entries@.len() && #[trigger] self.entries@[i].0@ == name
    }

    /// The bindings, as a map.
    pub closed spec fn bindings(&self) -> Map<Seq<char>, ValueV> {
        Map::new(|k: Seq<char>| self.binds(k), |k: Seq<char>| self.entries@[self.index_of(k)].1@)
    }

    /// An empty environment.
    pub fn new() -> (r: Self)
        ensures
            r@ == Map::<Seq<char>, ValueV>::empty(),
    {
        let r = Environment { entries: Vec::new() };
        assert(r.bindings() =~= Map::<Seq<char>, ValueV>::empty());
        r
    }

    /// The position of the entry for `name`, if there is one.
    fn find(&self, name: &str) -> (r: Option<usize>)
        ensures
            match r {
                Some(i) => i < self.entries@.len() && self.entries@[i as int].0@ == name@,
                None => !self.binds(name@),
            },
    {
        let key = String::from_str(name);
        let mut i: usize = 0;
        while i < self.entries.len()
            invariant
                i <= self.entries@.len(),
                key@ == name@,
                forall|j: int| 0 <= j < i ==> self.entries@[j].0@ != name@,
            decreases self.entries.len() - i,
        {
            if self.entries[i].0 == key {
                return Some(i);
            }
            i = i + 1;
        }
        None
    }

    /// The entry at `i` is the one for `name`.
    proof fn lemma_index(&self, i: int)
        requires
            0 <= i < self.entries@.len(),
            self.unique_names(),
        ensures
            self.binds(self.entries@[i].0@),
            self.index_of(self.entries@[i].0@) == i,
    {
        let k = self.entries@[i].0@;
        assert(self.binds(k));
        let j = self.index_of(k);
        if j != i {
            if j < i {
                assert(self.entries@[j].0@ != self.entries@[i].0@);
            } else {
                assert(self.entries@[i].0@ != self.entries@[j].0@);
            }
        }
    }

    /// Whether `name` is bound.
    pub fn has(&self, name: &str) -> (r: bool)
        ensures
            r == self@.dom().contains(name@),
    {
        self.find(name).is_some()
    }

    /// A copy of the value bound to `name`.
    pub fn lookup(&self, name: &str) -> (r: Value)
        requires
            self@.dom().contains(name@),
        ensures
            r@ == self@[name@],
    {
        proof {
            use_type_invariant(self);
        }
        match self.find(name) {
            Some(i) => {
                proof {
                    self.lemma_index(i as int);
                }
                self.entries[i].1.duplicate()
            },
            None => {
                assert(false);
                Value::Nil
            },
        }
    }

    /// Binds `name` to `value`, in place of any value it had.
    pub fn insert(&mut self, name: String, value: Value)
        ensures
            final(self)@ == old(self)@.insert(name@, value@),
    {
        proof {
            use_type_invariant(&*self);
        }
        let ghost before = *self;
        let ghost k = name@;
        let ghost v = value@;
        match self.find(name.as_str()) {
            Some(i) => {
                proof {
                    before.lemma_index(i as int);
                }
                let mut entries: Vec<(String, Value)> = Vec::new();
                std::mem::swap(&mut entries, &mut self.entries);
                entries.set(i, (name, value));
                proof {
                    let e2 = Environment { entries: entries };
                    assert(e2.unique_names()) by {
                        assert forall|a: int, b: int|
                            0 <= a < b < entries@.len() implies #[trigger] entries@[a].0@
                                != #[trigger] entries@[b].0@ by {
                            if a != i && b != i {
                                assert(before.entries@[a].0@ != before.entries@[b].0@);
                            } else if a == i {
                                assert(before.entries@[a].0@ != before.entries@[b].0@);
                            } else {
                                assert(before.entries@[a].0@ != before.entries@[b].0@);
                            }
                        }
                    }
                }
                self.entries = entries;
                proof {
                    use_type_invariant(&*self);
                    assert(self.entries@ == before.entries@.update(i as int, self.entries@[i as int]));
                    assert forall|k2: Seq<char>| #![auto] self.binds(k2) == before.binds(k2) by {
                        if before.binds(k2) {
                            let j = before.index_of(k2);
                            if j == i {
                                assert(self.entries@[i as int].0@ == k2);
                            } else {
                                assert(self.entries@[j].0@ == k2);
                            }
                        }
                        if self.binds(k2) {
                            let j = choose|j: int|
                                0 <= j < self.entries@.len() && #[trigger] self.entries@[j].0@ == k2;
                            if j == i {
                                assert(before.entries@[i as int].0@ == k2);
                            } else {
                                assert(before.entries@[j].0@ == k2);
                            }
                        }
                    }
                    assert forall|k2: Seq<char>| #[trigger] self.binds(k2) implies self.entries@[self.index_of(k2)].1@
                        == before@.insert(k, v)[k2] by {
                        let j = self.index_of(k2);
                        self.lemma_index(j);
                        if k2 == k {
                            self.lemma_index(i as int);
                        } else {
                            before.lemma_index(j);
                            assert(j != i);
                        }
                    }
                    assert(self@ =~= before@.insert(k, v));
                }
            },
            None => {
                let mut entries: Vec<(String, Value)> = Vec::new();
                std::mem::swap(&mut entries, &mut self.entries);
                entries.push((name, value));
                proof {
                    let e2 = Environment { entries: entries };
                    assert(e2.unique_names()) by {
                        assert forall|a: int, b: int|
                            0 <= a < b < entries@.len() implies #[trigger] entries@[a].0@
                                != #[trigger] entries@[b].0@ by {
                            if b == before.entries@.len() {
                                assert(before.entries@[a].0@ != k);
                            } else {
                                assert(before.entries@[a].0@ != before.entries@[b].0@);
                            }
                        }
                    }
                }
                self.entries = entries;
                proof {
                    use_type_invariant(&*self);
                    let n = before.entries@.len();
                    assert(self.entries@ == before.entries@.push(self.entries@[n as int]));
                    assert forall|k2: Seq<char>| #![auto] self.binds(k2) == (before.binds(k2) || k2 == k) by {
                        if before.binds(k2) {
                            let j = before.index_of(k2);
                            assert(self.entries@[j].0@ == k2);
                        }
                        if k2 == k {
                            assert(self.entries@[n as int].0@ == k2);
                        }
                        if self.binds(k2) && k2 != k {
                            let j = choose|j: int|
                                0 <= j < self.entries@.len() && #[trigger] self.entries@[j].0@ == k2;
                            assert(before.entries@[j].0@ == k2);
                        }
                    }
                    assert forall|k2: Seq<char>| #[trigger] self.binds(k2) implies self.entries@[self.index_of(k2)].1@
                        == before@.insert(k, v)[k2] by {
                        let j = self.index_of(k2);
                        self.lemma_index(j);
                        if k2 == k {
                            self.lemma_index(n as int);
                        } else {
                            before.lemma_index(j);
                        }
                    }
                    assert(self@ =~= before@.insert(k, v));
                }
            },
        }
    }

    /// Whether `name` is bound.
    pub fn is_bound(&mut self, name: String) -> (r: bool)
        ensures
            r == old(self)@.dom().contains(name@),
            final(self)@ == old(self)@,
    {
        self.has(name.as_str())
    }

    /// Binds `name` to `new_value` where it is bound; leaves the environment as it is
    /// where it is not.
    pub fn update(&mut self, name: String, new_value: Value)
        ensures
            final(self)@ == if old(self)@.dom().contains(name@) {
                old(self)@.insert(name@, new_value@)
            } else {
                old(self)@
            },
    {
        if self.has(name.as_str()) {
            self.insert(name, new_value);
        }
    }

    /// A copy of the value bound to `name`.
    pub fn get(&mut self, name: String) -> (r: Value)
        requires
            old(self)@.dom().contains(name@),
        ensures
            r@ == old(self)@[name@],
            final(self)@ == old(self)@,
    {
        self.lookup(name.as_str())
    }

    /// A copy of an environment.
    pub fn copy_of(old: &Environment) -> (r: Environment)
        ensures
            r@ == old@,
    {
        proof {
            use_type_invariant(old);
        }
        let mut entries: Vec<(String, Value)> = Vec::new();
        let mut i: usize = 0;
        while i < old.entries.len()
            invariant
                i <= old.entries@.len(),
                entries@.len() == i,
                forall|j: int|
                    0 <= j < i ==> #[trigger] entries@[j].0@ == old.entries@[j].0@
                        && entries@[j].1@ == old.entries@[j].1@,
                forall|a: int, b: int|
                    0 <= a < b < old.entries@.len() ==> #[trigger] old.entries@[a].0@
                        != #[trigger] old.entries@[b].0@,
            decreases old.entries.len() - i,
        {
            entries.push((old.entries[i].0.clone(), old.entries[i].1.duplicate()));
            i = i + 1;
        }
        let r = Environment { entries };
        proof {
            use_type_invariant(&r);
            assert forall|k: Seq<char>| #![auto] r.binds(k) == old.binds(k) by {
                if r.binds(k) {
                    let j = choose|j: int| 0 <= j < r.entries@.len() && #[trigger] r.entries@[j].0@ == k;
                    assert(old.entries@[j].0@ == k);
                }
                if old.binds(k) {
                    let j = old.index_of(k);
                    assert(r.entries@[j].0@ == k);
                }
            }
            assert forall|k: Seq<char>| #[trigger] r.binds(k) implies r.entries@[r.index_of(k)].1@
                == old.entries@[old.index_of(k)].1@ by {
                let j = r.index_of(k);
                r.lemma_index(j);
                old.lemma_index(j);
            }
            assert(r@ =~= old@);
        }
        r
    }
}

impl View for Environment {
    type V = Map<Seq<char>, ValueV>;

    open spec fn view(&self) -> Map<Seq<char>, ValueV> {
        self.bindings()
    }
}

/// A read gives back what the last write to the name wrote, and a write leaves every other
/// name as it was: bound or not, and to the same value.
pub proof fn lemma_read_after_insert(
    before: Map<Seq<char>, ValueV>,
    name: Seq<char>,
    value: ValueV,
    other: Seq<char>,
)
    ensures
        before.insert(name, value).dom().contains(name),
        before.insert(name, value)[name] == value,
        other != name ==> (before.insert(name, value).dom().contains(other) == before.dom().contains(
            other,
        )),
        other != name && before.dom().contains(other) ==> before.insert(name, value)[other]
            == before[other],
{
}

} // verus!

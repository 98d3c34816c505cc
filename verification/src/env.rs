use crate::text::{key_order, lemma_text_lt_order, text_lt, KeyOrder};
use vstd::prelude::*;

verus! {

/// One variable of an environment.
#[derive(Debug, PartialEq, Eq)]
pub struct Binding {
    pub key: String,
    pub value: String,
}

/// The names of `pairs` come in strictly ascending order, so none occurs twice.
pub open spec fn ascending(pairs: Seq<(Seq<char>, Seq<char>)>) -> bool {
    forall|i: int, j: int| 0 <= i < j < pairs.len() ==> text_lt(#[trigger] pairs[i].0, #[trigger] pairs[j].0)
}

/// Whether some pair of `pairs` is for the name `key`.
pub open spec fn has_key(pairs: Seq<(Seq<char>, Seq<char>)>, key: Seq<char>) -> bool {
    exists|i: int| 0 <= i < pairs.len() && #[trigger] pairs[i].0 == key
}

/// The mapping that a list of pairs stands for.
pub open spec fn pairs_map(pairs: Seq<(Seq<char>, Seq<char>)>) -> Map<Seq<char>, Seq<char>> {
    Map::new(
        |k: Seq<char>| has_key(pairs, k),
        |k: Seq<char>| pairs[choose|i: int| 0 <= i < pairs.len() && #[trigger] pairs[i].0 == k].1,
    )
}

/// Among pairs whose names ascend, each name maps to the value beside it.
pub proof fn lemma_pairs_map_at(pairs: Seq<(Seq<char>, Seq<char>)>, i: int)
    requires
        ascending(pairs),
        0 <= i < pairs.len(),
    ensures
        pairs_map(pairs).contains_key(pairs[i].0),
        pairs_map(pairs)[pairs[i].0] == pairs[i].1,
{
    let k = pairs[i].0;
    lemma_text_lt_order(k, k, k);
}

/// The pairs of name and value that a list of bindings holds.
pub open spec fn pairs_of(bindings: Seq<Binding>) -> Seq<(Seq<char>, Seq<char>)> {
    Seq::new(bindings.len(), |i: int| (bindings[i].key@, bindings[i].value@))
}

/// A mapping from variable names to values. It is kept as a list of bindings
/// in ascending order of their names.
#[derive(Debug, PartialEq, Eq)]
pub struct Env {
    bindings: Vec<Binding>,
}

impl View for Env {
    type V = Map<Seq<char>, Seq<char>>;

    closed spec fn view(&self) -> Map<Seq<char>, Seq<char>> {
        pairs_map(self.pairs())
    }
}

impl Env {
    /// The bindings as pairs of name and value, in ascending order of the names.
    pub closed spec fn pairs(&self) -> Seq<(Seq<char>, Seq<char>)> {
        pairs_of(self.bindings@)
    }

    /// The bindings are kept in ascending order of their names.
    #[verifier::type_invariant]
    pub open spec fn sorted(self) -> bool {
        ascending(self.pairs())
    }

    /// What `pairs` and the view are to each other.
    pub proof fn lemma_pairs(&self)
        requires
            self.sorted(),
        ensures
            self@ == pairs_map(self.pairs()),
            self@.dom().finite(),
            forall|i: int| 0 <= i < self.pairs().len() ==> self@.contains_key(#[trigger] self.pairs()[i].0) && self@[self.pairs()[i].0] == self.pairs()[i].1,
            forall|k: Seq<char>| self@.contains_key(k) ==> has_key(self.pairs(), k),
    {
        let ps = self.pairs();
        assert forall|i: int| 0 <= i < ps.len() implies self@.contains_key(#[trigger] ps[i].0)
            && self@[ps[i].0] == ps[i].1 by {
            lemma_pairs_map_at(ps, i);
        }
        let keys = Set::new(|k: Seq<char>| has_key(ps, k));
        let idx = Set::new(|i: int| 0 <= i < ps.len());
        vstd::set_lib::lemma_int_range(0, ps.len() as int);
        assert(idx == vstd::set_lib::set_int_range(0, ps.len() as int));
        assert(keys == idx.map(|i: int| ps[i].0)) by {
            assert forall|k: Seq<char>| keys.contains(k) implies idx.map(|i: int| ps[i].0).contains(k) by {
                let i = choose|i: int| 0 <= i < ps.len() && #[trigger] ps[i].0 == k;
                assert(idx.contains(i));
            }
        }
        idx.lemma_map_finite(|i: int| ps[i].0);
    }

    /// An environment without variables.
    pub fn new() -> (env: Env)
        ensures
            env@ == Map::<Seq<char>, Seq<char>>::empty(),
            env.pairs().len() == 0,
    {
        Env { bindings: Vec::new() }
    }

    /// How many variables the environment has.
    pub fn len(&self) -> (n: usize)
        ensures
            n == self.pairs().len(),
    {
        self.bindings.len()
    }

    /// Whether the environment has no variable.
    pub fn is_empty(&self) -> (empty: bool)
        ensures
            empty == (self.pairs().len() == 0),
    {
        self.bindings.len() == 0
    }

    /// The name of the binding at `index`, counted in ascending order of the names.
    pub(crate) fn key_at(&self, index: usize) -> (key: &String)
        requires
            index < self.pairs().len(),
        ensures
            key@ == self.pairs()[index as int].0,
    {
        &self.bindings[index].key
    }

    /// The value of the binding at `index`, counted in ascending order of the names.
    pub(crate) fn value_at(&self, index: usize) -> (value: &String)
        requires
            index < self.pairs().len(),
        ensures
            value@ == self.pairs()[index as int].1,
    {
        &self.bindings[index].value
    }

    /// The bindings, in ascending order of their names.
    pub fn to_vec(&self) -> (list: Vec<Binding>)
        ensures
            pairs_of(list@) == self.pairs(),
    {
        let mut list: Vec<Binding> = Vec::new();
        let mut i: usize = 0;
        while i < self.bindings.len()
            invariant
                i <= self.bindings@.len(),
                list@.len() == i,
                forall|j: int| 0 <= j < i ==> list@[j].key@ == self.bindings@[j].key@ && list@[j].value@ == self.bindings@[j].value@,
            decreases self.bindings@.len() - i,
        {
            list.push(Binding { key: self.bindings[i].key.clone(), value: self.bindings[i].value.clone() });
            i = i + 1;
        }
        list
    }

    /// The place of `key` among the bindings: the index of the first binding
    /// whose name is not below it, and whether that binding is for `key`.
    fn locate(&self, key: &str) -> (r: (usize, bool))
        ensures
            r.0 <= self.pairs().len(),
            forall|i: int| 0 <= i < r.0 ==> text_lt(#[trigger] self.pairs()[i].0, key@),
            r.1 ==> r.0 < self.pairs().len() && self.pairs()[r.0 as int].0 == key@,
            !r.1 ==> forall|i: int| r.0 <= i < self.pairs().len() ==> text_lt(key@, #[trigger] self.pairs()[i].0),
            r.1 == has_key(self.pairs(), key@),
    {
        proof {
            use_type_invariant(self);
        }
        let mut i: usize = 0;
        while i < self.bindings.len()
            invariant
                i <= self.pairs().len(),
                self.pairs().len() == self.bindings@.len(),
                ascending(self.pairs()),
                forall|j: int| 0 <= j < i ==> text_lt(#[trigger] self.pairs()[j].0, key@),
            decreases self.bindings@.len() - i,
        {
            let ghost ps = self.pairs();
            match key_order(self.bindings[i].key.as_str(), key) {
                KeyOrder::Less => {},
                KeyOrder::Equal => {
                    return (i, true);
                },
                KeyOrder::Greater => {
                    assert forall|j: int| i <= j < ps.len() implies text_lt(key@, #[trigger] ps[j].0) by {
                        if i < j {
                            lemma_text_lt_order(key@, ps[i as int].0, ps[j].0);
                        }
                    }
                    proof {
                        Self::lemma_between(ps, key@, i as int);
                    }
                    return (i, false);
                },
            }
            i = i + 1;
        }
        proof {
            Self::lemma_between(self.pairs(), key@, i as int);
        }
        (i, false)
    }

    /// A name that stands strictly between the bindings before `at` and those
    /// from `at` on is the name of none.
    proof fn lemma_between(ps: Seq<(Seq<char>, Seq<char>)>, key: Seq<char>, at: int)
        requires
            0 <= at <= ps.len(),
            forall|i: int| 0 <= i < at ==> text_lt(#[trigger] ps[i].0, key),
            forall|i: int| at <= i < ps.len() ==> text_lt(key, #[trigger] ps[i].0),
        ensures
            !has_key(ps, key),
    {
        lemma_text_lt_order(key, key, key);
    }

    /// Whether the environment has the variable `key`.
    pub fn contains_key(&self, key: &str) -> (found: bool)
        ensures
            found == self@.contains_key(key@),
    {
        self.locate(key).1
    }

    /// The value of the variable `key`, if the environment has it.
    pub fn get(&self, key: &str) -> (value: Option<&String>)
        ensures
            value is Some == self@.contains_key(key@),
            value is Some ==> value->0@ == self@[key@],
    {
        proof {
            use_type_invariant(self);
        }
        let (at, found) = self.locate(key);
        if found {
            proof {
                lemma_pairs_map_at(self.pairs(), at as int);
            }
            Some(&self.bindings[at].value)
        } else {
            None
        }
    }

    /// Binds `key` to `value`. Returns the value that `key` had before, if any.
    pub fn insert(&mut self, key: String, value: String) -> (before: Option<String>)
        ensures
            final(self)@ == old(self)@.insert(key@, value@),
            before is Some == old(self)@.contains_key(key@),
            before is Some ==> before->0@ == old(self)@[key@],
    {
        proof {
            use_type_invariant(&*self);
        }
        let ghost ps = self.pairs();
        let (at, found) = self.locate(key.as_str());
        if found {
            proof {
                lemma_pairs_map_at(ps, at as int);
            }
            let mut bindings = Vec::new();
            std::mem::swap(&mut bindings, &mut self.bindings);
            let slot = bindings.remove(at);
            bindings.insert(at, Binding { key, value });
            proof {
                assert(pairs_of(bindings@) == ps.update(at as int, (key@, value@)));
                Self::lemma_update(ps, at as int, value@);
            }
            self.bindings = bindings;
            Some(slot.value)
        } else {
            let mut bindings = Vec::new();
            std::mem::swap(&mut bindings, &mut self.bindings);
            bindings.insert(at, Binding { key, value });
            proof {
                assert(pairs_of(bindings@) == ps.insert(at as int, (key@, value@)));
                Self::lemma_insert(ps, at as int, key@, value@);
            }
            self.bindings = bindings;
            None
        }
    }

    /// Putting another value beside a name keeps the order, and binds the
    /// name to that value.
    proof fn lemma_update(ps: Seq<(Seq<char>, Seq<char>)>, at: int, value: Seq<char>)
        requires
            ascending(ps),
            0 <= at < ps.len(),
        ensures
            ascending(ps.update(at, (ps[at].0, value))),
            pairs_map(ps.update(at, (ps[at].0, value))) == pairs_map(ps).insert(ps[at].0, value),
    {
        let qs = ps.update(at, (ps[at].0, value));
        assert forall|i: int, j: int| 0 <= i < j < qs.len() implies text_lt(#[trigger] qs[i].0, #[trigger] qs[j].0) by {
            assert(qs[i].0 == ps[i].0 && qs[j].0 == ps[j].0);
        }
        let want = pairs_map(ps).insert(ps[at].0, value);
        assert forall|k: Seq<char>| pairs_map(qs).contains_key(k) == want.contains_key(k) by {
            if has_key(qs, k) {
                let i = choose|i: int| 0 <= i < qs.len() && #[trigger] qs[i].0 == k;
                assert(ps[i].0 == k);
            }
            if has_key(ps, k) {
                let i = choose|i: int| 0 <= i < ps.len() && #[trigger] ps[i].0 == k;
                assert(qs[i].0 == k);
            }
        }
        assert forall|k: Seq<char>| pairs_map(qs).contains_key(k) implies pairs_map(qs)[k] == want[k] by {
            let i = choose|i: int| 0 <= i < qs.len() && #[trigger] qs[i].0 == k;
            lemma_pairs_map_at(qs, i);
            lemma_pairs_map_at(ps, i);
            lemma_text_lt_order(k, k, k);
            if i != at {
                assert(ps[i].0 != ps[at].0);
            }
        }
    }

    /// Putting a new name where it belongs keeps the order, and binds the
    /// name to its value.
    proof fn lemma_insert(ps: Seq<(Seq<char>, Seq<char>)>, at: int, key: Seq<char>, value: Seq<char>)
        requires
            ascending(ps),
            0 <= at <= ps.len(),
            forall|i: int| 0 <= i < at ==> text_lt(#[trigger] ps[i].0, key),
            forall|i: int| at <= i < ps.len() ==> text_lt(key, #[trigger] ps[i].0),
        ensures
            ascending(ps.insert(at, (key, value))),
            pairs_map(ps.insert(at, (key, value))) == pairs_map(ps).insert(key, value),
    {
        let qs = ps.insert(at, (key, value));
        assert forall|i: int, j: int| 0 <= i < j < qs.len() implies text_lt(#[trigger] qs[i].0, #[trigger] qs[j].0) by {
            let a = if i < at { i } else { i - 1 };
            let b = if j < at { j } else { j - 1 };
            if i != at && j != at {
                assert(qs[i] == ps[a] && qs[j] == ps[b]);
            } else if i == at {
                assert(qs[j] == ps[b]);
            } else {
                assert(qs[i] == ps[a]);
            }
        }
        let want = pairs_map(ps).insert(key, value);
        assert forall|k: Seq<char>| pairs_map(qs).contains_key(k) == want.contains_key(k) by {
            if has_key(qs, k) {
                let i = choose|i: int| 0 <= i < qs.len() && #[trigger] qs[i].0 == k;
                if i < at {
                    assert(ps[i].0 == k);
                } else if i > at {
                    assert(ps[i - 1].0 == k);
                }
            }
            if has_key(ps, k) {
                let i = choose|i: int| 0 <= i < ps.len() && #[trigger] ps[i].0 == k;
                if i < at {
                    assert(qs[i].0 == k);
                } else {
                    assert(qs[i + 1].0 == k);
                }
            }
            assert(qs[at].0 == key);
        }
        assert forall|k: Seq<char>| pairs_map(qs).contains_key(k) implies pairs_map(qs)[k] == want[k] by {
            let i = choose|i: int| 0 <= i < qs.len() && #[trigger] qs[i].0 == k;
            lemma_pairs_map_at(qs, i);
            lemma_text_lt_order(k, k, k);
            if i < at {
                lemma_pairs_map_at(ps, i);
            } else if i > at {
                lemma_pairs_map_at(ps, i - 1);
            }
        }
    }
}

impl Clone for Env {
    fn clone(&self) -> (copy: Env)
        ensures
            copy.pairs() == self.pairs(),
            copy@ == self@,
    {
        proof {
            use_type_invariant(self);
        }
        let bindings = self.to_vec();
        Env { bindings }
    }
}

} // verus!

//! An insertion-ordered map keyed by strings.

use vstd::prelude::*;

verus! {

/// A map from strings to `V` that remembers the order in which its keys
/// were first inserted.
///
/// The model is the pair of `keys()`, the keys in insertion order, and the
/// view, a `Map` from a key's characters to its value.
#[derive(Debug)]
pub struct StrMap<V> {
    entries: Vec<(String, V)>,
}

impl<V> View for StrMap<V> {
    type V = Map<Seq<char>, V>;

    closed spec fn view(&self) -> Map<Seq<char>, V> {
        Map::new(
            |k: Seq<char>| exists|i: int| 0 <= i < self.entries@.len() && self.entries@[i].0@ == k,
            |k: Seq<char>| self.entries@[self.index_of(k)].1,
        )
    }
}

impl<V> StrMap<V> {
    #[verifier::type_invariant]
    spec fn distinct_keys(self) -> bool {
        forall|i: int, j: int|
            0 <= i < self.entries@.len() && 0 <= j < self.entries@.len()
                && self.entries@[i].0@ == self.entries@[j].0@ ==> i == j
    }

    spec fn index_of(&self, k: Seq<char>) -> int {
        choose|i: int| 0 <= i < self.entries@.len() && self.entries@[i].0@ == k
    }

    /// The keys in the order of their first insertion.
    pub closed spec fn keys(&self) -> Seq<Seq<char>> {
        Seq::new(self.entries@.len(), |i: int| self.entries@[i].0@)
    }

    /// The values, each at the position of its key in `keys()`.
    pub closed spec fn values(&self) -> Seq<V> {
        Seq::new(self.entries@.len(), |i: int| self.entries@[i].1)
    }

    proof fn lemma_model(&self)
        requires
            self.distinct_keys(),
        ensures
            self.keys().len() == self.values().len(),
            self.keys().no_duplicates(),
            forall|k: Seq<char>| self@.contains_key(k) <==> self.keys().contains(k),
            forall|i: int|
                0 <= i < self.keys().len() ==> self@.contains_key(#[trigger] self.keys()[i])
                    && self@[self.keys()[i]] == self.values()[i],
    {
        assert forall|k: Seq<char>| self@.contains_key(k) <==> self.keys().contains(k) by {
            if self@.contains_key(k) {
                let i = self.index_of(k);
                assert(self.keys()[i] == k);
            }
            if self.keys().contains(k) {
                let i = choose|i: int| 0 <= i < self.keys().len() && self.keys()[i] == k;
                assert(self.entries@[i].0@ == k);
            }
        }
        assert forall|i: int| 0 <= i < self.keys().len() implies self@.contains_key(
            #[trigger] self.keys()[i],
        ) && self@[self.keys()[i]] == self.values()[i] by {
            let k = self.keys()[i];
            assert(self.entries@[i].0@ == k);
            assert(self.index_of(k) == i);
        }
    }

    pub fn new() -> (m: Self)
        ensures
            m@ == Map::<Seq<char>, V>::empty(),
            m.keys() == Seq::<Seq<char>>::empty(),
            forall|k: Seq<char>| #[trigger] m@.contains_key(k) <==> m.keys().contains(k),
    {
        let m = StrMap { entries: Vec::new() };
        assert(m@ =~= Map::<Seq<char>, V>::empty());
        assert(m.keys() =~= Seq::<Seq<char>>::empty());
        m
    }

    /// The number of keys. The clauses after the first say how `keys()`,
    /// `values()` and the view hang together.
    pub fn len(&self) -> (n: usize)
        ensures
            n == self.keys().len(),
            self.keys().len() == self.values().len(),
            self.keys().no_duplicates(),
            forall|k: Seq<char>| #[trigger]
                self@.contains_key(k) <==> self.keys().contains(k),
            forall|i: int|
                0 <= i < self.keys().len() ==> self@.contains_key(#[trigger] self.keys()[i])
                    && self@[self.keys()[i]] == self.values()[i],
    {
        proof {
            use_type_invariant(self);
            self.lemma_model();
        }
        self.entries.len()
    }

    fn position(&self, key: &String) -> (r: Option<usize>)
        ensures
            match r {
                Some(i) => i < self.entries@.len() && self.entries@[i as int].0@ == key@
                    && self.index_of(key@) == i && self@.contains_key(key@),
                None => !self@.contains_key(key@),
            },
    {
        proof {
            use_type_invariant(self);
        }
        let mut i: usize = 0;
        while i < self.entries.len()
            invariant
                i <= self.entries@.len(),
                self.distinct_keys(),
                forall|j: int| 0 <= j < i ==> self.entries@[j].0@ != key@,
            decreases self.entries@.len() - i,
        {
            if self.entries[i].0 == *key {
                proof {
                    let j = self.index_of(key@);
                    assert(self.entries@[i as int].0@ == key@);
                    assert(0 <= j < self.entries@.len() && self.entries@[j].0@ == key@);
                }
                return Some(i);
            }
            i = i + 1;
        }
        None
    }

    pub fn contains_key(&self, key: &String) -> (r: bool)
        ensures
            r == self@.contains_key(key@),
    {
        self.position(key).is_some()
    }

    pub fn get(&self, key: &String) -> (r: Option<&V>)
        ensures
            r == (if self@.contains_key(key@) {
                Some(&self@[key@])
            } else {
                None
            }),
    {
        match self.position(key) {
            Some(i) => Some(&self.entries[i].1),
            None => None,
        }
    }

    /// The key at position `i` of the insertion order.
    pub fn key_at(&self, i: usize) -> (k: &String)
        requires
            i < self.keys().len(),
        ensures
            k@ == self.keys()[i as int],
            self@.contains_key(k@),
    {
        proof {
            use_type_invariant(self);
            self.lemma_model();
        }
        &self.entries[i].0
    }

    /// The value at position `i` of the insertion order.
    pub fn value_at(&self, i: usize) -> (v: &V)
        requires
            i < self.keys().len(),
        ensures
            *v == self.values()[i as int],
            self@.contains_key(self.keys()[i as int]),
            *v == self@[self.keys()[i as int]],
    {
        proof {
            use_type_invariant(self);
            self.lemma_model();
        }
        &self.entries[i].1
    }

    /// The keys, in the order of their first insertion.
    pub fn key_list(&self) -> (r: Vec<String>)
        ensures
            names_of(r@) == self.keys(),
    {
        let mut r: Vec<String> = Vec::new();
        let mut i: usize = 0;
        while i < self.entries.len()
            invariant
                i <= self.entries@.len(),
                r@.len() == i,
                forall|j: int| 0 <= j < i ==> r@[j]@ == self.entries@[j].0@,
            decreases self.entries@.len() - i,
        {
            r.push(self.entries[i].0.clone());
            i = i + 1;
        }
        assert(names_of(r@) =~= self.keys());
        r
    }

    /// Binds `key` to `value`. A key that is already present keeps its place
    /// in the order; a new key goes last.
    pub fn insert(&mut self, key: String, value: V)
        ensures
            final(self)@ == old(self)@.insert(key@, value),
            final(self).keys() == (if old(self)@.contains_key(key@) {
                old(self).keys()
            } else {
                old(self).keys().push(key@)
            }),
            forall|k: Seq<char>| #[trigger]
                final(self)@.contains_key(k) <==> final(self).keys().contains(k),
    {
        proof {
            use_type_invariant(&*self);
        }
        let found = self.position(&key);
        let mut entries: Vec<(String, V)> = Vec::new();
        std::mem::swap(&mut entries, &mut self.entries);
        let ghost before = entries@;
        match found {
            Some(i) => {
                entries.set(i, (key, value));
            },
            None => {
                entries.push((key, value));
            },
        }
        self.entries = entries;
        proof {
            let after = self.entries@;
            assert forall|k: Seq<char>| final(self)@.contains_key(k) <==> old(self)@.insert(
                key@,
                value,
            ).contains_key(k) by {
                if old(self)@.contains_key(k) {
                    let j = old(self).index_of(k);
                    assert(after[j].0@ == k);
                }
                if k == key@ {
                    match found {
                        Some(i) => { assert(after[i as int].0@ == k); },
                        None => { assert(after[before.len() as int].0@ == k); },
                    }
                }
                if final(self)@.contains_key(k) && k != key@ {
                    let j = final(self).index_of(k);
                    assert(before[j].0@ == k);
                }
            }
            assert forall|k: Seq<char>| final(self)@.contains_key(k) implies final(self)@[k]
                == old(self)@.insert(key@, value)[k] by {
                let j = final(self).index_of(k);
                if k == key@ {
                    match found {
                        Some(i) => { assert(after[i as int].0@ == k); assert(j == i); },
                        None => { assert(after[before.len() as int].0@ == k); assert(j == before.len()); },
                    }
                } else {
                    assert(before[j].0@ == k);
                    assert(old(self).index_of(k) == j);
                }
            }
            assert(final(self)@ =~= old(self)@.insert(key@, value));
            assert(final(self).keys() =~= (if old(self)@.contains_key(key@) {
                old(self).keys()
            } else {
                old(self).keys().push(key@)
            }));
            old(self).lemma_model();
            assert forall|k: Seq<char>| #[trigger]
                final(self)@.contains_key(k) <==> final(self).keys().contains(k) by {
                let ok = old(self).keys();
                let nk = final(self).keys();
                if ok.contains(k) {
                    let i = choose|i: int| 0 <= i < ok.len() && ok[i] == k;
                    assert(nk[i] == k);
                }
                if k == key@ && !old(self)@.contains_key(key@) {
                    assert(nk[ok.len() as int] == k);
                }
                if nk.contains(k) {
                    let i = choose|i: int| 0 <= i < nk.len() && nk[i] == k;
                    if i < ok.len() {
                        assert(ok[i] == k);
                    }
                }
            }
        }
    }
}

/// The characters of each string of a list.
pub open spec fn names_of(strings: Seq<String>) -> Seq<Seq<char>> {
    Seq::new(strings.len(), |i: int| strings[i]@)
}

} // verus!

//! A small map from text keys to text values, kept in insertion order.
use vstd::prelude::*;

use crate::text::str_eq;

verus! {

/// Text keys mapped to text values; a key occurs at most once.
#[derive(Debug)]
pub struct StringMap {
    entries: Vec<(String, String)>,
}

impl StringMap {
    #[verifier::type_invariant]
    spec fn keys_unique(self) -> bool {
        forall|i: int, j: int|
            0 <= i < j < self.entries@.len() ==> #[trigger] self.entries@[i].0@
                != #[trigger] self.entries@[j].0@
    }

    spec fn has_key_at(self, k: Seq<char>, i: int) -> bool {
        0 <= i < self.entries@.len() && self.entries@[i].0@ == k
    }

    pub fn new() -> (r: Self)
        ensures
            r@ == Map::<Seq<char>, Seq<char>>::empty(),
    {
        let r = StringMap { entries: Vec::new() };
        assert(r@ =~= Map::<Seq<char>, Seq<char>>::empty());
        r
    }

    /// The number of keys.
    pub fn len(&self) -> (r: usize)
        ensures
            r == self@.dom().len(),
    {
        proof {
            use_type_invariant(self);
            self.lemma_dom_len();
        }
        self.entries.len()
    }

    pub fn is_empty(&self) -> (r: bool)
        ensures
            r == (self@.dom().len() == 0),
    {
        self.len() == 0
    }

    /// The keys are those of the entries, one for each.
    proof fn lemma_dom_len(self)
        requires
            self.keys_unique(),
        ensures
            self@.dom().len() == self.entries@.len(),
    {
        let keys = self.entries@.map_values(|e: (String, String)| e.0@);
        assert(keys.no_duplicates()) by {
            assert forall|i: int, j: int|
                0 <= i < keys.len() && 0 <= j < keys.len() && i != j implies keys[i] != keys[j] by {
                if i < j {
                    assert(self.entries@[i].0@ != self.entries@[j].0@);
                } else {
                    assert(self.entries@[j].0@ != self.entries@[i].0@);
                }
            }
        }
        assert(self@.dom() =~= keys.to_set()) by {
            assert forall|k: Seq<char>| self@.dom().contains(k) implies keys.to_set().contains(k) by {
                let i = choose|i: int| self.has_key_at(k, i);
                assert(keys[i] == k);
            }
            assert forall|k: Seq<char>| keys.to_set().contains(k) implies self@.dom().contains(k) by {
                let i = choose|i: int| 0 <= i < keys.len() && keys[i] == k;
                assert(self.has_key_at(k, i));
            }
        }
        keys.unique_seq_to_set();
    }

    /// The position of `key` among the entries, if present.
    fn position(&self, key: &str) -> (r: Option<usize>)
        ensures
            r matches Some(i) ==> self.has_key_at(key@, i as int),
            r is None ==> forall|i: int| !self.has_key_at(key@, i),
    {
        let mut i: usize = 0;
        while i < self.entries.len()
            invariant
                i <= self.entries@.len(),
                forall|k: int| 0 <= k < i ==> !self.has_key_at(key@, k),
            decreases self.entries@.len() - i,
        {
            if str_eq(self.entries[i].0.as_str(), key) {
                return Some(i);
            }
            i = i + 1;
        }
        None
    }

    /// The value stored under `key`.
    pub fn get(&self, key: &str) -> (r: Option<&String>)
        ensures
            r matches Some(v) ==> self@.contains_key(key@) && v@ == self@[key@],
            r is None ==> !self@.contains_key(key@),
    {
        proof {
            use_type_invariant(self);
        }
        match self.position(key) {
            Some(i) => {
                proof {
                    let j = choose|j: int| self.has_key_at(key@, j);
                    assert(self.has_key_at(key@, i as int));
                    if i != j {
                        if i < j {
                            assert(self.entries@[i as int].0@ != self.entries@[j].0@);
                        } else {
                            assert(self.entries@[j].0@ != self.entries@[i as int].0@);
                        }
                    }
                }
                Some(&self.entries[i].1)
            },
            None => None,
        }
    }

    /// With keys unique, the entry at `i` is the one the map reports for its key.
    proof fn lemma_value_at(self, k: Seq<char>, i: int)
        requires
            self.keys_unique(),
            self.has_key_at(k, i),
        ensures
            self@.contains_key(k),
            self@[k] == self.entries@[i].1@,
    {
        let j = choose|j: int| self.has_key_at(k, j);
        if i < j {
            assert(self.entries@[i].0@ != self.entries@[j].0@);
        } else if j < i {
            assert(self.entries@[j].0@ != self.entries@[i].0@);
        }
    }

    /// Moves the entries out, leaving the map empty.
    fn take_entries(&mut self) -> (r: Vec<(String, String)>)
        ensures
            r == old(self).entries,
            final(self).entries@.len() == 0,
    {
        let mut emptied = StringMap { entries: Vec::new() };
        core::mem::swap(self, &mut emptied);
        emptied.entries
    }

    /// Stores `value` under `key`, replacing what was stored there before.
    pub fn insert(&mut self, key: String, value: String)
        ensures
            final(self)@ == old(self)@.insert(key@, value@),
    {
        proof {
            use_type_invariant(&*self);
        }
        let ghost before = *self;
        let ghost k0 = key@;
        let ghost v0 = value@;
        let ghost at: int;
        match self.position(key.as_str()) {
            Some(i) => {
                proof {
                    at = i as int;
                }
                let mut entries = self.take_entries();
                entries.set(i, (key, value));
                assert(forall|a: int|
                    0 <= a < entries@.len() ==> #[trigger] entries@[a].0@
                        == before.entries@[a].0@);
                *self = StringMap { entries };
            },
            None => {
                proof {
                    at = before.entries@.len() as int;
                }
                let mut entries = self.take_entries();
                entries.push((key, value));
                assert(forall|a: int|
                    0 <= a < before.entries@.len() ==> #[trigger] entries@[a].0@
                        == before.entries@[a].0@);
                assert forall|a: int, b: int|
                    0 <= a < b < entries@.len() implies #[trigger] entries@[a].0@
                        != #[trigger] entries@[b].0@ by {
                    if b == before.entries@.len() {
                        assert(!before.has_key_at(k0, a));
                    } else {
                        assert(before.entries@[a].0@ != before.entries@[b].0@);
                    }
                }
                *self = StringMap { entries };
            },
        }
        proof {
            assert(self.keys_unique());
            let m = before@.insert(k0, v0);
            self.lemma_value_at(k0, at);
            assert forall|k: Seq<char>| k != k0 implies (#[trigger] self@.contains_key(k)
                <==> m.contains_key(k)) && (self@.contains_key(k) ==> self@[k] == m[k]) by {
                if before@.contains_key(k) {
                    let j = choose|j: int| before.has_key_at(k, j);
                    before.lemma_value_at(k, j);
                    assert(self.has_key_at(k, j));
                    self.lemma_value_at(k, j);
                }
                if self@.contains_key(k) {
                    let j = choose|j: int| self.has_key_at(k, j);
                    assert(before.has_key_at(k, j));
                }
            }
            assert(self@ =~= m);
        }
    }
}

impl View for StringMap {
    type V = Map<Seq<char>, Seq<char>>;

    closed spec fn view(&self) -> Map<Seq<char>, Seq<char>> {
        Map::new(
            |k: Seq<char>| exists|i: int| self.has_key_at(k, i),
            |k: Seq<char>| self.entries@[choose|i: int| self.has_key_at(k, i)].1@,
        )
    }
}

} // verus!

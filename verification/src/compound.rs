//! The compound: an ordered mapping from keys to values in which no key
//! occurs twice.

use crate::error::Error;
use crate::tree::{
    has_key, keys_unique, lemma_position_unique, lemma_put_keeps_unique, lookup, position, put,
    without, Entries, Tree,
};
use crate::value::{Compound, Value};
use vstd::prelude::*;

verus! {

/// The key at `j` occurs at an earlier position too.
pub open spec fn repeats_at(entries: Seq<(String, Value)>, j: int) -> bool {
    &&& 0 <= j < entries.len()
    &&& exists|i: int| 0 <= i < j && (#[trigger] entries[i]).0@ == entries[j].0@
}

/// The entries of a vector of pairs, each value as a tree.
pub open spec fn pairs_view(entries: Seq<(String, Value)>) -> Entries {
    Seq::new(entries.len(), |i: int| (entries[i].0@, entries[i].1@))
}

impl Compound {
    /// The compound without entries.
    pub fn new() -> (c: Compound)
        ensures
            c@ == Seq::<(Seq<char>, Tree)>::empty(),
    {
        let c = Compound { entries: Vec::new() };
        assert(c@ =~= Seq::empty());
        c
    }

    /// The number of entries.
    pub fn len(&self) -> (n: usize)
        ensures
            n == self@.len(),
    {
        self.entries.len()
    }

    /// Whether the compound has no entries.
    pub fn is_empty(&self) -> (b: bool)
        ensures
            b == (self@.len() == 0),
    {
        self.entries.len() == 0
    }

    /// The position of the entry with the key, if one has it.
    fn find(&self, key: &String) -> (r: Option<usize>)
        ensures
            keys_unique(self@),
            match r {
                Some(i) => i < self@.len() && self@[i as int].0 == key@ && has_key(self@, key@)
                    && position(self@, key@) == i,
                None => !has_key(self@, key@),
            },
    {
        proof {
            use_type_invariant(self);
            self.lemma_keys_unique();
        }
        let mut i: usize = 0;
        while i < self.entries.len()
            invariant
                i <= self.entries.len(),
                keys_unique(self@),
                forall|j: int| 0 <= j < i ==> (#[trigger] self@[j]).0 != key@,
            decreases self.entries.len() - i,
        {
            assert(self@[i as int].0 == self.entries@[i as int].0@);
            if self.entries[i].0 == *key {
                proof {
                    lemma_position_unique(self@, key@, i as int);
                }
                return Some(i);
            }
            i += 1;
        }
        None
    }

    /// Whether an entry has the key.
    pub fn contains_key(&self, key: &str) -> (b: bool)
        ensures
            b == has_key(self@, key@),
    {
        let owned = key.to_owned();
        self.find(&owned).is_some()
    }

    /// The value under the key, if an entry has it.
    pub fn get(&self, key: &str) -> (r: Option<&Value>)
        ensures
            match lookup(self@, key@) {
                Some(t) => r matches Some(v) && v@ == t,
                None => r is None,
            },
    {
        let owned = key.to_owned();
        match self.find(&owned) {
            Some(i) => {
                assert(self@[i as int].1 == self.entries@[i as int].1@);
                Some(&self.entries[i].1)
            },
            None => None,
        }
    }

    /// The entry at a position, if the compound has that many.
    pub fn get_index(&self, i: usize) -> (r: Option<(&String, &Value)>)
        ensures
            match r {
                Some((k, v)) => i < self@.len() && self@[i as int] == (k@, v@),
                None => i >= self@.len(),
            },
    {
        if i < self.entries.len() {
            assert(self@[i as int] == (self.entries@[i as int].0@, self.entries@[i as int].1@));
            Some((&self.entries[i].0, &self.entries[i].1))
        } else {
            None
        }
    }

    /// Puts a value under a key and gives back the value that was there. A
    /// key that is there already keeps its place; a new key goes to the end.
    pub fn insert(&mut self, key: String, value: Value) -> (prev: Option<Value>)
        ensures
            final(self)@ == put(old(self)@, key@, value@),
            keys_unique(final(self)@),
            match lookup(old(self)@, key@) {
                Some(t) => prev matches Some(v) && v@ == t,
                None => prev is None,
            },
    {
        let ghost before = self@;
        let found = self.find(&key);
        proof {
            lemma_put_keeps_unique(before, key@, value@);
        }
        match found {
            Some(i) => {
                let ghost old_entries = self.entries@;
                let mut entries: Vec<(String, Value)> = Vec::new();
                core::mem::swap(&mut self.entries, &mut entries);
                let removed = entries.remove(i);
                entries.insert(i, (key, value));
                proof {
                    assert(entries@ =~= old_entries.update(i as int, (key, value)));
                    assert forall|a: int, b: int| 0 <= a < b < entries@.len() implies (
                    #[trigger] entries@[a]).0@ != (#[trigger] entries@[b]).0@ by {
                        assert(before[a].0 != before[b].0);
                        assert(before[a].0 == old_entries[a].0@);
                        assert(before[b].0 == old_entries[b].0@);
                    }
                }
                core::mem::swap(&mut self.entries, &mut entries);
                proof {
                    assert(self@ =~= put(before, key@, value@));
                    assert(before[i as int].1 == old_entries[i as int].1@);
                }
                Some(removed.1)
            },
            None => {
                let ghost old_entries = self.entries@;
                let mut entries: Vec<(String, Value)> = Vec::new();
                core::mem::swap(&mut self.entries, &mut entries);
                entries.push((key, value));
                proof {
                    assert forall|a: int, b: int| 0 <= a < b < entries@.len() implies (
                    #[trigger] entries@[a]).0@ != (#[trigger] entries@[b]).0@ by {
                        assert(before[a].0 == old_entries[a].0@);
                        if b < old_entries.len() {
                            assert(before[a].0 != before[b].0);
                            assert(before[b].0 == old_entries[b].0@);
                        }
                    }
                }
                core::mem::swap(&mut self.entries, &mut entries);
                proof {
                    assert(self@ =~= put(before, key@, value@));
                }
                None
            },
        }
    }

    /// Takes the entry under the key out and gives back its value; the other
    /// entries keep their order.
    pub fn remove(&mut self, key: &str) -> (prev: Option<Value>)
        ensures
            final(self)@ == without(old(self)@, key@),
            keys_unique(final(self)@),
            match lookup(old(self)@, key@) {
                Some(t) => prev matches Some(v) && v@ == t,
                None => prev is None,
            },
    {
        let ghost before = self@;
        let owned = key.to_owned();
        match self.find(&owned) {
            Some(i) => {
                let ghost old_entries = self.entries@;
                let mut entries: Vec<(String, Value)> = Vec::new();
                core::mem::swap(&mut self.entries, &mut entries);
                let removed = entries.remove(i);
                proof {
                    assert forall|a: int, b: int| 0 <= a < b < entries@.len() implies (
                    #[trigger] entries@[a]).0@ != (#[trigger] entries@[b]).0@ by {
                        let a0 = if a < i { a } else { a + 1 };
                        let b0 = if b < i { b } else { b + 1 };
                        assert(before[a0].0 != before[b0].0);
                        assert(before[a0].0 == old_entries[a0].0@);
                        assert(before[b0].0 == old_entries[b0].0@);
                    }
                }
                core::mem::swap(&mut self.entries, &mut entries);
                proof {
                    assert(self@ =~= without(before, key@));
                    assert(before[i as int].1 == old_entries[i as int].1@);
                    use_type_invariant(&*self);
                    self.lemma_keys_unique();
                }
                Some(removed.1)
            },
            None => None,
        }
    }

    /// Makes a compound of a list of entries, in their order. A list that names
    /// a key twice is refused, with the position of the first entry whose key
    /// an earlier one has.
    pub fn from_entries(entries: Vec<(String, Value)>) -> (r: Result<Compound, Error>)
        ensures
            match r {
                Ok(c) => c@ == pairs_view(entries@) && keys_unique(c@) && forall|j: int|
                    !repeats_at(entries@, j),
                Err(e) => e matches Error::DuplicateKey(j) && repeats_at(entries@, j as int)
                    && forall|k: int| 0 <= k < j ==> !repeats_at(entries@, k),
            },
    {
        let mut j: usize = 0;
        while j < entries.len()
            invariant
                j <= entries.len(),
                forall|k: int| 0 <= k < j ==> !repeats_at(entries@, k),
            decreases entries.len() - j,
        {
            let mut i: usize = 0;
            while i < j
                invariant
                    i <= j < entries.len(),
                    forall|k: int| 0 <= k < j ==> !repeats_at(entries@, k),
                    forall|a: int|
                        0 <= a < i ==> (#[trigger] entries@[a]).0@ != entries@[j as int].0@,
                decreases j - i,
            {
                if entries[i].0 == entries[j].0 {
                    assert(repeats_at(entries@, j as int));
                    return Err(Error::DuplicateKey(j));
                }
                i += 1;
            }
            j += 1;
        }
        proof {
            assert forall|a: int, b: int| 0 <= a < b < entries@.len() implies (
            #[trigger] entries@[a]).0@ != (#[trigger] entries@[b]).0@ by {
                if entries@[a].0@ == entries@[b].0@ {
                    assert(repeats_at(entries@, b));
                }
            }
        }
        let c = Compound { entries };
        proof {
            assert(c@ =~= pairs_view(entries@));
            c.lemma_keys_unique();
        }
        Ok(c)
    }
}

} // verus!

//! The compound: a map from names to values that keeps insertion order.

use super::model::{distinct_keys, has_key, lookup, put, without, Entries, ValueView};
use super::Value;
use vstd::prelude::*;

verus! {

/// A map from names to values. It keeps its entries in the order in which
/// their keys were first inserted; inserting under a key that is there
/// already replaces the value and moves nothing.
///
/// The entries are held by an `indexmap::IndexMap`, which the verifier does
/// not look into: what the methods below state of it is taken from its
/// documentation.
#[verifier::external_body]
#[derive(Debug)]
pub struct Compound {
    inner: indexmap::IndexMap<String, Value, ahash::RandomState>,
}

/// The entries that a compound holds, in order, each value by its view.
pub uninterp spec fn compound_entries(compound: Compound) -> Entries;

impl View for Compound {
    type V = Entries;

    open spec fn view(&self) -> Entries {
        compound_entries(*self)
    }
}

impl Compound {
    /// Calls `IndexMap::with_capacity_and_hasher` with no capacity. The
    /// contract claims that the new map is empty.
    #[verifier::external_body]
    pub fn new() -> (compound: Compound)
        ensures
            compound_entries(compound) == Seq::<(Seq<char>, ValueView)>::empty(),
    {
        Compound { inner: indexmap::IndexMap::with_capacity_and_hasher(0, ahash::RandomState::new()) }
    }

    /// Calls `IndexMap::with_capacity_and_hasher`. The contract claims that
    /// the new map is empty, whatever room it has.
    #[verifier::external_body]
    pub fn with_capacity(capacity: usize) -> (compound: Compound)
        ensures
            compound_entries(compound) == Seq::<(Seq<char>, ValueView)>::empty(),
    {
        Compound {
            inner: indexmap::IndexMap::with_capacity_and_hasher(capacity, ahash::RandomState::new()),
        }
    }

    /// Calls `IndexMap::len`. The contract claims that it counts the entries.
    #[verifier::external_body]
    pub fn len(&self) -> (len: usize)
        ensures
            len == compound_entries(*self).len(),
    {
        self.inner.len()
    }

    /// Calls `IndexMap::is_empty`. The contract claims that it tells whether
    /// there is no entry.
    #[verifier::external_body]
    pub fn is_empty(&self) -> (empty: bool)
        ensures
            empty == (compound_entries(*self).len() == 0),
    {
        self.inner.is_empty()
    }

    /// Calls `IndexMap::contains_key`. The contract claims that it tells
    /// whether some entry has the key.
    #[verifier::external_body]
    pub fn contains_key(&self, key: &str) -> (found: bool)
        ensures
            found == has_key(compound_entries(*self), key@),
    {
        self.inner.contains_key(key)
    }

    /// Calls `IndexMap::get`. The contract claims that it finds the value of
    /// the entry that has the key, and nothing where there is none.
    #[verifier::external_body]
    pub fn get(&self, key: &str) -> (value: Option<&Value>)
        ensures
            match value {
                Some(value) => lookup(compound_entries(*self), key@) == Some(value@),
                None => lookup(compound_entries(*self), key@) is None,
            },
    {
        self.inner.get(key)
    }

    /// Calls `IndexMap::get_index`. The contract claims that it hands out the
    /// entry at the index in insertion order, and nothing past the end; and,
    /// as a map holds no key twice, that no other entry has the key.
    #[verifier::external_body]
    pub(crate) fn entry_at(&self, index: usize) -> (entry: Option<(&String, &Value)>)
        ensures
            match entry {
                Some((key, value)) => index < compound_entries(*self).len() && (key@, value@)
                    == compound_entries(*self)[index as int] && forall|j: int|
                    0 <= j < compound_entries(*self).len() && j != index ==> (
                    #[trigger] compound_entries(*self)[j]).0 != key@,
                None => index >= compound_entries(*self).len(),
            },
    {
        self.inner.get_index(index)
    }

    /// The entry at the index, in insertion order, or nothing past the end.
    pub fn get_index(&self, index: usize) -> (entry: Option<(&String, &Value)>)
        ensures
            match entry {
                Some((key, value)) => index < self@.len() && (key@, value@) == self@[index as int],
                None => index >= self@.len(),
            },
    {
        self.entry_at(index)
    }

    /// The keys, in insertion order. No key occurs twice.
    pub fn keys(&self) -> (keys: Vec<String>)
        ensures
            keys@.len() == self@.len(),
            forall|i: int| 0 <= i < keys@.len() ==> (#[trigger] keys@[i])@ == self@[i].0,
            distinct_keys(self@),
    {
        let len = self.len();
        let mut keys: Vec<String> = Vec::new();
        let mut i: usize = 0;
        while i < len
            invariant
                len == self@.len(),
                i <= len,
                keys@.len() == i,
                forall|j: int| 0 <= j < i ==> (#[trigger] keys@[j])@ == self@[j].0,
                forall|j: int, k: int|
                    0 <= j < i && 0 <= k < len && j != k ==> (#[trigger] self@[j]).0 != (
                    #[trigger] self@[k]).0,
            decreases len - i,
        {
            match self.entry_at(i) {
                Some((key, _)) => {
                    keys.push(key.clone());
                },
                None => {},
            }
            i += 1;
        }
        keys
    }

    /// Calls `IndexMap::insert`. The contract claims what its documentation
    /// says: an entry that has the key keeps its place, takes the new value
    /// and hands back the old one; where there is none, the new entry comes
    /// last and nothing is handed back.
    #[verifier::external_body]
    pub fn insert(&mut self, key: String, value: Value) -> (previous: Option<Value>)
        ensures
            compound_entries(*final(self)) == put(compound_entries(*old(self)), key@, value@),
            match previous {
                Some(previous) => lookup(compound_entries(*old(self)), key@) == Some(previous@),
                None => lookup(compound_entries(*old(self)), key@) is None,
            },
    {
        self.inner.insert(key, value)
    }

    /// Calls `IndexMap::shift_remove`. The contract claims what its
    /// documentation says: the entry that has the key leaves and is handed
    /// back, and the entries behind it move up without changing their order.
    #[verifier::external_body]
    pub fn shift_remove(&mut self, key: &str) -> (removed: Option<Value>)
        ensures
            compound_entries(*final(self)) == without(compound_entries(*old(self)), key@),
            match removed {
                Some(removed) => lookup(compound_entries(*old(self)), key@) == Some(removed@),
                None => lookup(compound_entries(*old(self)), key@) is None,
            },
    {
        self.inner.shift_remove(key)
    }

    /// Calls `IndexMap::pop`. The contract claims that the last entry leaves
    /// and is handed back, and that an empty map hands back nothing.
    #[verifier::external_body]
    pub fn pop(&mut self) -> (entry: Option<(String, Value)>)
        ensures
            match entry {
                Some((key, value)) => compound_entries(*old(self)).len() > 0 && (key@, value@)
                    == compound_entries(*old(self)).last() && compound_entries(*final(self))
                    == compound_entries(*old(self)).drop_last(),
                None => compound_entries(*old(self)).len() == 0 && compound_entries(*final(self))
                    == compound_entries(*old(self)),
            },
    {
        self.inner.pop()
    }

    /// Calls `IndexMap::clear`. The contract claims that no entry is left.
    #[verifier::external_body]
    pub fn clear(&mut self)
        ensures
            compound_entries(*final(self)) == Seq::<(Seq<char>, ValueView)>::empty(),
    {
        self.inner.clear()
    }
}

impl Clone for Compound {
    /// Calls `IndexMap::clone`. The contract claims that the copy holds the
    /// same entries in the same order.
    #[verifier::external_body]
    fn clone(&self) -> (copy: Compound)
        ensures
            compound_entries(copy) == compound_entries(*self),
    {
        Compound { inner: self.inner.clone() }
    }
}

impl PartialEq for Compound {
    /// Calls `IndexMap::eq`, which compares two maps as maps: the order of
    /// the entries does not count. Nothing is claimed of the result.
    #[verifier::external_body]
    fn eq(&self, other: &Compound) -> (equal: bool) {
        self.inner == other.inner
    }
}

impl Default for Compound {
    fn default() -> (compound: Compound)
        ensures
            compound@ == Seq::<(Seq<char>, ValueView)>::empty(),
    {
        Compound::new()
    }
}

} // verus!

//! A map from strings to values that remembers the order in which its keys
//! arrived: hashed lookup, and iteration by position.

use vstd::hash_map::StringHashMap;
use vstd::prelude::*;

verus! {

/// An insertion-ordered map keyed by strings.
///
/// The keys and the values are held side by side in arrival order, and a hash
/// index gives the position of each key.
pub(crate) struct Table<V> {
    index: StringHashMap<usize>,
    names: Vec<String>,
    values: Vec<V>,
}

impl<V> Table<V> {
    /// The keys, in the order in which they were inserted.
    pub closed spec fn keys(&self) -> Seq<Seq<char>> {
        Seq::new(self.names@.len(), |i: int| self.names@[i]@)
    }

    /// The values, each at the position of its key.
    pub closed spec fn values(&self) -> Seq<V> {
        self.values@
    }

    /// The position of each key that is present.
    pub closed spec fn slots(&self) -> Map<Seq<char>, int> {
        Map::new(|k: Seq<char>| self.index@.contains_key(k), |k: Seq<char>| self.index@[k] as int)
    }

    /// Keys and values run in parallel, and `slots` is the inverse of `keys`.
    pub open spec fn wf(&self) -> bool {
        &&& self.keys().len() == self.values().len()
        &&& forall|i: int|
            0 <= i < self.keys().len() ==> self.slots().contains_key(#[trigger] self.keys()[i])
                && self.slots()[self.keys()[i]] == i
        &&& forall|k: Seq<char>| #[trigger]
            self.slots().contains_key(k) ==> 0 <= self.slots()[k] < self.keys().len()
                && self.keys()[self.slots()[k]] == k
    }

    /// The table as a map from key to value.
    pub open spec fn view(&self) -> Map<Seq<char>, V> {
        Map::new(
            |k: Seq<char>| self.slots().contains_key(k),
            |k: Seq<char>| self.values()[self.slots()[k]],
        )
    }

    /// An empty table.
    pub fn new() -> (t: Self)
        ensures
            t.wf(),
            t.keys() == Seq::<Seq<char>>::empty(),
            t.values() == Seq::<V>::empty(),
            t.slots() == Map::<Seq<char>, int>::empty(),
    {
        let t = Table { index: StringHashMap::new(), names: Vec::new(), values: Vec::new() };
        assert(t.keys() =~= Seq::<Seq<char>>::empty());
        assert(t.slots() =~= Map::<Seq<char>, int>::empty());
        t
    }

    /// The number of keys.
    pub fn len(&self) -> (n: usize)
        requires
            self.wf(),
        ensures
            n == self.keys().len(),
    {
        self.names.len()
    }

    /// The position of `key`, if it is present.
    pub fn find(&self, key: &str) -> (r: Option<usize>)
        requires
            self.wf(),
        ensures
            match r {
                Some(i) => self.slots().contains_key(key@) && self.slots()[key@] == i,
                None => !self.slots().contains_key(key@),
            },
    {
        match self.index.get(key) {
            Some(i) => Some(*i),
            None => None,
        }
    }

    /// The key at position `i`.
    pub fn key_at(&self, i: usize) -> (k: &String)
        requires
            self.wf(),
            i < self.keys().len(),
        ensures
            k@ == self.keys()[i as int],
    {
        &self.names[i]
    }

    /// The value at position `i`.
    pub fn value_at(&self, i: usize) -> (v: &V)
        requires
            self.wf(),
            i < self.keys().len(),
        ensures
            *v == self.values()[i as int],
    {
        &self.values[i]
    }

    /// The value at position `i`, to be changed in place.
    pub fn value_at_mut(&mut self, i: usize) -> (v: &mut V)
        requires
            old(self).wf(),
            i < old(self).keys().len(),
        ensures
            *v == old(self).values()[i as int],
            final(self).wf(),
            final(self).keys() == old(self).keys(),
            final(self).slots() == old(self).slots(),
            final(self).values() == old(self).values().update(i as int, *final(v)),
    {
        let v = &mut self.values[i];
        proof {
            assert(after_borrow(self).slots() =~= old(self).slots());
            assert(after_borrow(self).keys() =~= old(self).keys());
        }
        v
    }

    /// Appends a key that is not yet present, with its value.
    pub fn push(&mut self, key: String, value: V)
        requires
            old(self).wf(),
            !old(self).slots().contains_key(key@),
        ensures
            final(self).wf(),
            final(self).keys() == old(self).keys().push(key@),
            final(self).values() == old(self).values().push(value),
            final(self).slots() == old(self).slots().insert(key@, old(self).keys().len() as int),
    {
        let n = self.names.len();
        self.index.insert(key.clone(), n);
        self.names.push(key);
        self.values.push(value);
        assert(self.keys() =~= old(self).keys().push(key@));
        assert(self.slots() =~= old(self).slots().insert(key@, n as int));
    }
}

} // verus!

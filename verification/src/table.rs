//! A map from [`Key`]s to values, indexed by a [`dashmap::DashMap`].

use crate::primitives::{same_bytes, Address, Key};
use dashmap::DashMap;
use vstd::prelude::*;

verus! {

#[verifier::external_type_specification]
#[verifier::external_body]
#[verifier::reject_recursive_types(K)]
#[verifier::reject_recursive_types(V)]
#[verifier::reject_recursive_types(S)]
pub struct ExDashMap<K, V, S>(DashMap<K, V, S>);

/// The position that an index assigns to each key.
pub uninterp spec fn positions(index: DashMap<Key, usize>) -> Map<Key, usize>;

/// No key has a position.
pub open spec fn no_positions() -> Map<Key, usize> {
    Map::empty()
}

/// `DashMap::new`: the index holds nothing.
#[verifier::external_body]
fn index_new() -> (index: DashMap<Key, usize>)
    ensures
        positions(index) == no_positions(),
{
    DashMap::new()
}

/// `DashMap::get`: the position of the key, if it is indexed.
#[verifier::external_body]
fn index_get(index: &DashMap<Key, usize>, key: &Key) -> (position: Option<usize>)
    ensures
        position == (if positions(*index).contains_key(*key) {
            Some(positions(*index)[*key])
        } else {
            None
        }),
{
    index.get(key).map(|entry| *entry.value())
}

/// `DashMap::insert`: maps the key to the position, replacing an older one.
#[verifier::external_body]
fn index_insert(index: &mut DashMap<Key, usize>, key: Key, position: usize)
    ensures
        positions(*final(index)) == positions(*old(index)).insert(key, position),
{
    index.insert(key, position);
}

/// `DashMap::remove`: forgets the key.
#[verifier::external_body]
fn index_remove(index: &mut DashMap<Key, usize>, key: &Key)
    ensures
        positions(*final(index)) == positions(*old(index)).remove(*key),
{
    index.remove(key);
}

/// A map from keys to values whose entries can be walked by position.
#[verifier::reject_recursive_types(V)]
pub struct Table<V> {
    index: DashMap<Key, usize>,
    cells: Vec<(Key, V)>,
}

impl<V> View for Table<V> {
    type V = Map<Key, V>;

    closed spec fn view(&self) -> Map<Key, V> {
        Map::new(
            |key: Key| positions(self.index).contains_key(key),
            |key: Key| self.cells@[positions(self.index)[key] as int].1,
        )
    }
}

impl<V> Table<V> {
    /// The index and the entries agree.
    pub closed spec fn wf(&self) -> bool {
        &&& forall|key: Key| #[trigger]
            positions(self.index).contains_key(key) ==> {
                &&& positions(self.index)[key] < self.cells.len()
                &&& self.cells@[positions(self.index)[key] as int].0 == key
            }
        &&& forall|i: int|
            0 <= i < self.cells.len() ==> {
                &&& positions(self.index).contains_key((#[trigger] self.cells@[i]).0)
                &&& positions(self.index)[self.cells@[i].0] == i
            }
    }

    /// The entries in the order of their positions.
    pub closed spec fn entries(&self) -> Seq<(Key, V)> {
        self.cells@
    }

    /// The entries list every key of the map once, with its value.
    pub proof fn lemma_entries(&self)
        requires
            self.wf(),
        ensures
            forall|i: int|
                0 <= i < self.entries().len() ==> {
                    &&& self@.contains_key((#[trigger] self.entries()[i]).0)
                    &&& self@[self.entries()[i].0] == self.entries()[i].1
                },
            forall|key: Key| #[trigger]
                self@.contains_key(key) ==> exists|i: int|
                    0 <= i < self.entries().len() && (#[trigger] self.entries()[i]).0 == key,
            forall|i: int, j: int|
                0 <= i < j < self.entries().len() ==> (#[trigger] self.entries()[i]).0 != (
                #[trigger] self.entries()[j]).0,
    {
        assert forall|key: Key| #[trigger] self@.contains_key(key) implies exists|i: int|
            0 <= i < self.entries().len() && (#[trigger] self.entries()[i]).0 == key by {
            let i = positions(self.index)[key] as int;
            assert(self.entries()[i].0 == key);
        }
    }

    /// The entries are as many as the keys.
    pub proof fn lemma_len(&self)
        requires
            self.wf(),
        ensures
            self@.dom().finite(),
            self@.dom().len() == self.entries().len(),
    {
        let keys = self.entries().map_values(|entry: (Key, V)| entry.0);
        self.lemma_entries();
        assert forall|key: Key| self@.dom().contains(key) == keys.to_set().contains(key) by {
            if self@.contains_key(key) {
                let i = choose|i: int|
                    0 <= i < self.entries().len() && (#[trigger] self.entries()[i]).0 == key;
                assert(keys[i] == key);
            }
            if keys.contains(key) {
                let i = choose|i: int| 0 <= i < keys.len() && keys[i] == key;
                assert(self.entries()[i].0 == key);
            }
        }
        assert(self@.dom() =~= keys.to_set());
        assert(keys.no_duplicates()) by {
            assert forall|i: int, j: int|
                0 <= i < keys.len() && 0 <= j < keys.len() && i != j implies keys[i] != keys[j] by {
                assert(self.entries()[i].0 == keys[i]);
                assert(self.entries()[j].0 == keys[j]);
            }
        }
        keys.unique_seq_to_set();
        keys.lemma_cardinality_of_set();
    }

    /// An empty table.
    pub fn new() -> (table: Self)
        ensures
            table.wf(),
            table@ == Map::<Key, V>::empty(),
    {
        let table = Table { index: index_new(), cells: Vec::new() };
        assert(table@ =~= Map::<Key, V>::empty());
        table
    }

    /// The number of entries.
    pub fn len(&self) -> (len: usize)
        ensures
            len == self.entries().len(),
    {
        self.cells.len()
    }

    /// The entry at a position.
    pub fn entry(&self, position: usize) -> (entry: &(Key, V))
        requires
            position < self.entries().len(),
        ensures
            *entry == self.entries()[position as int],
    {
        &self.cells[position]
    }

    /// The value under a key.
    pub fn get(&self, key: &Key) -> (value: Option<&V>)
        requires
            self.wf(),
        ensures
            value == (if self@.contains_key(*key) {
                Some(&self@[*key])
            } else {
                None
            }),
    {
        match index_get(&self.index, key) {
            Some(position) => Some(&self.cells[position].1),
            None => None,
        }
    }

    /// Whether a key is present.
    pub fn contains_key(&self, key: &Key) -> (present: bool)
        requires
            self.wf(),
        ensures
            present == self@.contains_key(*key),
    {
        index_get(&self.index, key).is_some()
    }

    /// Maps a key to a value and returns the value that was there.
    pub fn insert(&mut self, key: Key, value: V) -> (previous: Option<V>)
        requires
            old(self).wf(),
        ensures
            final(self).wf(),
            final(self)@ == old(self)@.insert(key, value),
            previous == (if old(self)@.contains_key(key) {
                Some(old(self)@[key])
            } else {
                None
            }),
    {
        let ghost before = self@;
        match index_get(&self.index, &key) {
            Some(position) => {
                let mut entry = (key, value);
                core::mem::swap(&mut entry, &mut self.cells[position]);
                assert(self@ =~= before.insert(key, value));
                Some(entry.1)
            },
            None => {
                let position: usize = self.cells.len();
                self.cells.push((key, value));
                index_insert(&mut self.index, key, position);
                assert(self@ =~= before.insert(key, value));
                None
            },
        }
    }

    /// Takes a key out and returns its value.
    pub fn remove(&mut self, key: &Key) -> (removed: Option<V>)
        requires
            old(self).wf(),
        ensures
            final(self).wf(),
            final(self)@ == old(self)@.remove(*key),
            removed == (if old(self)@.contains_key(*key) {
                Some(old(self)@[*key])
            } else {
                None
            }),
            final(self).entries().len() == (if old(self)@.contains_key(*key) {
                old(self).entries().len() - 1
            } else {
                old(self).entries().len() as int
            }),
    {
        match index_get(&self.index, key) {
            Some(position) => Some(self.remove_at(position)),
            None => {
                assert(self@ =~= self@.remove(*key));
                None
            },
        }
    }

    /// Takes the entry at a position out; the last entry takes its place.
    fn remove_at(&mut self, position: usize) -> (removed: V)
        requires
            old(self).wf(),
            position < old(self).entries().len(),
        ensures
            final(self).wf(),
            final(self)@ == old(self)@.remove(old(self).entries()[position as int].0),
            removed == old(self).entries()[position as int].1,
            final(self).entries().len() == old(self).entries().len() - 1,
            forall|i: int|
                0 <= i < position ==> #[trigger] final(self).entries()[i] == old(self).entries()[i],
    {
        let ghost before = *self;
        let last: usize = self.cells.len() - 1;
        let key: Key = self.cells[position].0;
        let moved: Key = self.cells[last].0;
        let removed = self.cells.swap_remove(position);
        index_remove(&mut self.index, &key);
        if position < last {
            index_insert(&mut self.index, moved, position);
        }
        assert(self.wf()) by {
            assert(before.cells@[position as int].0 == key);
            assert(before.cells@[last as int].0 == moved);
            assert forall|i: int| 0 <= i < self.cells.len() implies {
                &&& positions(self.index).contains_key((#[trigger] self.cells@[i]).0)
                &&& positions(self.index)[self.cells@[i].0] == i
            } by {
                if i != position {
                    assert(self.cells@[i] == before.cells@[i]);
                }
            }
        }
        assert(self@ =~= before@.remove(key));
        removed.1
    }

    /// Takes out every entry that belongs to an address.
    pub fn remove_address(&mut self, address: &Address)
        requires
            old(self).wf(),
        ensures
            final(self).wf(),
            final(self)@ == old(self)@.remove_keys(
                Set::new(|key: Key| key.1 == *address),
            ),
    {
        let ghost before = self@;
        let mut i: usize = 0;
        assert(forall|key: Key| !(self@.contains_key(key) && !before.contains_key(key)));
        while i < self.cells.len()
            invariant
                self.wf(),
                i <= self.cells.len(),
                self@.dom().subset_of(before.dom()),
                forall|key: Key| #[trigger]
                    before.contains_key(key) && key.1 != *address ==> self@.contains_key(key),
                forall|key: Key| #[trigger]
                    self@.contains_key(key) ==> self@[key] == before[key],
                forall|j: int| 0 <= j < i ==> (#[trigger] self.cells@[j]).0.1 != *address,
            decreases self.cells.len() - i,
        {
            if same_bytes(&self.cells[i].0.1, address) {
                let ghost current = *self;
                self.remove_at(i);
                assert forall|j: int| 0 <= j < i implies (#[trigger] self.cells@[j]).0.1
                    != *address by {
                    assert(self.entries()[j] == current.entries()[j]);
                }
            } else {
                i = i + 1;
            }
        }
        assert forall|key: Key| #[trigger] self@.contains_key(key) implies key.1 != *address by {
            let position = positions(self.index)[key] as int;
            assert(self.cells@[position].0 == key);
        }
        assert(self@ =~= before.remove_keys(Set::new(|key: Key| key.1 == *address)));
    }

    /// Takes out every entry.
    pub fn clear(&mut self)
        requires
            old(self).wf(),
        ensures
            final(self).wf(),
            final(self)@ == Map::<Key, V>::empty(),
    {
        while self.cells.len() > 0
            invariant
                self.wf(),
            decreases self.cells.len(),
        {
            let last: usize = self.cells.len() - 1;
            self.remove_at(last);
        }
        assert(self@ =~= Map::<Key, V>::empty());
    }
}

} // verus!

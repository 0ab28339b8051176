//! Entry views: a borrow of an [`OrderMap`] bound to one key or one position,
//! through which the entry is read, changed or removed.
use vstd::prelude::*;
use crate::map::OrderMap;
use crate::model::{has_key, unique_keys, key_index, moved, swap_removed, swapped, keys_sorted,
    sorted_position};
use crate::lemmas::{lemma_insert_fresh, lemma_update_value_unique, lemma_swapped_unique};

verus! {

/// A view of a key of the map, present or not.
pub enum Entry<'a> {
    /// The key is present.
    Occupied(OccupiedEntry<'a>),
    /// The key is absent.
    Vacant(VacantEntry<'a>),
}

/// A view of a present key, by its position.
pub struct OccupiedEntry<'a> {
    /// The borrowed map.
    pub map: &'a mut OrderMap,
    /// The position of the entry.
    pub index: usize,
    /// The key of the entry.
    pub key: u64,
}

/// A view of an absent key, which would be inserted last.
pub struct VacantEntry<'a> {
    /// The borrowed map.
    pub map: &'a mut OrderMap,
    /// The key that was looked up.
    pub key: u64,
}

/// A view of the entry at a position, found by position rather than key.
pub struct IndexedEntry<'a> {
    /// The borrowed map.
    pub map: &'a mut OrderMap,
    /// The position of the entry.
    pub index: usize,
}

impl<'a> Entry<'a> {
    /// The view points into a well-formed map at a live entry, or at an
    /// absent key.
    pub open spec fn valid(&self) -> bool {
        match self {
            Entry::Occupied(e) => e.valid(),
            Entry::Vacant(e) => e.valid(),
        }
    }

    /// The key the view is about.
    pub open spec fn key_spec(&self) -> u64 {
        match self {
            Entry::Occupied(e) => e.key,
            Entry::Vacant(e) => e.key,
        }
    }

    /// The position of the entry, or the one a new entry would take.
    pub fn index(&self) -> (r: usize)
        requires
            self.valid(),
        ensures
            match self {
                Entry::Occupied(e) => r == e.index,
                Entry::Vacant(e) => r as int == e.map@.len(),
            },
    {
        match self {
            Entry::Occupied(e) => e.index(),
            Entry::Vacant(e) => e.index(),
        }
    }

    /// The key of the entry.
    pub fn key(&self) -> (r: &u64)
        requires
            self.valid(),
        ensures
            *r == self.key_spec(),
    {
        match self {
            Entry::Occupied(e) => e.key(),
            Entry::Vacant(e) => e.key(),
        }
    }

    /// The value of a present key, or `default` inserted last for an absent
    /// one; either way a mutable reference to it.
    pub fn or_insert(self, default: u64) -> (r: &'a mut u64)
        requires
            self.valid(),
        ensures
            match self {
                Entry::Occupied(e) => {
                    &&& *r == e.map@[e.index as int].1
                    &&& final(e.map)@ == e.map@.update(e.index as int, (e.map@[e.index as int].0, *final(r)))
                    &&& final(e.map).wf()
                },
                Entry::Vacant(e) => {
                    &&& *r == default
                    &&& final(e.map)@ == e.map@.push((e.key, *final(r)))
                    &&& final(e.map).wf()
                },
            },
    {
        match self {
            Entry::Occupied(e) => e.into_mut(),
            Entry::Vacant(e) => e.insert(default),
        }
    }

    /// As [`Self::or_insert`], with the default made by `call` only when the
    /// key is absent.
    pub fn or_insert_with<F: FnOnce() -> u64>(self, call: F) -> (r: &'a mut u64)
        requires
            self.valid(),
            call.requires(()),
        ensures
            match self {
                Entry::Occupied(e) => {
                    &&& *r == e.map@[e.index as int].1
                    &&& final(e.map)@ == e.map@.update(e.index as int, (e.map@[e.index as int].0, *final(r)))
                    &&& final(e.map).wf()
                },
                Entry::Vacant(e) => {
                    &&& call.ensures((), *r)
                    &&& final(e.map)@ == e.map@.push((e.key, *final(r)))
                    &&& final(e.map).wf()
                },
            },
    {
        match self {
            Entry::Occupied(e) => e.into_mut(),
            Entry::Vacant(e) => {
                let v = call();
                e.insert(v)
            },
        }
    }

    /// As [`Self::or_insert_with`], with `call` given the key.
    pub fn or_insert_with_key<F: FnOnce(&u64) -> u64>(self, call: F) -> (r: &'a mut u64)
        requires
            self.valid(),
            forall|k: &u64| call.requires((k,)),
        ensures
            match self {
                Entry::Occupied(e) => {
                    &&& *r == e.map@[e.index as int].1
                    &&& final(e.map)@ == e.map@.update(e.index as int, (e.map@[e.index as int].0, *final(r)))
                    &&& final(e.map).wf()
                },
                Entry::Vacant(e) => {
                    &&& call.ensures((&e.key,), *r)
                    &&& final(e.map)@ == e.map@.push((e.key, *final(r)))
                    &&& final(e.map).wf()
                },
            },
    {
        match self {
            Entry::Occupied(e) => e.into_mut(),
            Entry::Vacant(e) => {
                let v = call(&e.key);
                e.insert(v)
            },
        }
    }

    /// Apply `f` to the value of a present key; a vacant view is returned
    /// unchanged.
    pub fn and_modify<F: FnOnce(&mut u64)>(self, f: F) -> (r: Self)
        requires
            self.valid(),
            forall|v: &mut u64| f.requires((v,)),
        ensures
            r.valid(),
            match (self, r) {
                (Entry::Occupied(e), Entry::Occupied(e2)) => {
                    &&& e2.index == e.index
                    &&& e2.key == e.key
                    &&& e2.map@.len() == e.map@.len()
                    &&& e2.map@ == e.map@.update(e.index as int, (e.key, e2.map@[e.index as int].1))
                    &&& exists|v: &mut u64| {
                        &&& *v == e.map@[e.index as int].1
                        &&& *final(v) == e2.map@[e.index as int].1
                        &&& #[trigger] f.ensures((v,), ())
                    }
                    &&& *final(e.map) == *final(e2.map)
                },
                (Entry::Vacant(e), Entry::Vacant(e2)) => e2 == e,
                _ => false,
            },
    {
        match self {
            Entry::Occupied(mut e) => {
                {
                    let m: &mut OrderMap = &mut *e.map;
                    let slot = m.get_index_mut(e.index).unwrap().1;
                    f(slot);
                }
                Entry::Occupied(e)
            },
            Entry::Vacant(e) => Entry::Vacant(e),
        }
    }

    /// As [`Self::or_insert`], with 0 as the default.
    pub fn or_default(self) -> (r: &'a mut u64)
        requires
            self.valid(),
        ensures
            match self {
                Entry::Occupied(e) => {
                    &&& *r == e.map@[e.index as int].1
                    &&& final(e.map)@ == e.map@.update(e.index as int, (e.map@[e.index as int].0, *final(r)))
                    &&& final(e.map).wf()
                },
                Entry::Vacant(e) => {
                    &&& *r == 0
                    &&& final(e.map)@ == e.map@.push((e.key, *final(r)))
                    &&& final(e.map).wf()
                },
            },
    {
        self.or_insert(0)
    }
}

impl<'a> OccupiedEntry<'a> {
    /// The view points at a live entry of a well-formed map, holding the
    /// view's key.
    pub open spec fn valid(&self) -> bool {
        self.map.wf() && self.index < self.map@.len() && self.map@[self.index as int].0 == self.key
    }

    /// The position of the entry.
    pub fn index(&self) -> (r: usize)
        ensures
            r == self.index,
    {
        self.index
    }

    /// The key of the entry.
    pub fn key(&self) -> (r: &u64)
        requires
            self.valid(),
        ensures
            *r == old(self.map)@[self.index as int].0,
    {
        self.map.get_index(self.index).unwrap().0
    }

    /// The value of the entry.
    pub fn get(&self) -> (r: &u64)
        requires
            self.valid(),
        ensures
            *r == old(self.map)@[self.index as int].1,
    {
        self.map.get_index(self.index).unwrap().1
    }

    /// A mutable reference to the value of the entry, for as long as the
    /// borrow of the view lives; writing through it changes that value only.
    pub fn get_mut(&mut self) -> (r: &mut u64)
        requires
            old(self).valid(),
        ensures
            *r == old(old(self).map)@[old(self).index as int].1,
            final(self).index == old(self).index,
            final(self).map@ == old(old(self).map)@.update(old(self).index as int,
                (old(old(self).map)@[old(self).index as int].0, *final(r))),
            final(self).valid(),
    {
        let ghost s = self.map@;
        let ghost i = self.index as int;
        let idx = self.index;
        let r = self.map.get_index_mut(idx).unwrap().1;
        proof {
            assert forall|v: u64| unique_keys(#[trigger] s.update(i, (s[i].0, v))) by {
                lemma_update_value_unique(s, i, v);
            }
        }
        r
    }

    /// A mutable reference to the value of the entry, for as long as the view
    /// lives.
    pub fn into_mut(self) -> (r: &'a mut u64)
        requires
            self.valid(),
        ensures
            *r == old(self.map)@[self.index as int].1,
            final(self.map)@ == old(self.map)@.update(self.index as int, (old(self.map)@[self.index as int].0, *final(r))),
            final(self.map).wf(),
    {
        let ghost s = self.map@;
        let ghost i = self.index as int;
        let m = self.map;
        let r = m.get_index_mut(self.index).unwrap().1;
        proof {
            assert forall|v: u64| unique_keys(#[trigger] s.update(i, (s[i].0, v))) by {
                lemma_update_value_unique(s, i, v);
            }
        }
        r
    }

    /// Replace the value of the entry and return the old one.
    pub fn insert(&mut self, value: u64) -> (r: u64)
        requires
            old(self).valid(),
        ensures
            final(self).index == old(self).index,
            final(self).valid(),
            r == old(old(self).map)@[old(self).index as int].1,
            final(self).map@ == old(old(self).map)@.update(old(self).index as int, (old(old(self).map)@[old(self).index as int].0, value)),
    {
        let ghost s = self.map@;
        let i = self.index;
        let slot = self.map.get_index_mut(i).unwrap().1;
        let old_value = *slot;
        *slot = value;
        proof {
            lemma_update_value_unique(s, i as int, value);
        }
        old_value
    }

    /// Remove the entry by shifting the later entries up, and return its
    /// value.
    pub fn remove(self) -> (r: u64)
        requires
            self.valid(),
        ensures
            r == old(self.map)@[self.index as int].1,
            final(self.map)@ == old(self.map)@.remove(self.index as int),
            final(self.map).wf(),
    {
        self.remove_entry().1
    }

    /// Remove the entry by shifting, as [`Self::remove`], and return the key
    /// and value.
    pub fn remove_entry(self) -> (r: (u64, u64))
        requires
            self.valid(),
        ensures
            r == old(self.map)@[self.index as int],
            final(self.map)@ == old(self.map)@.remove(self.index as int),
            final(self.map).wf(),
    {
        self.map.remove_index(self.index).unwrap()
    }

    /// Remove the entry by moving the last entry into its position, and
    /// return its value.
    pub fn swap_remove(self) -> (r: u64)
        requires
            self.valid(),
        ensures
            r == old(self.map)@[self.index as int].1,
            final(self.map)@ == swap_removed(old(self.map)@, self.index as int),
            final(self.map).wf(),
    {
        self.swap_remove_entry().1
    }

    /// Remove the entry by swapping, as [`Self::swap_remove`], and return the
    /// key and value.
    pub fn swap_remove_entry(self) -> (r: (u64, u64))
        requires
            self.valid(),
        ensures
            r == old(self.map)@[self.index as int],
            final(self.map)@ == swap_removed(old(self.map)@, self.index as int),
            final(self.map).wf(),
    {
        self.map.swap_remove_index(self.index).unwrap()
    }

    /// Move the entry to position `to`, shifting the entries in between.
    pub fn move_index(self, to: usize)
        requires
            self.valid(),
            to < self.map@.len(),
        ensures
            final(self.map)@ == moved(old(self.map)@, self.index as int, to as int),
            final(self.map).wf(),
    {
        self.map.move_index(self.index, to)
    }

    /// Exchange the entry with the one at position `other`.
    pub fn swap_indices(self, other: usize)
        requires
            self.valid(),
            other < self.map@.len(),
        ensures
            final(self.map)@ == swapped(old(self.map)@, self.index as int, other as int),
            final(self.map).wf(),
    {
        self.map.swap_indices(self.index, other);
        proof {
            lemma_swapped_unique(self.map@, self.index as int, other as int);
        }
    }
}

impl<'a> VacantEntry<'a> {
    /// The view points into a well-formed map that lacks the key.
    pub open spec fn valid(&self) -> bool {
        self.map.wf() && !has_key(self.map@, self.key)
    }

    /// The position a new entry would take: the end.
    pub fn index(&self) -> (r: usize)
        ensures
            r as int == old(self.map)@.len(),
    {
        self.map.len()
    }

    /// The key that was looked up.
    pub fn key(&self) -> (r: &u64)
        ensures
            *r == self.key,
    {
        &self.key
    }

    /// Give back the key.
    pub fn into_key(self) -> (r: u64)
        ensures
            r == self.key,
    {
        self.key
    }

    /// Insert the key with `value` last, and return a mutable reference to the
    /// value.
    pub fn insert(self, value: u64) -> (r: &'a mut u64)
        requires
            self.valid(),
        ensures
            *r == value,
            final(self.map)@ == old(self.map)@.push((self.key, *final(r))),
            final(self.map).wf(),
    {
        let ghost s = self.map@;
        let k = self.key;
        let m = self.map;
        let (i, _) = m.insert_full(k, value);
        let r = m.get_index_mut(i).unwrap().1;
        proof {
            assert forall|v: u64| unique_keys(#[trigger] s.push((k, v))) by {
                lemma_insert_fresh(s, s.len() as int, (k, v));
                assert(s.insert(s.len() as int, (k, v)) =~= s.push((k, v)));
            }
            assert(s.push((k, value)).update(i as int, (k, *final(r))) =~= s.push((k, *final(r))));
        }
        r
    }

    /// Insert the key with `value` at its place among keys kept in increasing
    /// order, and return the position and a mutable reference to the value.
    /// On keys not in that order the position is unspecified.
    pub fn insert_sorted(self, value: u64) -> (r: (usize, &'a mut u64))
        requires
            self.valid(),
        ensures
            r.0 <= old(self.map)@.len(),
            *r.1 == value,
            final(self.map)@ == old(self.map)@.insert(r.0 as int, (self.key, *final(r.1))),
            keys_sorted(old(self.map)@) ==> sorted_position(old(self.map)@, self.key, r.0 as int),
            final(self.map).wf(),
    {
        let ghost s = self.map@;
        let k = self.key;
        let m = self.map;
        let (i, _) = m.insert_sorted(k, value);
        let r = m.get_index_mut(i).unwrap().1;
        proof {
            assert forall|v: u64| unique_keys(#[trigger] s.insert(i as int, (k, v))) by {
                lemma_insert_fresh(s, i as int, (k, v));
            }
            assert(s.insert(i as int, (k, value)).update(i as int, (k, *final(r))) =~= s.insert(i as int, (k, *final(r))));
        }
        (i, r)
    }

    /// Insert the key with `value` at position `index`, shifting the later
    /// entries, and return a mutable reference to the value.
    pub fn shift_insert(self, index: usize, value: u64) -> (r: &'a mut u64)
        requires
            self.valid(),
            index <= self.map@.len(),
        ensures
            *r == value,
            final(self.map)@ == old(self.map)@.insert(index as int, (self.key, *final(r))),
            final(self.map).wf(),
    {
        let ghost s = self.map@;
        let k = self.key;
        let m = self.map;
        m.shift_insert(index, k, value);
        let r = m.get_index_mut(index).unwrap().1;
        proof {
            assert forall|v: u64| unique_keys(#[trigger] s.insert(index as int, (k, v))) by {
                lemma_insert_fresh(s, index as int, (k, v));
            }
            assert(s.insert(index as int, (k, value)).update(index as int, (k, *final(r))) =~= s.insert(index as int, (k, *final(r))));
        }
        r
    }
}

impl<'a> IndexedEntry<'a> {
    /// The view points at a live entry of a well-formed map.
    pub open spec fn valid(&self) -> bool {
        self.map.wf() && self.index < self.map@.len()
    }

    /// The position of the entry.
    pub fn index(&self) -> (r: usize)
        ensures
            r == self.index,
    {
        self.index
    }

    /// The key of the entry.
    pub fn key(&self) -> (r: &u64)
        requires
            self.valid(),
        ensures
            *r == old(self.map)@[self.index as int].0,
    {
        self.map.get_index(self.index).unwrap().0
    }

    /// The value of the entry.
    pub fn get(&self) -> (r: &u64)
        requires
            self.valid(),
        ensures
            *r == old(self.map)@[self.index as int].1,
    {
        self.map.get_index(self.index).unwrap().1
    }

    /// A mutable reference to the value of the entry, for as long as the
    /// borrow of the view lives; writing through it changes that value only.
    pub fn get_mut(&mut self) -> (r: &mut u64)
        requires
            old(self).valid(),
        ensures
            *r == old(old(self).map)@[old(self).index as int].1,
            final(self).index == old(self).index,
            final(self).map@ == old(old(self).map)@.update(old(self).index as int,
                (old(old(self).map)@[old(self).index as int].0, *final(r))),
            final(self).valid(),
    {
        let ghost s = self.map@;
        let ghost i = self.index as int;
        let idx = self.index;
        let r = self.map.get_index_mut(idx).unwrap().1;
        proof {
            assert forall|v: u64| unique_keys(#[trigger] s.update(i, (s[i].0, v))) by {
                lemma_update_value_unique(s, i, v);
            }
        }
        r
    }

    /// Replace the value of the entry and return the old one.
    pub fn insert(&mut self, value: u64) -> (r: u64)
        requires
            old(self).valid(),
        ensures
            final(self).index == old(self).index,
            final(self).valid(),
            r == old(old(self).map)@[old(self).index as int].1,
            final(self).map@ == old(old(self).map)@.update(old(self).index as int, (old(old(self).map)@[old(self).index as int].0, value)),
    {
        let ghost s = self.map@;
        let i = self.index;
        let slot = self.map.get_index_mut(i).unwrap().1;
        let old_value = *slot;
        *slot = value;
        proof {
            lemma_update_value_unique(s, i as int, value);
        }
        old_value
    }

    /// A mutable reference to the value of the entry, for as long as the view
    /// lives.
    pub fn into_mut(self) -> (r: &'a mut u64)
        requires
            self.valid(),
        ensures
            *r == old(self.map)@[self.index as int].1,
            final(self.map)@ == old(self.map)@.update(self.index as int, (old(self.map)@[self.index as int].0, *final(r))),
            final(self.map).wf(),
    {
        let ghost s = self.map@;
        let ghost i = self.index as int;
        let m = self.map;
        let r = m.get_index_mut(self.index).unwrap().1;
        proof {
            assert forall|v: u64| unique_keys(#[trigger] s.update(i, (s[i].0, v))) by {
                lemma_update_value_unique(s, i, v);
            }
        }
        r
    }

    /// Remove the entry by shifting the later entries up, and return the key
    /// and value.
    pub fn remove_entry(self) -> (r: (u64, u64))
        requires
            self.valid(),
        ensures
            r == old(self.map)@[self.index as int],
            final(self.map)@ == old(self.map)@.remove(self.index as int),
            final(self.map).wf(),
    {
        self.map.remove_index(self.index).unwrap()
    }

    /// Remove the entry by shifting, and return its value.
    pub fn remove(self) -> (r: u64)
        requires
            self.valid(),
        ensures
            r == old(self.map)@[self.index as int].1,
            final(self.map)@ == old(self.map)@.remove(self.index as int),
            final(self.map).wf(),
    {
        self.remove_entry().1
    }

    /// Remove the entry by moving the last entry into its position, and
    /// return the key and value.
    pub fn swap_remove_entry(self) -> (r: (u64, u64))
        requires
            self.valid(),
        ensures
            r == old(self.map)@[self.index as int],
            final(self.map)@ == swap_removed(old(self.map)@, self.index as int),
            final(self.map).wf(),
    {
        self.map.swap_remove_index(self.index).unwrap()
    }

    /// Remove the entry by swapping, and return its value.
    pub fn swap_remove(self) -> (r: u64)
        requires
            self.valid(),
        ensures
            r == old(self.map)@[self.index as int].1,
            final(self.map)@ == swap_removed(old(self.map)@, self.index as int),
            final(self.map).wf(),
    {
        self.swap_remove_entry().1
    }

    /// Move the entry to position `to`, shifting the entries in between.
    pub fn move_index(self, to: usize)
        requires
            self.valid(),
            to < self.map@.len(),
        ensures
            final(self.map)@ == moved(old(self.map)@, self.index as int, to as int),
            final(self.map).wf(),
    {
        self.map.move_index(self.index, to)
    }

    /// Exchange the entry with the one at position `other`.
    pub fn swap_indices(self, other: usize)
        requires
            self.valid(),
            other < self.map@.len(),
        ensures
            final(self.map)@ == swapped(old(self.map)@, self.index as int, other as int),
            final(self.map).wf(),
    {
        self.map.swap_indices(self.index, other);
        proof {
            lemma_swapped_unique(self.map@, self.index as int, other as int);
        }
    }
}

impl OrderMap {
    /// The view of `key`: occupied at the key's position when present, else
    /// vacant.
    pub fn entry(&mut self, key: u64) -> (r: Entry<'_>)
        requires
            old(self).wf(),
        ensures
            r.valid(),
            r.key_spec() == key,
            match r {
                Entry::Occupied(e) => {
                    &&& has_key(old(self)@, key)
                    &&& e.index as int == key_index(old(self)@, key)
                    &&& *e.map == *old(self)
                    &&& *final(e.map) == *final(self)
                },
                Entry::Vacant(e) => {
                    &&& !has_key(old(self)@, key)
                    &&& *e.map == *old(self)
                    &&& *final(e.map) == *final(self)
                },
            },
    {
        // The length fits in `usize`, and so does every position below it.
        let _len = self.len();
        match self.get_index_of(&key) {
            Some(i) => {
                proof {
                    let s = self@;
                    let j = choose|j: int| 0 <= j < s.len() && #[trigger] s[j].0 == key;
                    assert(s[key_index(s, key)].0 == key);
                }
                let e = OccupiedEntry { map: self, index: i, key };
                Entry::Occupied(e)
            },
            None => Entry::Vacant(VacantEntry { map: self, key }),
        }
    }

    /// The view of the entry at position `index`, if in range.
    pub fn get_index_entry(&mut self, index: usize) -> (r: Option<IndexedEntry<'_>>)
        requires
            old(self).wf(),
        ensures
            index >= old(self)@.len() ==> r is None && *final(self) == *old(self),
            index < old(self)@.len() ==> (r matches Some(e) && {
                &&& e.valid()
                &&& e.index == index
                &&& *e.map == *old(self)
                &&& *final(e.map) == *final(self)
            }),
    {
        if index < self.len() {
            Some(IndexedEntry { map: self, index })
        } else {
            None
        }
    }
}

} // verus!

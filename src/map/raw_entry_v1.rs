//! A lower-level entry path: builders that look an entry up by key and hand
//! out a view of it, occupied or vacant, through which the caller also
//! chooses the key to insert.
//!
//! The keys of this map are integers: any change to one changes its hash and
//! its equality. Keys are therefore handed out for reading, values for
//! writing, and a vacant view inserts only a key that is absent.
use vstd::prelude::*;
use crate::map::OrderMap;
use crate::map::mutable::Sealed;
use crate::model::{has_key, unique_keys, key_index, moved, swap_removed};
use crate::lemmas::{lemma_insert_fresh, lemma_update_value_unique};

verus! {

/// Opt-in access to the raw entry builders of a map.
pub trait RawEntryApiV1: Sealed {
    /// The entries, in their order.
    spec fn raw_entries(&self) -> Seq<(u64, u64)>;

    /// No key occurs twice.
    spec fn raw_wf(&self) -> bool;

    /// A builder for read-only lookups.
    fn raw_entry_v1(&self) -> (r: RawEntryBuilder<'_>)
        ensures
            r.map@ == self.raw_entries(),
    ;

    /// A builder for views that can change the map.
    fn raw_entry_mut_v1(&mut self) -> (r: RawEntryBuilderMut<'_>)
        requires
            old(self).raw_wf(),
        ensures
            r.map.wf(),
            r.map@ == old(self).raw_entries(),
            final(r.map)@ == final(self).raw_entries(),
            final(r.map).wf() ==> final(self).raw_wf(),
    ;
}

impl RawEntryApiV1 for OrderMap {
    open spec fn raw_entries(&self) -> Seq<(u64, u64)> {
        self@
    }

    open spec fn raw_wf(&self) -> bool {
        self.wf()
    }

    fn raw_entry_v1(&self) -> (r: RawEntryBuilder<'_>) {
        RawEntryBuilder { map: self }
    }

    fn raw_entry_mut_v1(&mut self) -> (r: RawEntryBuilderMut<'_>) {
        RawEntryBuilderMut { map: self }
    }
}

/// A builder for read-only lookups in a map.
pub struct RawEntryBuilder<'a> {
    /// The map looked into.
    pub map: &'a OrderMap,
}

impl<'a> RawEntryBuilder<'a> {
    /// The stored key and its value, if `key` is present.
    pub fn from_key(self, key: &u64) -> (r: Option<(&'a u64, &'a u64)>)
        ensures
            has_key(self.map@, *key) ==> r == Some((key, &self.map@[key_index(self.map@, *key)].1)),
            !has_key(self.map@, *key) ==> r is None,
    {
        self.map.get_key_value(key)
    }

    /// The position, stored key and value, if `key` is present.
    pub fn from_key_full(self, key: &u64) -> (r: Option<(usize, &'a u64, &'a u64)>)
        ensures
            has_key(self.map@, *key) ==> r == Some((
                key_index(self.map@, *key) as usize,
                key,
                &self.map@[key_index(self.map@, *key)].1,
            )),
            !has_key(self.map@, *key) ==> r is None,
    {
        self.map.get_full(key)
    }
}

/// A builder for views that can change a map.
pub struct RawEntryBuilderMut<'a> {
    /// The borrowed map.
    pub map: &'a mut OrderMap,
}

impl<'a> RawEntryBuilderMut<'a> {
    /// The view of `key`: occupied at its position when present, else
    /// vacant.
    pub fn from_key(self, key: &u64) -> (r: RawEntryMut<'a>)
        requires
            self.map.wf(),
        ensures
            r.valid(),
            match r {
                RawEntryMut::Occupied(e) => {
                    &&& has_key(old(self.map)@, *key)
                    &&& e.index as int == key_index(old(self.map)@, *key)
                    &&& *e.map == *old(self.map)
                    &&& *final(e.map) == *final(self.map)
                },
                RawEntryMut::Vacant(e) => {
                    &&& !has_key(old(self.map)@, *key)
                    &&& *e.map == *old(self.map)
                    &&& *final(e.map) == *final(self.map)
                },
            },
    {
        let m = self.map;
        // The length fits in `usize`, and so does every position below it.
        let _len = m.len();
        match m.get_index_of(key) {
            Some(i) => {
                proof {
                    let s = m@;
                    let j = choose|j: int| 0 <= j < s.len() && #[trigger] s[j].0 == *key;
                    assert(s[key_index(s, *key)].0 == *key);
                }
                RawEntryMut::Occupied(RawOccupiedEntryMut { map: m, index: i })
            },
            None => RawEntryMut::Vacant(RawVacantEntryMut { map: m }),
        }
    }
}

/// A raw view of a map, occupied or vacant.
pub enum RawEntryMut<'a> {
    /// The looked-up key is present.
    Occupied(RawOccupiedEntryMut<'a>),
    /// The looked-up key is absent.
    Vacant(RawVacantEntryMut<'a>),
}

/// A raw view of a present entry, by its position.
pub struct RawOccupiedEntryMut<'a> {
    /// The borrowed map.
    pub map: &'a mut OrderMap,
    /// The position of the entry.
    pub index: usize,
}

/// A raw view of a map at which an absent key can be inserted.
pub struct RawVacantEntryMut<'a> {
    /// The borrowed map.
    pub map: &'a mut OrderMap,
}

impl<'a> RawEntryMut<'a> {
    /// The view points into a well-formed map, at a live entry when
    /// occupied.
    pub open spec fn valid(&self) -> bool {
        match self {
            RawEntryMut::Occupied(e) => e.valid(),
            RawEntryMut::Vacant(e) => e.valid(),
        }
    }

    /// The position of the entry, or the one a new entry would take.
    pub fn index(&self) -> (r: usize)
        requires
            self.valid(),
        ensures
            match self {
                RawEntryMut::Occupied(e) => r == e.index,
                RawEntryMut::Vacant(e) => r as int == e.map@.len(),
            },
    {
        match self {
            RawEntryMut::Occupied(e) => e.index(),
            RawEntryMut::Vacant(e) => e.index(),
        }
    }

    /// The entry of a present key, or `(default_key, default_value)` inserted
    /// last, which requires the default key to be absent; either way the key
    /// and a mutable reference to the value.
    pub fn or_insert(self, default_key: u64, default_value: u64) -> (r: (&'a u64, &'a mut u64))
        requires
            self.valid(),
            self matches RawEntryMut::Vacant(e) ==> !has_key(e.map@, default_key),
        ensures
            match self {
                RawEntryMut::Occupied(e) => {
                    &&& *r.0 == e.map@[e.index as int].0
                    &&& *r.1 == e.map@[e.index as int].1
                    &&& final(e.map)@ == e.map@.update(e.index as int, (e.map@[e.index as int].0, *final(r.1)))
                    &&& final(e.map).wf()
                },
                RawEntryMut::Vacant(e) => {
                    &&& *r.0 == default_key
                    &&& *r.1 == default_value
                    &&& final(e.map)@ == e.map@.push((default_key, *final(r.1)))
                    &&& final(e.map).wf()
                },
            },
    {
        match self {
            RawEntryMut::Occupied(e) => e.into_key_value_mut(),
            RawEntryMut::Vacant(e) => e.insert(default_key, default_value),
        }
    }

    /// As [`Self::or_insert`], with the pair made by `call` only when the
    /// view is vacant; the key it makes must be absent.
    pub fn or_insert_with<F: FnOnce() -> (u64, u64)>(self, call: F) -> (r: (&'a u64, &'a mut u64))
        requires
            self.valid(),
            call.requires(()),
            self matches RawEntryMut::Vacant(e) ==> forall|p: (u64, u64)|
                #[trigger] call.ensures((), p) ==> !has_key(e.map@, p.0),
        ensures
            match self {
                RawEntryMut::Occupied(e) => {
                    &&& *r.0 == e.map@[e.index as int].0
                    &&& *r.1 == e.map@[e.index as int].1
                    &&& final(e.map)@ == e.map@.update(e.index as int, (e.map@[e.index as int].0, *final(r.1)))
                    &&& final(e.map).wf()
                },
                RawEntryMut::Vacant(e) => {
                    &&& call.ensures((), (*r.0, *r.1))
                    &&& final(e.map)@ == e.map@.push((*r.0, *final(r.1)))
                    &&& final(e.map).wf()
                },
            },
    {
        match self {
            RawEntryMut::Occupied(e) => e.into_key_value_mut(),
            RawEntryMut::Vacant(e) => {
                let (k, v) = call();
                e.insert(k, v)
            },
        }
    }

    /// Apply `f` to the key and value of an occupied view; a vacant view is
    /// returned unchanged.
    pub fn and_modify<F: FnOnce(&u64, &mut u64)>(self, f: F) -> (r: Self)
        requires
            self.valid(),
            forall|k: &u64, v: &mut u64| f.requires((k, v)),
        ensures
            r.valid(),
            match (self, r) {
                (RawEntryMut::Occupied(e), RawEntryMut::Occupied(e2)) => {
                    &&& e2.index == e.index
                    &&& e2.map@ == e.map@.update(e.index as int, (e.map@[e.index as int].0, e2.map@[e.index as int].1))
                    &&& exists|v: &mut u64| {
                        &&& *v == e.map@[e.index as int].1
                        &&& *final(v) == e2.map@[e.index as int].1
                        &&& #[trigger] f.ensures((&e.map@[e.index as int].0, v), ())
                    }
                    &&& *final(e.map) == *final(e2.map)
                },
                (RawEntryMut::Vacant(e), RawEntryMut::Vacant(e2)) => e2 == e,
                _ => false,
            },
    {
        match self {
            RawEntryMut::Occupied(mut e) => {
                {
                    let m: &mut OrderMap = &mut *e.map;
                    let (k, v) = m.get_index_mut(e.index).unwrap();
                    f(k, v);
                }
                RawEntryMut::Occupied(e)
            },
            RawEntryMut::Vacant(e) => RawEntryMut::Vacant(e),
        }
    }
}

impl<'a> RawOccupiedEntryMut<'a> {
    /// The view points at a live entry of a well-formed map.
    pub open spec fn valid(&self) -> bool {
        self.map.wf() && self.index < self.map@.len()
    }

    /// The position of the entry.
    pub fn index(&self) -> (r: usize)
        ensures
            r == self.index,
    {
        self.index
    }

    /// The key of the entry.
    pub fn key(&self) -> (r: &u64)
        requires
            self.valid(),
        ensures
            *r == old(self.map)@[self.index as int].0,
    {
        self.map.get_index(self.index).unwrap().0
    }

    /// The value of the entry.
    pub fn get(&self) -> (r: &u64)
        requires
            self.valid(),
        ensures
            *r == old(self.map)@[self.index as int].1,
    {
        self.map.get_index(self.index).unwrap().1
    }

    /// The key and value of the entry.
    pub fn get_key_value(&self) -> (r: (&u64, &u64))
        requires
            self.valid(),
        ensures
            (*r.0, *r.1) == old(self.map)@[self.index as int],
    {
        self.map.get_index(self.index).unwrap()
    }

    /// The key of the entry and a mutable reference to its value, for as
    /// long as the view lives.
    pub fn into_key_value_mut(self) -> (r: (&'a u64, &'a mut u64))
        requires
            self.valid(),
        ensures
            *r.0 == old(self.map)@[self.index as int].0,
            *r.1 == old(self.map)@[self.index as int].1,
            final(self.map)@ == old(self.map)@.update(self.index as int, (old(self.map)@[self.index as int].0, *final(r.1))),
            final(self.map).wf(),
    {
        let ghost s = self.map@;
        let ghost i = self.index as int;
        let m = self.map;
        let r = m.get_index_mut(self.index).unwrap();
        proof {
            assert forall|v: u64| unique_keys(#[trigger] s.update(i, (s[i].0, v))) by {
                lemma_update_value_unique(s, i, v);
            }
        }
        r
    }

    /// A mutable reference to the value of the entry, for as long as the view
    /// lives.
    pub fn into_mut(self) -> (r: &'a mut u64)
        requires
            self.valid(),
        ensures
            *r == old(self.map)@[self.index as int].1,
            final(self.map)@ == old(self.map)@.update(self.index as int, (old(self.map)@[self.index as int].0, *final(r))),
            final(self.map).wf(),
    {
        self.into_key_value_mut().1
    }

    /// Replace the value of the entry and return the old one.
    pub fn insert(&mut self, value: u64) -> (r: u64)
        requires
            old(self).valid(),
        ensures
            final(self).index == old(self).index,
            final(self).valid(),
            r == old(old(self).map)@[old(self).index as int].1,
            final(self).map@ == old(old(self).map)@.update(old(self).index as int, (old(old(self).map)@[old(self).index as int].0, value)),
    {
        let ghost s = self.map@;
        let i = self.index;
        let slot = self.map.get_index_mut(i).unwrap().1;
        let old_value = *slot;
        *slot = value;
        proof {
            lemma_update_value_unique(s, i as int, value);
        }
        old_value
    }

    /// Remove the entry by shifting the later entries up, and return the key
    /// and value.
    pub fn remove_entry(self) -> (r: (u64, u64))
        requires
            self.valid(),
        ensures
            r == old(self.map)@[self.index as int],
            final(self.map)@ == old(self.map)@.remove(self.index as int),
            final(self.map).wf(),
    {
        self.map.remove_index(self.index).unwrap()
    }

    /// Remove the entry by shifting, and return its value.
    pub fn remove(self) -> (r: u64)
        requires
            self.valid(),
        ensures
            r == old(self.map)@[self.index as int].1,
            final(self.map)@ == old(self.map)@.remove(self.index as int),
            final(self.map).wf(),
    {
        self.remove_entry().1
    }

    /// Remove the entry by moving the last entry into its position, and
    /// return the key and value.
    pub fn swap_remove_entry(self) -> (r: (u64, u64))
        requires
            self.valid(),
        ensures
            r == old(self.map)@[self.index as int],
            final(self.map)@ == swap_removed(old(self.map)@, self.index as int),
            final(self.map).wf(),
    {
        self.map.swap_remove_index(self.index).unwrap()
    }

    /// Remove the entry by swapping, and return its value.
    pub fn swap_remove(self) -> (r: u64)
        requires
            self.valid(),
        ensures
            r == old(self.map)@[self.index as int].1,
            final(self.map)@ == swap_removed(old(self.map)@, self.index as int),
            final(self.map).wf(),
    {
        self.swap_remove_entry().1
    }

    /// Move the entry to position `to`, shifting the entries in between.
    pub fn move_index(self, to: usize)
        requires
            self.valid(),
            to < self.map@.len(),
        ensures
            final(self.map)@ == moved(old(self.map)@, self.index as int, to as int),
            final(self.map).wf(),
    {
        self.map.move_index(self.index, to)
    }
}

impl<'a> RawVacantEntryMut<'a> {
    /// The view points into a well-formed map.
    pub open spec fn valid(&self) -> bool {
        self.map.wf()
    }

    /// The position a new entry would take: the end.
    pub fn index(&self) -> (r: usize)
        ensures
            r as int == old(self.map)@.len(),
    {
        self.map.len()
    }

    /// Insert the absent `key` with `value` last, and return the key and a
    /// mutable reference to the value.
    pub fn insert(self, key: u64, value: u64) -> (r: (&'a u64, &'a mut u64))
        requires
            self.valid(),
            !has_key(self.map@, key),
        ensures
            *r.0 == key,
            *r.1 == value,
            final(self.map)@ == old(self.map)@.push((key, *final(r.1))),
            final(self.map).wf(),
    {
        let ghost s = self.map@;
        let m = self.map;
        let (i, _) = m.insert_full(key, value);
        let r = m.get_index_mut(i).unwrap();
        proof {
            assert forall|v: u64| unique_keys(#[trigger] s.push((key, v))) by {
                lemma_insert_fresh(s, s.len() as int, (key, v));
                assert(s.insert(s.len() as int, (key, v)) =~= s.push((key, v)));
            }
            assert(s.push((key, value)).update(i as int, (key, *final(r.1))) =~= s.push((key, *final(r.1))));
        }
        r
    }

    /// Insert the absent `key` with `value` at position `index`, shifting the
    /// later entries, and return the key and a mutable reference to the
    /// value.
    pub fn shift_insert(self, index: usize, key: u64, value: u64) -> (r: (&'a u64, &'a mut u64))
        requires
            self.valid(),
            !has_key(self.map@, key),
            index <= self.map@.len(),
        ensures
            *r.0 == key,
            *r.1 == value,
            final(self.map)@ == old(self.map)@.insert(index as int, (key, *final(r.1))),
            final(self.map).wf(),
    {
        let ghost s = self.map@;
        let m = self.map;
        m.shift_insert(index, key, value);
        let r = m.get_index_mut(index).unwrap();
        proof {
            assert forall|v: u64| unique_keys(#[trigger] s.insert(index as int, (key, v))) by {
                lemma_insert_fresh(s, index as int, (key, v));
            }
            assert(s.insert(index as int, (key, value)).update(index as int, (key, *final(r.1))) =~= s.insert(index as int, (key, *final(r.1))));
        }
        r
    }
}

} // verus!

//! [`OrderMap`]: a hash map whose iteration order is the order of insertion.
//!
//! The map is modelled by its view, the sequence of its entries in their
//! order; positions are `0..len` with no holes and no key occurs twice.
//! Removal comes in two disciplines: shifting (`remove`, `remove_index`)
//! keeps the order of the remaining entries, swapping (`swap_remove`,
//! `swap_remove_index`) moves the last entry into the gap.
use vstd::prelude::*;
use crate::inner::{entries, im_new, im_with_capacity, im_len, im_clear, im_truncate, im_insert_full,
    im_insert_sorted, im_shift_insert, im_get_index_of, im_contains_key, im_get, im_get_full,
    im_get_full_mut, im_get_index, im_get_index_mut, im_shift_remove_full, im_swap_remove_full, im_pop,
    im_shift_remove_index, im_swap_remove_index, im_move_index, im_swap_indices, im_sort_keys,
    im_sort_unstable_keys, im_reverse, im_binary_search_keys, im_split_off, im_drain, im_splice,
    im_try_reserve, im_try_reserve_exact, im_shrink_to, im_sort_by, im_sort_unstable_by, im_sort_by_cached_key, im_retain,
    im_binary_search_by, im_binary_search_by_key, im_partition_point};
use crate::model::{has_key, unique_keys, key_index, value_of, inserted, inserted_all, moved,
    swap_removed, swapped, reversed, keys_sorted, same_entries, search_result, sorted_position,
    without_key, spliced, lex_cmp, hash_words, selected, arranged_by, total_order, sorted_by, ties_kept,
    ordered_along, found_by, keyed_along, found_by_key, partitioned,
    lemma_key_index};
use crate::lemmas::{lemma_without_key_insert_unique, lemma_remove_unique,
    lemma_subrange_unique, lemma_spliced_unique, lemma_sorted_unique};
use indexmap::IndexMap;

pub mod entry;
mod mutable;
pub mod raw_entry_v1;

pub use self::entry::{Entry, IndexedEntry, OccupiedEntry, VacantEntry};
pub use self::mutable::{MutableEntryKey, MutableKeys};
pub use self::raw_entry_v1::RawEntryApiV1;

verus! {

/// The allocator could not provide the room asked for, or the room asked
/// for exceeds what a map can address.
#[derive(Debug, PartialEq, Eq, Structural)]
pub struct ReserveError {}

/// A hash map whose entries keep the order in which they were inserted,
/// addressable by position `0..len`.
#[derive(Debug)]
pub struct OrderMap {
    inner: IndexMap<u64, u64>,
}

impl View for OrderMap {
    type V = Seq<(u64, u64)>;

    closed spec fn view(&self) -> Seq<(u64, u64)> {
        entries(self.inner)
    }
}

impl OrderMap {
    /// Well-formedness: no key occurs twice.
    pub open spec fn wf(&self) -> bool {
        unique_keys(self@)
    }

    /// Create an empty map.
    pub fn new() -> (r: Self)
        ensures
            r.wf(),
            r@ == Seq::<(u64, u64)>::empty(),
    {
        OrderMap { inner: im_new() }
    }

    /// Create an empty map with room for `n` entries.
    pub fn with_capacity(n: usize) -> (r: Self)
        ensures
            r.wf(),
            r@ == Seq::<(u64, u64)>::empty(),
    {
        OrderMap { inner: im_with_capacity(n) }
    }

    /// Ask for room for `additional` more entries without aborting when it
    /// cannot be had. The entries stay as they are, whether or not the room
    /// was granted.
    pub fn try_reserve(&mut self, additional: usize) -> (r: Result<(), ReserveError>)
        requires
            old(self).wf(),
        ensures
            final(self).wf(),
            final(self)@ == old(self)@,
    {
        match im_try_reserve(&mut self.inner, additional) {
            Ok(()) => Ok(()),
            Err(_) => Err(ReserveError {}),
        }
    }

    /// As [`Self::try_reserve`], without deliberate over-allocation.
    pub fn try_reserve_exact(&mut self, additional: usize) -> (r: Result<(), ReserveError>)
        requires
            old(self).wf(),
        ensures
            final(self).wf(),
            final(self)@ == old(self)@,
    {
        match im_try_reserve_exact(&mut self.inner, additional) {
            Ok(()) => Ok(()),
            Err(_) => Err(ReserveError {}),
        }
    }

    /// Shrink the capacity as much as possible; the entries stay as they are.
    pub fn shrink_to_fit(&mut self)
        requires
            old(self).wf(),
        ensures
            final(self).wf(),
            final(self)@ == old(self)@,
    {
        im_shrink_to(&mut self.inner, 0)
    }

    /// Shrink the capacity to no less than `min_capacity`; the entries stay
    /// as they are.
    pub fn shrink_to(&mut self, min_capacity: usize)
        requires
            old(self).wf(),
        ensures
            final(self).wf(),
            final(self)@ == old(self)@,
    {
        im_shrink_to(&mut self.inner, min_capacity)
    }

    /// The number of entries.
    pub fn len(&self) -> (r: usize)
        ensures
            r as int == self@.len(),
    {
        im_len(&self.inner)
    }

    /// Whether the map has no entries.
    pub fn is_empty(&self) -> (r: bool)
        ensures
            r == (self@.len() == 0),
    {
        im_len(&self.inner) == 0
    }

    /// Remove every entry.
    pub fn clear(&mut self)
        ensures
            final(self).wf(),
            final(self)@ == Seq::<(u64, u64)>::empty(),
    {
        im_clear(&mut self.inner)
    }

    /// Keep the first `len` entries and drop the rest; no effect when the map
    /// is not longer than `len`.
    pub fn truncate(&mut self, len: usize)
        requires
            old(self).wf(),
        ensures
            final(self).wf(),
            len < old(self)@.len() ==> final(self)@ == old(self)@.subrange(0, len as int),
            len >= old(self)@.len() ==> final(self)@ == old(self)@,
    {
        im_truncate(&mut self.inner, len);
        proof {
            if len < old(self)@.len() {
                lemma_subrange_unique(old(self)@, 0, len as int);
            }
        }
    }

    /// Insert `key` with `value`. An existing key keeps its position, takes
    /// the new value and its old value is returned; a new key goes last.
    pub fn insert(&mut self, key: u64, value: u64) -> (r: Option<u64>)
        requires
            old(self).wf(),
        ensures
            final(self).wf(),
            r == value_of(old(self)@, key),
            final(self)@ == inserted(old(self)@, key, value),
    {
        self.insert_full(key, value).1
    }

    /// Insert `key` with `value` and return the key's position with the value
    /// it replaced, as [`Self::insert`] does.
    pub fn insert_full(&mut self, key: u64, value: u64) -> (r: (usize, Option<u64>))
        requires
            old(self).wf(),
        ensures
            final(self).wf(),
            has_key(old(self)@, key) ==> r.0 as int == key_index(old(self)@, key),
            !has_key(old(self)@, key) ==> r.0 as int == old(self)@.len(),
            r.1 == value_of(old(self)@, key),
            final(self)@ == inserted(old(self)@, key, value),
            final(self)@[r.0 as int] == (key, value),
    {
        let r = im_insert_full(&mut self.inner, key, value);
        proof {
            if has_key(old(self)@, key) {
                lemma_key_index(old(self)@, key, r.0 as int);
            }
        }
        r
    }

    /// Insert `key` with `value` at its place among keys kept in increasing
    /// order. An existing key found there keeps its position and takes the
    /// new value. Returns the position and the replaced value.
    ///
    /// When the keys are not in increasing order the position is unspecified,
    /// but the pair is still moved or inserted there and no key occurs twice.
    pub fn insert_sorted(&mut self, key: u64, value: u64) -> (r: (usize, Option<u64>))
        requires
            old(self).wf(),
        ensures
            final(self).wf(),
            r.0 <= without_key(old(self)@, key).len(),
            r.1 == value_of(old(self)@, key),
            final(self)@ == without_key(old(self)@, key).insert(r.0 as int, (key, value)),
            keys_sorted(old(self)@) ==> keys_sorted(final(self)@),
            keys_sorted(old(self)@) ==> sorted_position(without_key(old(self)@, key), key, r.0 as int),
            keys_sorted(old(self)@) && has_key(old(self)@, key) ==> {
                &&& r.0 as int == key_index(old(self)@, key)
                &&& final(self)@ == old(self)@.update(r.0 as int, (key, value))
            },
    {
        let r = im_insert_sorted(&mut self.inner, key, value);
        proof {
            lemma_without_key_insert_unique(old(self)@, key, value, r.0 as int);
            if keys_sorted(old(self)@) {
                crate::lemmas::lemma_insert_sorted_position(old(self)@, key, value, r.0 as int);
            }
        }
        r
    }

    /// Put `key` with `value` at position `index`: a new key is inserted
    /// there, an existing key moves there, the entries in between shifting by
    /// one. Returns the replaced value. An existing key cannot move to the
    /// end position `len`.
    pub fn shift_insert(&mut self, index: usize, key: u64, value: u64) -> (r: Option<u64>)
        requires
            old(self).wf(),
            index <= old(self)@.len(),
            has_key(old(self)@, key) ==> index < old(self)@.len(),
        ensures
            final(self).wf(),
            r == value_of(old(self)@, key),
            final(self)@ == without_key(old(self)@, key).insert(index as int, (key, value)),
            final(self)@[index as int] == (key, value),
    {
        let r = im_shift_insert(&mut self.inner, index, key, value);
        proof {
            lemma_without_key_insert_unique(old(self)@, key, value, index as int);
        }
        r
    }

    /// Whether `key` is present.
    pub fn contains_key(&self, key: &u64) -> (r: bool)
        ensures
            r == has_key(self@, *key),
    {
        im_contains_key(&self.inner, key)
    }

    /// The value stored under `key`, if present.
    pub fn get(&self, key: &u64) -> (r: Option<&u64>)
        ensures
            r == match value_of(self@, *key) {
                Some(v) => Some(&v),
                None => None::<&u64>,
            },
    {
        im_get(&self.inner, key)
    }

    /// The stored key and its value, if `key` is present.
    pub fn get_key_value(&self, key: &u64) -> (r: Option<(&u64, &u64)>)
        ensures
            has_key(self@, *key) ==> r == Some((key, &self@[key_index(self@, *key)].1)),
            !has_key(self@, *key) ==> r is None,
    {
        match im_get_full(&self.inner, key) {
            Some((_, k, v)) => Some((k, v)),
            None => None,
        }
    }

    /// The position, key and value of `key`'s entry, if present.
    pub fn get_full(&self, key: &u64) -> (r: Option<(usize, &u64, &u64)>)
        ensures
            has_key(self@, *key) ==> r == Some((
                key_index(self@, *key) as usize,
                key,
                &self@[key_index(self@, *key)].1,
            )),
            !has_key(self@, *key) ==> r is None,
    {
        im_get_full(&self.inner, key)
    }

    /// The position of `key`, if present.
    pub fn get_index_of(&self, key: &u64) -> (r: Option<usize>)
        ensures
            has_key(self@, *key) ==> r == Some(key_index(self@, *key) as usize),
            !has_key(self@, *key) ==> r is None,
    {
        im_get_index_of(&self.inner, key)
    }

    /// A mutable reference to the value stored under `key`, if present;
    /// writing through it changes that value only.
    pub fn get_mut(&mut self, key: &u64) -> (r: Option<&mut u64>)
        requires
            old(self).wf(),
        ensures
            !has_key(old(self)@, *key) ==> r is None && final(self)@ == old(self)@,
            has_key(old(self)@, *key) ==> (r matches Some(v) && {
                let i = key_index(old(self)@, *key);
                &&& *v == old(self)@[i].1
                &&& final(self)@ == old(self)@.update(i, (*key, *final(v)))
            }),
    {
        match im_get_full_mut(&mut self.inner, key) {
            Some((_, _, v)) => Some(v),
            None => None,
        }
    }

    /// The position of `key`'s entry, the key, and a mutable reference to its
    /// value, if present; writing through it changes that value only.
    pub fn get_full_mut(&mut self, key: &u64) -> (r: Option<(usize, &u64, &mut u64)>)
        requires
            old(self).wf(),
        ensures
            !has_key(old(self)@, *key) ==> r is None && final(self)@ == old(self)@,
            has_key(old(self)@, *key) ==> (r matches Some(t) && {
                let i = key_index(old(self)@, *key);
                &&& t.0 as int == i
                &&& *t.1 == *key
                &&& *t.2 == old(self)@[i].1
                &&& final(self)@ == old(self)@.update(i, (*key, *final(t.2)))
            }),
    {
        im_get_full_mut(&mut self.inner, key)
    }

    /// Remove `key`'s entry by shifting the later entries up, which keeps the
    /// order of the others, and return its value.
    pub fn remove(&mut self, key: &u64) -> (r: Option<u64>)
        requires
            old(self).wf(),
        ensures
            final(self).wf(),
            r == value_of(old(self)@, *key),
            final(self)@ == without_key(old(self)@, *key),
    {
        match self.remove_full(key) {
            Some((_, _, v)) => Some(v),
            None => None,
        }
    }

    /// Remove `key`'s entry by shifting, as [`Self::remove`], and return the
    /// stored key with its value.
    pub fn remove_entry(&mut self, key: &u64) -> (r: Option<(u64, u64)>)
        requires
            old(self).wf(),
        ensures
            final(self).wf(),
            has_key(old(self)@, *key) ==> r == Some((*key, old(self)@[key_index(old(self)@, *key)].1)),
            !has_key(old(self)@, *key) ==> r is None,
            final(self)@ == without_key(old(self)@, *key),
    {
        match self.remove_full(key) {
            Some((_, k, v)) => Some((k, v)),
            None => None,
        }
    }

    /// Remove `key`'s entry by shifting, as [`Self::remove`], and return its
    /// former position, the key and the value.
    pub fn remove_full(&mut self, key: &u64) -> (r: Option<(usize, u64, u64)>)
        requires
            old(self).wf(),
        ensures
            final(self).wf(),
            has_key(old(self)@, *key) ==> {
                let i = key_index(old(self)@, *key);
                &&& r == Some((i as usize, *key, old(self)@[i].1))
                &&& final(self)@ == old(self)@.remove(i)
            },
            !has_key(old(self)@, *key) ==> r is None && final(self)@ == old(self)@,
            final(self)@ == without_key(old(self)@, *key),
    {
        let r = im_shift_remove_full(&mut self.inner, key);
        proof {
            if has_key(old(self)@, *key) {
                lemma_remove_unique(old(self)@, key_index(old(self)@, *key));
            }
        }
        r
    }

    /// Remove `key`'s entry by moving the last entry into its position, and
    /// return its value.
    pub fn swap_remove(&mut self, key: &u64) -> (r: Option<u64>)
        requires
            old(self).wf(),
        ensures
            final(self).wf(),
            r == value_of(old(self)@, *key),
            has_key(old(self)@, *key) ==> final(self)@ == swap_removed(old(self)@, key_index(old(self)@, *key)),
            !has_key(old(self)@, *key) ==> final(self)@ == old(self)@,
    {
        match self.swap_remove_full(key) {
            Some((_, _, v)) => Some(v),
            None => None,
        }
    }

    /// Remove `key`'s entry by swapping, as [`Self::swap_remove`], and return
    /// the stored key with its value.
    pub fn swap_remove_entry(&mut self, key: &u64) -> (r: Option<(u64, u64)>)
        requires
            old(self).wf(),
        ensures
            final(self).wf(),
            has_key(old(self)@, *key) ==> {
                let i = key_index(old(self)@, *key);
                &&& r == Some((*key, old(self)@[i].1))
                &&& final(self)@ == swap_removed(old(self)@, i)
            },
            !has_key(old(self)@, *key) ==> r is None && final(self)@ == old(self)@,
    {
        match self.swap_remove_full(key) {
            Some((_, k, v)) => Some((k, v)),
            None => None,
        }
    }

    /// Remove `key`'s entry by swapping, as [`Self::swap_remove`], and return
    /// its former position, the key and the value.
    pub fn swap_remove_full(&mut self, key: &u64) -> (r: Option<(usize, u64, u64)>)
        requires
            old(self).wf(),
        ensures
            final(self).wf(),
            has_key(old(self)@, *key) ==> {
                let i = key_index(old(self)@, *key);
                &&& r == Some((i as usize, *key, old(self)@[i].1))
                &&& final(self)@ == swap_removed(old(self)@, i)
            },
            !has_key(old(self)@, *key) ==> r is None && final(self)@ == old(self)@,
    {
        let r = im_swap_remove_full(&mut self.inner, key);
        proof {
            if has_key(old(self)@, *key) {
                crate::lemmas::lemma_swap_removed_unique(old(self)@, key_index(old(self)@, *key));
            }
        }
        r
    }

    /// Remove the last entry and return it.
    pub fn pop(&mut self) -> (r: Option<(u64, u64)>)
        requires
            old(self).wf(),
        ensures
            final(self).wf(),
            old(self)@.len() > 0 ==> r == Some(old(self)@.last()) && final(self)@ == old(self)@.drop_last(),
            old(self)@.len() == 0 ==> r is None && final(self)@ == old(self)@,
    {
        let r = im_pop(&mut self.inner);
        proof {
            if old(self)@.len() > 0 {
                lemma_subrange_unique(old(self)@, 0, old(self)@.len() - 1);
            }
        }
        r
    }

    /// The entry at position `index`, if in range.
    pub fn get_index(&self, index: usize) -> (r: Option<(&u64, &u64)>)
        ensures
            index < self@.len() ==> r == Some((&self@[index as int].0, &self@[index as int].1)),
            index >= self@.len() ==> r is None,
    {
        im_get_index(&self.inner, index)
    }

    /// The key at position `index` and a mutable reference to its value, if
    /// in range; writing through it changes that value only.
    pub fn get_index_mut(&mut self, index: usize) -> (r: Option<(&u64, &mut u64)>)
        requires
            old(self).wf(),
        ensures
            index >= old(self)@.len() ==> r is None && final(self)@ == old(self)@,
            index < old(self)@.len() ==> (r matches Some(t) && {
                &&& *t.0 == old(self)@[index as int].0
                &&& *t.1 == old(self)@[index as int].1
                &&& final(self)@ == old(self)@.update(index as int, (*t.0, *final(t.1)))
            }),
    {
        im_get_index_mut(&mut self.inner, index)
    }

    /// The first entry, if any.
    pub fn first(&self) -> (r: Option<(&u64, &u64)>)
        ensures
            self@.len() > 0 ==> r == Some((&self@[0].0, &self@[0].1)),
            self@.len() == 0 ==> r is None,
    {
        im_get_index(&self.inner, 0)
    }

    /// The last entry, if any.
    pub fn last(&self) -> (r: Option<(&u64, &u64)>)
        ensures
            self@.len() > 0 ==> r == Some((&self@.last().0, &self@.last().1)),
            self@.len() == 0 ==> r is None,
    {
        let n = im_len(&self.inner);
        if n == 0 {
            None
        } else {
            im_get_index(&self.inner, n - 1)
        }
    }

    /// The first key and a mutable reference to its value, if any; writing
    /// through it changes that value only.
    pub fn first_mut(&mut self) -> (r: Option<(&u64, &mut u64)>)
        requires
            old(self).wf(),
        ensures
            old(self)@.len() == 0 ==> r is None && final(self)@ == old(self)@,
            old(self)@.len() > 0 ==> (r matches Some(t) && {
                &&& *t.0 == old(self)@[0].0
                &&& *t.1 == old(self)@[0].1
                &&& final(self)@ == old(self)@.update(0, (*t.0, *final(t.1)))
            }),
    {
        self.get_index_mut(0)
    }

    /// The last key and a mutable reference to its value, if any; writing
    /// through it changes that value only.
    pub fn last_mut(&mut self) -> (r: Option<(&u64, &mut u64)>)
        requires
            old(self).wf(),
        ensures
            old(self)@.len() == 0 ==> r is None && final(self)@ == old(self)@,
            old(self)@.len() > 0 ==> (r matches Some(t) && {
                let i = old(self)@.len() - 1;
                &&& *t.0 == old(self)@[i].0
                &&& *t.1 == old(self)@[i].1
                &&& final(self)@ == old(self)@.update(i, (*t.0, *final(t.1)))
            }),
    {
        let n = self.len();
        if n == 0 {
            None
        } else {
            self.get_index_mut(n - 1)
        }
    }

    /// Remove the entry at position `index` by shifting the later entries up,
    /// and return it; `None` when out of range.
    pub fn remove_index(&mut self, index: usize) -> (r: Option<(u64, u64)>)
        requires
            old(self).wf(),
        ensures
            final(self).wf(),
            index < old(self)@.len() ==> r == Some(old(self)@[index as int])
                && final(self)@ == old(self)@.remove(index as int),
            index >= old(self)@.len() ==> r is None && final(self)@ == old(self)@,
    {
        let r = im_shift_remove_index(&mut self.inner, index);
        proof {
            if index < old(self)@.len() {
                lemma_remove_unique(old(self)@, index as int);
            }
        }
        r
    }

    /// Remove the entry at position `index` by moving the last entry into
    /// its place, and return it; `None` when out of range.
    pub fn swap_remove_index(&mut self, index: usize) -> (r: Option<(u64, u64)>)
        requires
            old(self).wf(),
        ensures
            final(self).wf(),
            index < old(self)@.len() ==> r == Some(old(self)@[index as int])
                && final(self)@ == swap_removed(old(self)@, index as int),
            index >= old(self)@.len() ==> r is None && final(self)@ == old(self)@,
    {
        let r = im_swap_remove_index(&mut self.inner, index);
        proof {
            if index < old(self)@.len() {
                crate::lemmas::lemma_swap_removed_unique(old(self)@, index as int);
            }
        }
        r
    }

    /// Move the entry at `from` to `to`, shifting the entries in between.
    pub fn move_index(&mut self, from: usize, to: usize)
        requires
            old(self).wf(),
            from < old(self)@.len(),
            to < old(self)@.len(),
        ensures
            final(self).wf(),
            final(self)@ == moved(old(self)@, from as int, to as int),
    {
        im_move_index(&mut self.inner, from, to);
        proof {
            crate::lemmas::lemma_moved_unique(old(self)@, from as int, to as int);
        }
    }

    /// Exchange the entries at positions `a` and `b`.
    pub fn swap_indices(&mut self, a: usize, b: usize)
        requires
            old(self).wf(),
            a < old(self)@.len(),
            b < old(self)@.len(),
        ensures
            final(self).wf(),
            final(self)@ == swapped(old(self)@, a as int, b as int),
    {
        im_swap_indices(&mut self.inner, a, b);
    }

    /// Sort the entries by increasing key (a stable sort).
    pub fn sort_keys(&mut self)
        requires
            old(self).wf(),
        ensures
            final(self).wf(),
            same_entries(old(self)@, final(self)@),
            keys_sorted(final(self)@),
    {
        im_sort_keys(&mut self.inner);
        proof {
            lemma_sorted_unique(final(self)@);
        }
    }

    /// Sort the entries by increasing key (an unstable sort; with unique keys
    /// the outcome is the same).
    pub fn sort_unstable_keys(&mut self)
        requires
            old(self).wf(),
        ensures
            final(self).wf(),
            same_entries(old(self)@, final(self)@),
            keys_sorted(final(self)@),
    {
        im_sort_unstable_keys(&mut self.inner);
        proof {
            lemma_sorted_unique(final(self)@);
        }
    }

    /// Sort the entries with the comparison `cmp`, which sees the key and
    /// value of two entries; a stable sort: entries `cmp` rates `Equal` keep
    /// their order.
    pub fn sort_by<F: Fn(&u64, &u64, &u64, &u64) -> core::cmp::Ordering>(&mut self, cmp: F)
        requires
            old(self).wf(),
            total_order(cmp),
        ensures
            final(self).wf(),
            same_entries(old(self)@, final(self)@),
            sorted_by(cmp, final(self)@),
            ties_kept(cmp, old(self)@, final(self)@),
    {
        im_sort_by(&mut self.inner, cmp);
        proof {
            crate::lemmas::lemma_permutation_unique(old(self)@, self@);
        }
    }

    /// As [`Self::sort_by`], with an unstable sort: the entries still end in
    /// an order `cmp` accepts, but entries it rates `Equal` may change their
    /// order.
    pub fn sort_unstable_by<F: Fn(&u64, &u64, &u64, &u64) -> core::cmp::Ordering>(&mut self, cmp: F)
        requires
            old(self).wf(),
            total_order(cmp),
        ensures
            final(self).wf(),
            same_entries(old(self)@, final(self)@),
            sorted_by(cmp, final(self)@),
    {
        im_sort_unstable_by(&mut self.inner, cmp);
        proof {
            crate::lemmas::lemma_permutation_unique(old(self)@, self@);
        }
    }

    /// Consume the map and give its entries sorted with `cmp`, a stable
    /// sort.
    pub fn sorted_by<F: Fn(&u64, &u64, &u64, &u64) -> core::cmp::Ordering>(self, cmp: F) -> (r: Vec<(u64, u64)>)
        requires
            self.wf(),
            total_order(cmp),
        ensures
            same_entries(self@, r@),
            sorted_by(cmp, r@),
            ties_kept(cmp, self@, r@),
    {
        let mut m = self;
        m.sort_by(cmp);
        m.iter()
    }

    /// Consume the map and give its entries sorted with `cmp`, an unstable
    /// sort.
    pub fn sorted_unstable_by<F: Fn(&u64, &u64, &u64, &u64) -> core::cmp::Ordering>(self, cmp: F) -> (r: Vec<(u64, u64)>)
        requires
            self.wf(),
            total_order(cmp),
        ensures
            same_entries(self@, r@),
            sorted_by(cmp, r@),
    {
        let mut m = self;
        m.sort_unstable_by(cmp);
        m.iter()
    }

    /// Sort the entries by the key `sort_key` gives each of them, computed
    /// once per entry; entries with equal sort keys keep their order.
    pub fn sort_by_cached_key<F: Fn(&u64, &u64) -> u64>(&mut self, sort_key: F)
        requires
            old(self).wf(),
            forall|k: &u64, v: &u64| sort_key.requires((k, v)),
        ensures
            final(self).wf(),
            exists|keys: Seq<u64>, order: Seq<int>| {
                &&& #[trigger] arranged_by(old(self)@, final(self)@, keys, order)
                &&& forall|i: int| 0 <= i < keys.len() ==>
                    sort_key.ensures((&old(self)@[i].0, &old(self)@[i].1), #[trigger] keys[i])
            },
    {
        im_sort_by_cached_key(&mut self.inner, sort_key);
        proof {
            let (keys, order) = choose|keys: Seq<u64>, order: Seq<int>| {
                &&& #[trigger] arranged_by(old(self)@, self@, keys, order)
                &&& forall|i: int| 0 <= i < keys.len() ==>
                    sort_key.ensures((&old(self)@[i].0, &old(self)@[i].1), #[trigger] keys[i])
            };
            crate::lemmas::lemma_arranged_unique(old(self)@, self@, keys, order);
        }
    }

    /// Reverse the order of the entries.
    pub fn reverse(&mut self)
        requires
            old(self).wf(),
        ensures
            final(self).wf(),
            final(self)@ == reversed(old(self)@),
    {
        im_reverse(&mut self.inner);
        proof {
            crate::lemmas::lemma_reversed_unique(old(self)@);
        }
    }

    /// Search for `key` among keys kept in increasing order: `Ok` with its
    /// position when present, else `Err` with the position where it belongs.
    /// On keys not in that order the result is unspecified.
    pub fn binary_search_keys(&self, key: &u64) -> (r: Result<usize, usize>)
        ensures
            keys_sorted(self@) ==> search_result(self@, *key, r),
    {
        im_binary_search_keys(&self.inner, key)
    }

    /// Search with `f`, which tells for an entry whether it lies before
    /// (`Less`), at (`Equal`) or after (`Greater`) the target. On entries
    /// sorted as `f` sees them, `Ok(i)` names an entry `f` rates `Equal`, and
    /// `Err(i)` the place of the target: `f` rates every entry before it
    /// `Less` and every entry from it on `Greater`. On other entries the
    /// result is unspecified.
    pub fn binary_search_by<F: Fn(&u64, &u64) -> core::cmp::Ordering>(&self, f: F) -> (r: Result<usize, usize>)
        requires
            forall|k: &u64, v: &u64| f.requires((k, v)),
        ensures
            ordered_along(f, self@) ==> found_by(f, self@, r),
    {
        im_binary_search_by(&self.inner, f)
    }

    /// Search for the sort key `b` among the keys `f` gives the entries. On
    /// entries whose sort keys never decrease, `Ok(i)` names an entry with
    /// sort key `b`, and `Err(i)` the place of `b`: every sort key before it
    /// is below `b` and every one from it on above. On other entries the
    /// result is unspecified.
    pub fn binary_search_by_key<F: Fn(&u64, &u64) -> u64>(&self, b: &u64, f: F) -> (r: Result<usize, usize>)
        requires
            forall|k: &u64, v: &u64| f.requires((k, v)),
        ensures
            keyed_along(f, self@) ==> found_by_key(f, self@, *b, r),
    {
        im_binary_search_by_key(&self.inner, b, f)
    }

    /// The position that splits the entries by `pred`: on entries where
    /// `pred` holds of a prefix and of nothing after it, the length of that
    /// prefix. On other entries the result is unspecified.
    pub fn partition_point<P: Fn(&u64, &u64) -> bool>(&self, pred: P) -> (r: usize)
        requires
            forall|k: &u64, v: &u64| pred.requires((k, v)),
        ensures
            partitioned(pred, self@) ==> {
                &&& r <= self@.len()
                &&& forall|j: int, b: bool| 0 <= j < r && #[trigger] pred.ensures((&self@[j].0, &self@[j].1), b) ==> b
                &&& forall|j: int, b: bool| r <= j < self@.len()
                    && #[trigger] pred.ensures((&self@[j].0, &self@[j].1), b) ==> !b
            },
    {
        im_partition_point(&self.inner, pred)
    }

    /// Split the map at position `at`: the entries from `at` on are returned
    /// as a new map, the others stay.
    pub fn split_off(&mut self, at: usize) -> (r: Self)
        requires
            old(self).wf(),
            at <= old(self)@.len(),
        ensures
            final(self).wf(),
            r.wf(),
            final(self)@ == old(self)@.subrange(0, at as int),
            r@ == old(self)@.subrange(at as int, old(self)@.len() as int),
    {
        let tail = im_split_off(&mut self.inner, at);
        proof {
            lemma_subrange_unique(old(self)@, 0, at as int);
            lemma_subrange_unique(old(self)@, at as int, old(self)@.len() as int);
        }
        OrderMap { inner: tail }
    }

    /// Remove the entries at positions `range` and return them in order; the
    /// later entries move up.
    pub fn drain(&mut self, range: core::ops::Range<usize>) -> (r: Vec<(u64, u64)>)
        requires
            old(self).wf(),
            range.start <= range.end <= old(self)@.len(),
        ensures
            final(self).wf(),
            r@ == old(self)@.subrange(range.start as int, range.end as int),
            final(self)@ == old(self)@.subrange(0, range.start as int)
                + old(self)@.subrange(range.end as int, old(self)@.len() as int),
    {
        let r = im_drain(&mut self.inner, range.start, range.end);
        proof {
            crate::lemmas::lemma_cut_unique(old(self)@, range.start as int, range.end as int);
        }
        r
    }

    /// Replace the entries at positions `range` with `items`, returning the
    /// removed entries in order. A pair whose key is among the entries after
    /// the range updates that value in place; any other pair is inserted
    /// into the gap as [`Self::insert`] would, a key already before the range
    /// keeping its position there.
    pub fn splice(&mut self, range: core::ops::Range<usize>, items: Vec<(u64, u64)>) -> (r: Vec<(u64, u64)>)
        requires
            old(self).wf(),
            range.start <= range.end <= old(self)@.len(),
        ensures
            final(self).wf(),
            r@ == old(self)@.subrange(range.start as int, range.end as int),
            ({
                let s = old(self)@;
                let parts = spliced(s.subrange(0, range.start as int), s.subrange(range.end as int, s.len() as int), items@);
                final(self)@ == parts.0 + parts.1
            }),
    {
        let r = im_splice(&mut self.inner, range.start, range.end, items);
        proof {
            lemma_spliced_unique(old(self)@, range.start as int, range.end as int, items@);
        }
        r
    }

    /// Keep the entries for which `keep` holds and remove the others. `keep`
    /// sees each entry once, in order; the kept entries stay in their order.
    pub fn retain<F: Fn(&u64, &u64) -> bool>(&mut self, keep: F)
        requires
            old(self).wf(),
            forall|k: &u64, v: &u64| keep.requires((k, v)),
        ensures
            final(self).wf(),
            exists|flags: Seq<bool>| {
                &&& flags.len() == old(self)@.len()
                &&& forall|i: int| 0 <= i < flags.len() ==>
                    keep.ensures((&old(self)@[i].0, &old(self)@[i].1), #[trigger] flags[i])
                &&& #[trigger] selected(old(self)@, flags) == final(self)@
            },
    {
        im_retain(&mut self.inner, keep);
        proof {
            let flags = choose|flags: Seq<bool>| {
                &&& flags.len() == old(self)@.len()
                &&& forall|i: int| 0 <= i < flags.len() ==>
                    keep.ensures((&old(self)@[i].0, &old(self)@[i].1), #[trigger] flags[i])
                &&& #[trigger] selected(old(self)@, flags) == self@
            };
            crate::lemmas::lemma_selected_unique(old(self)@, flags);
        }
    }

    /// The entries in their order.
    pub fn iter(&self) -> (r: Vec<(u64, u64)>)
        ensures
            r@ == self@,
    {
        let n = im_len(&self.inner);
        let mut out: Vec<(u64, u64)> = Vec::with_capacity(n);
        let mut i: usize = 0;
        while i < n
            invariant
                n as int == self@.len(),
                i <= n,
                out@ == self@.subrange(0, i as int),
            decreases n - i,
        {
            match im_get_index(&self.inner, i) {
                Some((k, v)) => out.push((*k, *v)),
                None => {},
            }
            i += 1;
        }
        proof {
            assert(self@.subrange(0, n as int) =~= self@);
        }
        out
    }

    /// The keys in their order.
    pub fn keys(&self) -> (r: Vec<u64>)
        ensures
            r@ == self@.map_values(|e: (u64, u64)| e.0),
    {
        let n = im_len(&self.inner);
        let mut out: Vec<u64> = Vec::with_capacity(n);
        let mut i: usize = 0;
        while i < n
            invariant
                n as int == self@.len(),
                i <= n,
                out@ == self@.subrange(0, i as int).map_values(|e: (u64, u64)| e.0),
            decreases n - i,
        {
            match im_get_index(&self.inner, i) {
                Some((k, _)) => out.push(*k),
                None => {},
            }
            proof {
                assert(self@.subrange(0, i + 1).map_values(|e: (u64, u64)| e.0)
                    =~= self@.subrange(0, i as int).map_values(|e: (u64, u64)| e.0).push(self@[i as int].0));
            }
            i += 1;
        }
        proof {
            assert(self@.subrange(0, n as int) =~= self@);
        }
        out
    }

    /// Consume the map and give its keys in order.
    pub fn into_keys(self) -> (r: Vec<u64>)
        ensures
            r@ == self@.map_values(|e: (u64, u64)| e.0),
    {
        self.keys()
    }

    /// Consume the map and give its values in the order of their entries.
    pub fn into_values(self) -> (r: Vec<u64>)
        ensures
            r@ == self@.map_values(|e: (u64, u64)| e.1),
    {
        self.values()
    }

    /// The values in the order of their entries.
    pub fn values(&self) -> (r: Vec<u64>)
        ensures
            r@ == self@.map_values(|e: (u64, u64)| e.1),
    {
        let n = im_len(&self.inner);
        let mut out: Vec<u64> = Vec::with_capacity(n);
        let mut i: usize = 0;
        while i < n
            invariant
                n as int == self@.len(),
                i <= n,
                out@ == self@.subrange(0, i as int).map_values(|e: (u64, u64)| e.1),
            decreases n - i,
        {
            match im_get_index(&self.inner, i) {
                Some((_, v)) => out.push(*v),
                None => {},
            }
            proof {
                assert(self@.subrange(0, i + 1).map_values(|e: (u64, u64)| e.1)
                    =~= self@.subrange(0, i as int).map_values(|e: (u64, u64)| e.1).push(self@[i as int].1));
            }
            i += 1;
        }
        proof {
            assert(self@.subrange(0, n as int) =~= self@);
        }
        out
    }

    /// Insert each pair of `items` in turn, as [`Self::insert`] does: later
    /// duplicates update the value, the first occurrence fixes the position.
    pub fn extend(&mut self, items: Vec<(u64, u64)>)
        requires
            old(self).wf(),
        ensures
            final(self).wf(),
            final(self)@ == inserted_all(old(self)@, items@),
    {
        let n = items.len();
        let mut i: usize = 0;
        while i < n
            invariant
                n == items@.len(),
                i <= n,
                self.wf(),
                self@ == inserted_all(old(self)@, items@.subrange(0, i as int)),
            decreases n - i,
        {
            let (k, v) = items[i];
            self.insert(k, v);
            proof {
                assert(items@.subrange(0, i + 1).drop_last() =~= items@.subrange(0, i as int));
            }
            i += 1;
        }
        proof {
            assert(items@.subrange(0, n as int) =~= items@);
        }
    }

    /// Build a map by inserting each pair of `items` in turn into an empty
    /// map.
    pub fn from_iter(items: Vec<(u64, u64)>) -> (r: Self)
        ensures
            r.wf(),
            r@ == inserted_all(Seq::<(u64, u64)>::empty(), items@),
    {
        let mut m = OrderMap::new();
        m.extend(items);
        m
    }
}

impl OrderMap {
    /// What hashing the map feeds to the hasher: first the length, then the
    /// key and the value of each entry, in order. [`core::hash::Hash::hash`]
    /// feeds exactly these, the length as a `usize` and each word as a `u64`.
    pub fn hash_input(&self) -> (r: (usize, Vec<u64>))
        ensures
            r.0 as int == self@.len(),
            r.1@ == hash_words(self@),
    {
        let n = im_len(&self.inner);
        let mut words: Vec<u64> = Vec::new();
        let mut i: usize = 0;
        while i < n
            invariant
                n as int == self@.len(),
                i <= n,
                words@ == hash_words(self@.subrange(0, i as int)),
            decreases n - i,
        {
            let (k, v) = im_get_index(&self.inner, i).unwrap();
            words.push(*k);
            words.push(*v);
            proof {
                assert(self@.subrange(0, i + 1).drop_last() =~= self@.subrange(0, i as int));
            }
            i += 1;
        }
        proof {
            assert(self@.subrange(0, n as int) =~= self@);
        }
        (n, words)
    }
}

impl Clone for OrderMap {
    fn clone(&self) -> (r: Self)
        ensures
            r@ == self@,
    {
        OrderMap { inner: crate::inner::im_clone(&self.inner) }
    }
}

impl Default for OrderMap {
    fn default() -> (r: Self)
        ensures
            r.wf(),
            r@ == Seq::<(u64, u64)>::empty(),
    {
        OrderMap::new()
    }
}

/// Order-sensitive equality: the same entries in the same order.
impl PartialEq for OrderMap {
    fn eq(&self, other: &OrderMap) -> (r: bool) {
        let n = im_len(&self.inner);
        if n != im_len(&other.inner) {
            return false;
        }
        let mut i: usize = 0;
        while i < n
            invariant
                n as int == self@.len(),
                n as int == other@.len(),
                i <= n,
                forall|j: int| 0 <= j < i ==> self@[j] == other@[j],
            decreases n - i,
        {
            let a = im_get_index(&self.inner, i);
            let b = im_get_index(&other.inner, i);
            match (a, b) {
                (Some((ka, va)), Some((kb, vb))) => {
                    if *ka != *kb || *va != *vb {
                        return false;
                    }
                },
                _ => {},
            }
            i += 1;
        }
        proof {
            assert(self@ =~= other@);
        }
        true
    }
}

impl vstd::std_specs::cmp::PartialEqSpecImpl for OrderMap {
    open spec fn obeys_eq_spec() -> bool {
        true
    }

    open spec fn eq_spec(&self, other: &OrderMap) -> bool {
        self@ == other@
    }
}

impl Eq for OrderMap {}

/// Order-sensitive comparison: lexicographic over the entries in their
/// order, each compared by key and then by value.
impl PartialOrd for OrderMap {
    fn partial_cmp(&self, other: &OrderMap) -> (r: Option<core::cmp::Ordering>) {
        let ghost a = self@;
        let ghost b = other@;
        let n = im_len(&self.inner);
        let m = im_len(&other.inner);
        let mut i: usize = 0;
        proof {
            assert(a.subrange(0, n as int) =~= a);
            assert(b.subrange(0, m as int) =~= b);
        }
        while i < n && i < m
            invariant
                n as int == a.len(),
                m as int == b.len(),
                a == self@,
                b == other@,
                i <= n,
                i <= m,
                lex_cmp(a, b) == lex_cmp(a.subrange(i as int, n as int), b.subrange(i as int, m as int)),
            decreases n - i,
        {
            let (ka, va) = match im_get_index(&self.inner, i) {
                Some((k, v)) => (*k, *v),
                None => (0, 0),
            };
            let (kb, vb) = match im_get_index(&other.inner, i) {
                Some((k, v)) => (*k, *v),
                None => (0, 0),
            };
            proof {
                let sa = a.subrange(i as int, n as int);
                let sb = b.subrange(i as int, m as int);
                assert(sa[0] == a[i as int]);
                assert(sb[0] == b[i as int]);
                assert(sa.drop_first() =~= a.subrange(i + 1, n as int));
                assert(sb.drop_first() =~= b.subrange(i + 1, m as int));
            }
            if ka < kb {
                return Some(core::cmp::Ordering::Less);
            } else if ka > kb {
                return Some(core::cmp::Ordering::Greater);
            } else if va < vb {
                return Some(core::cmp::Ordering::Less);
            } else if va > vb {
                return Some(core::cmp::Ordering::Greater);
            }
            i += 1;
        }
        proof {
            assert(a.subrange(i as int, n as int).len() == n - i);
            assert(b.subrange(i as int, m as int).len() == m - i);
        }
        if n == m {
            Some(core::cmp::Ordering::Equal)
        } else if i == n {
            Some(core::cmp::Ordering::Less)
        } else {
            Some(core::cmp::Ordering::Greater)
        }
    }
}

impl vstd::std_specs::cmp::PartialOrdSpecImpl for OrderMap {
    open spec fn obeys_partial_cmp_spec() -> bool {
        true
    }

    open spec fn partial_cmp_spec(&self, other: &OrderMap) -> Option<core::cmp::Ordering> {
        Some(lex_cmp(self@, other@))
    }
}

/// Order-sensitive hashing: the length, then each key and value in order.
impl core::hash::Hash for OrderMap {
    fn hash<H: core::hash::Hasher>(&self, state: &mut H) {
        let (n, words) = self.hash_input();
        crate::inner::hash_usize(n, state);
        let mut i: usize = 0;
        while i < words.len()
            decreases words.len() - i,
        {
            crate::inner::hash_u64(words[i], state);
            i += 1;
        }
    }
}

} // verus!

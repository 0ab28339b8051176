//! The hash-indexed entry stores behind [`crate::OrderMap`] and
//! [`crate::OrderSet`], provided by the `indexmap` crate, and what this
//! library relies on about each of their operations. Every contract here is
//! stated over [`entries`], the sequence of key-value pairs that an
//! `IndexMap` holds in its order, or over [`items`], the sequence of values
//! that an `IndexSet` holds.
use indexmap::{IndexMap, IndexSet};
use vstd::prelude::*;
use crate::set::{set_spliced, set_total_order, set_ties_kept, set_ordered_along, set_found_by,
    set_partitioned, set_selected, set_sorted_by, set_index, set_sorted, set_search_result, set_sorted_position, set_without, set_swap_removed,
    set_moved, set_swapped, set_reversed, subset_of, disjoint};
use crate::model::{has_key, key_index, value_of, moved, swap_removed, swapped, reversed, keys_sorted,
    same_entries, search_result, sorted_position, without_key, spliced, total_order,
    sorted_by, ties_kept, arranged_by, ordered_along, found_by, keyed_along, found_by_key, partitioned,
    selected};

verus! {

/// `indexmap::IndexMap`, a hash map that keeps its entries in a vector in
/// their order; opaque here, and read through [`entries`].
#[verifier::external_type_specification]
#[verifier::external_body]
#[verifier::reject_recursive_types(K)]
#[verifier::reject_recursive_types(V)]
#[verifier::reject_recursive_types(S)]
pub struct ExIndexMap<K, V, S>(IndexMap<K, V, S>);

/// `indexmap::TryReserveError`, the refusal of a fallible reservation.
#[verifier::external_type_specification]
#[verifier::external_body]
pub struct ExTryReserveError(indexmap::TryReserveError);

/// The entries of an `IndexMap`, in their order.
pub uninterp spec fn entries(m: IndexMap<u64, u64>) -> Seq<(u64, u64)>;

/// Relies on `IndexMap::new`: a new map has no entries.
#[verifier::external_body]
pub(crate) fn im_new() -> (r: IndexMap<u64, u64>)
    ensures
        entries(r) == Seq::<(u64, u64)>::empty(),
{
    IndexMap::new()
}

/// Relies on `IndexMap::with_capacity`: a new map has no entries, whatever
/// room it reserves.
#[verifier::external_body]
pub(crate) fn im_with_capacity(n: usize) -> (r: IndexMap<u64, u64>)
    ensures
        entries(r) == Seq::<(u64, u64)>::empty(),
{
    IndexMap::with_capacity(n)
}

/// Relies on `IndexMap::clone`: a copy with the same entries in the same
/// order.
#[verifier::external_body]
pub(crate) fn im_clone(m: &IndexMap<u64, u64>) -> (r: IndexMap<u64, u64>)
    ensures
        entries(r) == entries(*m),
{
    m.clone()
}

/// Relies on `IndexMap::try_reserve`: room for `additional` more entries is
/// asked of the allocator, which may refuse; the entries stay as they are
/// either way.
#[verifier::external_body]
pub(crate) fn im_try_reserve(m: &mut IndexMap<u64, u64>, additional: usize) -> (r: Result<(), indexmap::TryReserveError>)
    ensures
        entries(*final(m)) == entries(*old(m)),
{
    m.try_reserve(additional)
}

/// Relies on `IndexMap::try_reserve_exact`: as `try_reserve`, without
/// deliberate over-allocation; the entries stay as they are either way.
#[verifier::external_body]
pub(crate) fn im_try_reserve_exact(m: &mut IndexMap<u64, u64>, additional: usize) -> (r: Result<(), indexmap::TryReserveError>)
    ensures
        entries(*final(m)) == entries(*old(m)),
{
    m.try_reserve_exact(additional)
}

/// Relies on `IndexMap::shrink_to`: the capacity may drop, to no less than
/// `min_capacity`; the entries stay as they are.
#[verifier::external_body]
pub(crate) fn im_shrink_to(m: &mut IndexMap<u64, u64>, min_capacity: usize)
    ensures
        entries(*final(m)) == entries(*old(m)),
{
    m.shrink_to(min_capacity)
}

/// Relies on `IndexMap::len`: the number of entries.
#[verifier::external_body]
pub(crate) fn im_len(m: &IndexMap<u64, u64>) -> (r: usize)
    ensures
        r as int == entries(*m).len(),
{
    m.len()
}

/// Relies on `IndexMap::clear`: no entry is left.
#[verifier::external_body]
pub(crate) fn im_clear(m: &mut IndexMap<u64, u64>)
    ensures
        entries(*final(m)) == Seq::<(u64, u64)>::empty(),
{
    m.clear()
}

/// Relies on `IndexMap::truncate`: the first `len` entries stay, or all of
/// them when there are fewer.
#[verifier::external_body]
pub(crate) fn im_truncate(m: &mut IndexMap<u64, u64>, len: usize)
    ensures
        len < entries(*old(m)).len() ==> entries(*final(m)) == entries(*old(m)).subrange(0, len as int),
        len >= entries(*old(m)).len() ==> entries(*final(m)) == entries(*old(m)),
{
    m.truncate(len)
}

/// Relies on `IndexMap::insert_full`: an existing key keeps its position and
/// takes the new value; a new key is appended.
#[verifier::external_body]
pub(crate) fn im_insert_full(m: &mut IndexMap<u64, u64>, k: u64, v: u64) -> (r: (usize, Option<u64>))
    ensures
        has_key(entries(*old(m)), k) ==> {
            &&& r.0 < entries(*old(m)).len()
            &&& entries(*old(m))[r.0 as int].0 == k
            &&& r.1 == Some(entries(*old(m))[r.0 as int].1)
            &&& entries(*final(m)) == entries(*old(m)).update(r.0 as int, (k, v))
        },
        !has_key(entries(*old(m)), k) ==> {
            &&& r.0 as int == entries(*old(m)).len()
            &&& r.1 == None::<u64>
            &&& entries(*final(m)) == entries(*old(m)).push((k, v))
        },
{
    m.insert_full(k, v)
}

/// Relies on `IndexMap::insert_sorted`: the pair ends up at the returned
/// position, the entry it replaces (if any) taken out of its old one and the
/// others kept in order; with keys in increasing order that position is the
/// key's place in that order, an existing key staying where it is.
#[verifier::external_body]
pub(crate) fn im_insert_sorted(m: &mut IndexMap<u64, u64>, k: u64, v: u64) -> (r: (usize, Option<u64>))
    ensures
        r.0 <= without_key(entries(*old(m)), k).len(),
        r.1 == value_of(entries(*old(m)), k),
        entries(*final(m)) == without_key(entries(*old(m)), k).insert(r.0 as int, (k, v)),
        keys_sorted(entries(*old(m))) ==> sorted_position(without_key(entries(*old(m)), k), k, r.0 as int),
{
    m.insert_sorted(k, v)
}

/// Relies on `IndexMap::shift_insert`: a new key is inserted at `index`; an
/// existing key is moved there and takes the new value. It panics on an
/// index past the end, or at the end for an existing key.
#[verifier::external_body]
pub(crate) fn im_shift_insert(m: &mut IndexMap<u64, u64>, index: usize, k: u64, v: u64) -> (r: Option<u64>)
    requires
        has_key(entries(*old(m)), k) ==> index < entries(*old(m)).len(),
        index <= entries(*old(m)).len(),
    ensures
        r == value_of(entries(*old(m)), k),
        entries(*final(m)) == without_key(entries(*old(m)), k).insert(index as int, (k, v)),
{
    m.shift_insert(index, k, v)
}

/// Relies on `IndexMap::get_index_of`: the position of the key, if present.
#[verifier::external_body]
pub(crate) fn im_get_index_of(m: &IndexMap<u64, u64>, k: &u64) -> (r: Option<usize>)
    ensures
        has_key(entries(*m), *k) ==> r == Some(key_index(entries(*m), *k) as usize),
        !has_key(entries(*m), *k) ==> r is None,
{
    m.get_index_of(k)
}

/// Relies on `IndexMap::contains_key`: whether the key is present.
#[verifier::external_body]
pub(crate) fn im_contains_key(m: &IndexMap<u64, u64>, k: &u64) -> (r: bool)
    ensures
        r == has_key(entries(*m), *k),
{
    m.contains_key(k)
}

/// Relies on `IndexMap::get`: the value stored under the key, if present.
#[verifier::external_body]
pub(crate) fn im_get<'a>(m: &'a IndexMap<u64, u64>, k: &u64) -> (r: Option<&'a u64>)
    ensures
        has_key(entries(*m), *k) ==> r == Some(&entries(*m)[key_index(entries(*m), *k)].1),
        !has_key(entries(*m), *k) ==> r is None,
{
    m.get(k)
}

/// Relies on `IndexMap::get_full`: the position, key and value of the key's
/// entry, if present.
#[verifier::external_body]
pub(crate) fn im_get_full<'a>(m: &'a IndexMap<u64, u64>, k: &u64) -> (r: Option<(usize, &'a u64, &'a u64)>)
    ensures
        has_key(entries(*m), *k) ==> r == Some((
            key_index(entries(*m), *k) as usize,
            &entries(*m)[key_index(entries(*m), *k)].0,
            &entries(*m)[key_index(entries(*m), *k)].1,
        )),
        !has_key(entries(*m), *k) ==> r is None,
{
    m.get_full(k)
}

/// Relies on `IndexMap::get_full_mut`: the position of the key's entry and a
/// mutable reference to its value; writing through it changes that value
/// only.
#[verifier::external_body]
pub(crate) fn im_get_full_mut<'a>(m: &'a mut IndexMap<u64, u64>, k: &u64) -> (r: Option<(usize, &'a u64, &'a mut u64)>)
    ensures
        !has_key(entries(*old(m)), *k) ==> r is None && entries(*final(m)) == entries(*old(m)),
        has_key(entries(*old(m)), *k) ==> (r matches Some(t) && {
            let i = key_index(entries(*old(m)), *k);
            &&& t.0 as int == i
            &&& *t.1 == *k
            &&& *t.2 == entries(*old(m))[i].1
            &&& entries(*final(m)) == entries(*old(m)).update(i, (*k, *final(t.2)))
        }),
{
    m.get_full_mut(k)
}

/// Relies on `IndexMap::get_index`: the entry at a position, if in range.
#[verifier::external_body]
pub(crate) fn im_get_index<'a>(m: &'a IndexMap<u64, u64>, i: usize) -> (r: Option<(&'a u64, &'a u64)>)
    ensures
        i < entries(*m).len() ==> r == Some((&entries(*m)[i as int].0, &entries(*m)[i as int].1)),
        i >= entries(*m).len() ==> r is None,
{
    m.get_index(i)
}

/// Relies on `IndexMap::get_index_mut`: the key at a position and a mutable
/// reference to its value; writing through it changes that value only.
#[verifier::external_body]
pub(crate) fn im_get_index_mut<'a>(m: &'a mut IndexMap<u64, u64>, i: usize) -> (r: Option<(&'a u64, &'a mut u64)>)
    ensures
        i >= entries(*old(m)).len() ==> r is None && entries(*final(m)) == entries(*old(m)),
        i < entries(*old(m)).len() ==> (r matches Some(t) && {
            &&& *t.0 == entries(*old(m))[i as int].0
            &&& *t.1 == entries(*old(m))[i as int].1
            &&& entries(*final(m)) == entries(*old(m)).update(i as int, (*t.0, *final(t.1)))
        }),
{
    m.get_index_mut(i)
}

/// Relies on `IndexMap::shift_remove_full`: the key's entry is removed and
/// the entries after it move up by one.
#[verifier::external_body]
pub(crate) fn im_shift_remove_full(m: &mut IndexMap<u64, u64>, k: &u64) -> (r: Option<(usize, u64, u64)>)
    ensures
        has_key(entries(*old(m)), *k) ==> {
            let i = key_index(entries(*old(m)), *k);
            &&& r == Some((i as usize, *k, entries(*old(m))[i].1))
            &&& entries(*final(m)) == entries(*old(m)).remove(i)
        },
        !has_key(entries(*old(m)), *k) ==> r is None && entries(*final(m)) == entries(*old(m)),
{
    m.shift_remove_full(k)
}

/// Relies on `IndexMap::swap_remove_full`: the key's entry is removed and
/// the last entry takes its position.
#[verifier::external_body]
pub(crate) fn im_swap_remove_full(m: &mut IndexMap<u64, u64>, k: &u64) -> (r: Option<(usize, u64, u64)>)
    ensures
        has_key(entries(*old(m)), *k) ==> {
            let i = key_index(entries(*old(m)), *k);
            &&& r == Some((i as usize, *k, entries(*old(m))[i].1))
            &&& entries(*final(m)) == swap_removed(entries(*old(m)), i)
        },
        !has_key(entries(*old(m)), *k) ==> r is None && entries(*final(m)) == entries(*old(m)),
{
    m.swap_remove_full(k)
}

/// Relies on `IndexMap::pop`: the last entry is removed and returned.
#[verifier::external_body]
pub(crate) fn im_pop(m: &mut IndexMap<u64, u64>) -> (r: Option<(u64, u64)>)
    ensures
        entries(*old(m)).len() > 0 ==> r == Some(entries(*old(m)).last())
            && entries(*final(m)) == entries(*old(m)).drop_last(),
        entries(*old(m)).len() == 0 ==> r is None && entries(*final(m)) == entries(*old(m)),
{
    m.pop()
}

/// Relies on `IndexMap::shift_remove_index`: the entry at a position is
/// removed and the entries after it move up by one.
#[verifier::external_body]
pub(crate) fn im_shift_remove_index(m: &mut IndexMap<u64, u64>, i: usize) -> (r: Option<(u64, u64)>)
    ensures
        i < entries(*old(m)).len() ==> r == Some(entries(*old(m))[i as int])
            && entries(*final(m)) == entries(*old(m)).remove(i as int),
        i >= entries(*old(m)).len() ==> r is None && entries(*final(m)) == entries(*old(m)),
{
    m.shift_remove_index(i)
}

/// Relies on `IndexMap::swap_remove_index`: the entry at a position is
/// removed and the last entry takes its place.
#[verifier::external_body]
pub(crate) fn im_swap_remove_index(m: &mut IndexMap<u64, u64>, i: usize) -> (r: Option<(u64, u64)>)
    ensures
        i < entries(*old(m)).len() ==> r == Some(entries(*old(m))[i as int])
            && entries(*final(m)) == swap_removed(entries(*old(m)), i as int),
        i >= entries(*old(m)).len() ==> r is None && entries(*final(m)) == entries(*old(m)),
{
    m.swap_remove_index(i)
}

/// Relies on `IndexMap::move_index`: the entry at `from` moves to `to`, the
/// entries in between shifting by one. It panics on a position out of range.
#[verifier::external_body]
pub(crate) fn im_move_index(m: &mut IndexMap<u64, u64>, from: usize, to: usize)
    requires
        from < entries(*old(m)).len(),
        to < entries(*old(m)).len(),
    ensures
        entries(*final(m)) == moved(entries(*old(m)), from as int, to as int),
{
    m.move_index(from, to)
}

/// Relies on `IndexMap::swap_indices`: the entries at the two positions
/// change places. It panics on a position out of range.
#[verifier::external_body]
pub(crate) fn im_swap_indices(m: &mut IndexMap<u64, u64>, a: usize, b: usize)
    requires
        a < entries(*old(m)).len(),
        b < entries(*old(m)).len(),
    ensures
        entries(*final(m)) == swapped(entries(*old(m)), a as int, b as int),
{
    m.swap_indices(a, b)
}

/// Relies on `IndexMap::sort_keys`: the same entries, in increasing order of
/// their keys.
#[verifier::external_body]
pub(crate) fn im_sort_keys(m: &mut IndexMap<u64, u64>)
    ensures
        same_entries(entries(*old(m)), entries(*final(m))),
        keys_sorted(entries(*final(m))),
{
    m.sort_keys()
}

/// Relies on `IndexMap::sort_unstable_keys`: the same entries, in increasing
/// order of their keys.
#[verifier::external_body]
pub(crate) fn im_sort_unstable_keys(m: &mut IndexMap<u64, u64>)
    ensures
        same_entries(entries(*old(m)), entries(*final(m))),
        keys_sorted(entries(*final(m))),
{
    m.sort_unstable_keys()
}

/// Relies on `IndexMap::reverse`: the entries in reverse order.
#[verifier::external_body]
pub(crate) fn im_reverse(m: &mut IndexMap<u64, u64>)
    ensures
        entries(*final(m)) == reversed(entries(*old(m))),
{
    m.reverse()
}

/// Relies on `IndexMap::binary_search_keys`, a binary search over the keys:
/// on keys in increasing order it finds a present key and places an absent
/// one.
#[verifier::external_body]
pub(crate) fn im_binary_search_keys(m: &IndexMap<u64, u64>, k: &u64) -> (r: Result<usize, usize>)
    ensures
        keys_sorted(entries(*m)) ==> search_result(entries(*m), *k, r),
{
    m.binary_search_keys(k)
}

/// Relies on `IndexMap::split_off`: the entries from `at` on go to the new
/// map, the others stay. It panics when `at` is past the end.
#[verifier::external_body]
pub(crate) fn im_split_off(m: &mut IndexMap<u64, u64>, at: usize) -> (r: IndexMap<u64, u64>)
    requires
        at <= entries(*old(m)).len(),
    ensures
        entries(*final(m)) == entries(*old(m)).subrange(0, at as int),
        entries(r) == entries(*old(m)).subrange(at as int, entries(*old(m)).len() as int),
{
    m.split_off(at)
}

/// Relies on `IndexMap::drain`: the entries of the range are removed and
/// handed out in order, the later ones moving up. It panics on a range that
/// is reversed or goes past the end.
#[verifier::external_body]
pub(crate) fn im_drain(m: &mut IndexMap<u64, u64>, start: usize, end: usize) -> (r: Vec<(u64, u64)>)
    requires
        start <= end <= entries(*old(m)).len(),
    ensures
        r@ == entries(*old(m)).subrange(start as int, end as int),
        entries(*final(m)) == entries(*old(m)).subrange(0, start as int)
            + entries(*old(m)).subrange(end as int, entries(*old(m)).len() as int),
{
    m.drain(start..end).collect()
}

/// Relies on `IndexMap::splice`: the entries of the range are removed and
/// handed out in order; then each new pair whose key is among the entries
/// after the range updates that value in place, and every other pair is
/// inserted into the gap as `insert` would. It panics on a range that is
/// reversed or goes past the end.
#[verifier::external_body]
pub(crate) fn im_splice(m: &mut IndexMap<u64, u64>, start: usize, end: usize, items: Vec<(u64, u64)>) -> (r: Vec<(u64, u64)>)
    requires
        start <= end <= entries(*old(m)).len(),
    ensures
        r@ == entries(*old(m)).subrange(start as int, end as int),
        ({
            let s = entries(*old(m));
            let parts = spliced(s.subrange(0, start as int), s.subrange(end as int, s.len() as int), items@);
            entries(*final(m)) == parts.0 + parts.1
        }),
{
    m.splice(start..end, items).collect()
}

} // verus!

verus! {

/// `indexmap::IndexSet`, the value-less counterpart of `IndexMap`; opaque
/// here, and read through [`items`].
#[verifier::external_type_specification]
#[verifier::external_body]
#[verifier::reject_recursive_types(T)]
#[verifier::reject_recursive_types(S)]
pub struct ExIndexSet<T, S>(IndexSet<T, S>);

/// The values of an `IndexSet`, in their order.
pub uninterp spec fn items(s: IndexSet<u64>) -> Seq<u64>;

/// Relies on `IndexSet::new`: a new set is empty.
#[verifier::external_body]
pub(crate) fn is_new() -> (r: IndexSet<u64>)
    ensures
        items(r) == Seq::<u64>::empty(),
{
    IndexSet::new()
}

/// Relies on `IndexSet::with_capacity`: a new set is empty, whatever room it
/// reserves.
#[verifier::external_body]
pub(crate) fn is_with_capacity(n: usize) -> (r: IndexSet<u64>)
    ensures
        items(r) == Seq::<u64>::empty(),
{
    IndexSet::with_capacity(n)
}

/// Relies on `IndexSet::clone`: a copy with the same values in the same
/// order.
#[verifier::external_body]
pub(crate) fn is_clone(s: &IndexSet<u64>) -> (r: IndexSet<u64>)
    ensures
        items(r) == items(*s),
{
    s.clone()
}

/// Relies on `IndexSet::len`: the number of values.
#[verifier::external_body]
pub(crate) fn is_len(s: &IndexSet<u64>) -> (r: usize)
    ensures
        r as int == items(*s).len(),
{
    s.len()
}

/// Relies on `IndexSet::clear`: no value is left.
#[verifier::external_body]
pub(crate) fn is_clear(s: &mut IndexSet<u64>)
    ensures
        items(*final(s)) == Seq::<u64>::empty(),
{
    s.clear()
}

/// Relies on `IndexSet::truncate`: the first `len` values stay, or all of
/// them when there are fewer.
#[verifier::external_body]
pub(crate) fn is_truncate(s: &mut IndexSet<u64>, len: usize)
    ensures
        len < items(*old(s)).len() ==> items(*final(s)) == items(*old(s)).subrange(0, len as int),
        len >= items(*old(s)).len() ==> items(*final(s)) == items(*old(s)),
{
    s.truncate(len)
}

/// Relies on `IndexSet::insert_full`: a present value stays where it is and
/// `false` comes back; a new value is appended and `true` comes back.
#[verifier::external_body]
pub(crate) fn is_insert_full(s: &mut IndexSet<u64>, x: u64) -> (r: (usize, bool))
    ensures
        items(*old(s)).contains(x) ==> {
            &&& r.0 as int == set_index(items(*old(s)), x)
            &&& !r.1
            &&& items(*final(s)) == items(*old(s))
        },
        !items(*old(s)).contains(x) ==> {
            &&& r.0 as int == items(*old(s)).len()
            &&& r.1
            &&& items(*final(s)) == items(*old(s)).push(x)
        },
{
    s.insert_full(x)
}

/// Relies on `IndexSet::insert_sorted`: the value ends up at the returned
/// position, taken out of its old one if present, the others kept in order;
/// with values in increasing order that is its place in the order.
#[verifier::external_body]
pub(crate) fn is_insert_sorted(s: &mut IndexSet<u64>, x: u64) -> (r: (usize, bool))
    ensures
        r.0 <= set_without(items(*old(s)), x).len(),
        r.1 == !items(*old(s)).contains(x),
        items(*final(s)) == set_without(items(*old(s)), x).insert(r.0 as int, x),
        set_sorted(items(*old(s))) ==> set_sorted_position(set_without(items(*old(s)), x), x, r.0 as int),
{
    s.insert_sorted(x)
}

/// Relies on `IndexSet::shift_insert`: a new value is inserted at `index`, a
/// present one moved there; `true` when it was new. It panics on an index
/// past the end, or at the end for a present value.
#[verifier::external_body]
pub(crate) fn is_shift_insert(s: &mut IndexSet<u64>, index: usize, x: u64) -> (r: bool)
    requires
        items(*old(s)).contains(x) ==> index < items(*old(s)).len(),
        index <= items(*old(s)).len(),
    ensures
        r == !items(*old(s)).contains(x),
        items(*final(s)) == set_without(items(*old(s)), x).insert(index as int, x),
{
    s.shift_insert(index, x)
}

/// Relies on `IndexSet::contains`: whether the value is present.
#[verifier::external_body]
pub(crate) fn is_contains(s: &IndexSet<u64>, x: &u64) -> (r: bool)
    ensures
        r == items(*s).contains(*x),
{
    s.contains(x)
}

/// Relies on `IndexSet::get_index_of`: the position of the value, if present.
#[verifier::external_body]
pub(crate) fn is_get_index_of(s: &IndexSet<u64>, x: &u64) -> (r: Option<usize>)
    ensures
        items(*s).contains(*x) ==> r == Some(set_index(items(*s), *x) as usize),
        !items(*s).contains(*x) ==> r is None,
{
    s.get_index_of(x)
}

/// Relies on `IndexSet::get_index`: the value at a position, if in range.
#[verifier::external_body]
pub(crate) fn is_get_index<'a>(s: &'a IndexSet<u64>, i: usize) -> (r: Option<&'a u64>)
    ensures
        i < items(*s).len() ==> r == Some(&items(*s)[i as int]),
        i >= items(*s).len() ==> r is None,
{
    s.get_index(i)
}

/// Relies on `IndexSet::shift_remove_full`: the value is removed and the
/// later values move up by one.
#[verifier::external_body]
pub(crate) fn is_shift_remove_full(s: &mut IndexSet<u64>, x: &u64) -> (r: Option<(usize, u64)>)
    ensures
        items(*old(s)).contains(*x) ==> (r matches Some(t) && {
            &&& t.0 as int == set_index(items(*old(s)), *x)
            &&& t.1 == *x
            &&& items(*final(s)) == items(*old(s)).remove(t.0 as int)
        }),
        !items(*old(s)).contains(*x) ==> r is None && items(*final(s)) == items(*old(s)),
{
    s.shift_remove_full(x)
}

/// Relies on `IndexSet::swap_remove_full`: the value is removed and the last
/// value takes its position.
#[verifier::external_body]
pub(crate) fn is_swap_remove_full(s: &mut IndexSet<u64>, x: &u64) -> (r: Option<(usize, u64)>)
    ensures
        items(*old(s)).contains(*x) ==> (r matches Some(t) && {
            &&& t.0 as int == set_index(items(*old(s)), *x)
            &&& t.1 == *x
            &&& items(*final(s)) == set_swap_removed(items(*old(s)), t.0 as int)
        }),
        !items(*old(s)).contains(*x) ==> r is None && items(*final(s)) == items(*old(s)),
{
    s.swap_remove_full(x)
}

/// Relies on `IndexSet::pop`: the last value is removed and returned.
#[verifier::external_body]
pub(crate) fn is_pop(s: &mut IndexSet<u64>) -> (r: Option<u64>)
    ensures
        items(*old(s)).len() > 0 ==> r == Some(items(*old(s)).last())
            && items(*final(s)) == items(*old(s)).drop_last(),
        items(*old(s)).len() == 0 ==> r is None && items(*final(s)) == items(*old(s)),
{
    s.pop()
}

/// Relies on `IndexSet::shift_remove_index`: the value at a position is
/// removed and the later values move up by one.
#[verifier::external_body]
pub(crate) fn is_shift_remove_index(s: &mut IndexSet<u64>, i: usize) -> (r: Option<u64>)
    ensures
        i < items(*old(s)).len() ==> r == Some(items(*old(s))[i as int])
            && items(*final(s)) == items(*old(s)).remove(i as int),
        i >= items(*old(s)).len() ==> r is None && items(*final(s)) == items(*old(s)),
{
    s.shift_remove_index(i)
}

/// Relies on `IndexSet::swap_remove_index`: the value at a position is
/// removed and the last value takes its place.
#[verifier::external_body]
pub(crate) fn is_swap_remove_index(s: &mut IndexSet<u64>, i: usize) -> (r: Option<u64>)
    ensures
        i < items(*old(s)).len() ==> r == Some(items(*old(s))[i as int])
            && items(*final(s)) == set_swap_removed(items(*old(s)), i as int),
        i >= items(*old(s)).len() ==> r is None && items(*final(s)) == items(*old(s)),
{
    s.swap_remove_index(i)
}

/// Relies on `IndexSet::move_index`: the value at `from` moves to `to`, the
/// values in between shifting by one. It panics on a position out of range.
#[verifier::external_body]
pub(crate) fn is_move_index(s: &mut IndexSet<u64>, from: usize, to: usize)
    requires
        from < items(*old(s)).len(),
        to < items(*old(s)).len(),
    ensures
        items(*final(s)) == set_moved(items(*old(s)), from as int, to as int),
{
    s.move_index(from, to)
}

/// Relies on `IndexSet::swap_indices`: the values at the two positions change
/// places. It panics on a position out of range.
#[verifier::external_body]
pub(crate) fn is_swap_indices(s: &mut IndexSet<u64>, a: usize, b: usize)
    requires
        a < items(*old(s)).len(),
        b < items(*old(s)).len(),
    ensures
        items(*final(s)) == set_swapped(items(*old(s)), a as int, b as int),
{
    s.swap_indices(a, b)
}

/// Relies on `IndexSet::sort`: the same values, in increasing order.
#[verifier::external_body]
pub(crate) fn is_sort(s: &mut IndexSet<u64>)
    ensures
        items(*final(s)).len() == items(*old(s)).len(),
        forall|x: u64| items(*old(s)).contains(x) <==> #[trigger] items(*final(s)).contains(x),
        set_sorted(items(*final(s))),
{
    s.sort()
}

/// Relies on `IndexSet::sort_unstable`: the same values, in increasing order.
#[verifier::external_body]
pub(crate) fn is_sort_unstable(s: &mut IndexSet<u64>)
    ensures
        items(*final(s)).len() == items(*old(s)).len(),
        forall|x: u64| items(*old(s)).contains(x) <==> #[trigger] items(*final(s)).contains(x),
        set_sorted(items(*final(s))),
{
    s.sort_unstable()
}

/// Relies on `IndexSet::reverse`: the values in reverse order.
#[verifier::external_body]
pub(crate) fn is_reverse(s: &mut IndexSet<u64>)
    ensures
        items(*final(s)) == set_reversed(items(*old(s))),
{
    s.reverse()
}

/// Relies on `IndexSet::binary_search`, a binary search over the values: on
/// values in increasing order it finds a present value and places an absent
/// one.
#[verifier::external_body]
pub(crate) fn is_binary_search(s: &IndexSet<u64>, x: &u64) -> (r: Result<usize, usize>)
    ensures
        set_sorted(items(*s)) ==> set_search_result(items(*s), *x, r),
{
    s.binary_search(x)
}

/// Relies on `IndexSet::split_off`: the values from `at` on go to the new
/// set, the others stay. It panics when `at` is past the end.
#[verifier::external_body]
pub(crate) fn is_split_off(s: &mut IndexSet<u64>, at: usize) -> (r: IndexSet<u64>)
    requires
        at <= items(*old(s)).len(),
    ensures
        items(*final(s)) == items(*old(s)).subrange(0, at as int),
        items(r) == items(*old(s)).subrange(at as int, items(*old(s)).len() as int),
{
    s.split_off(at)
}

/// Relies on `IndexSet::drain`: the values of the range are removed and
/// handed out in order, the later ones moving up. It panics on a range that
/// is reversed or goes past the end.
#[verifier::external_body]
pub(crate) fn is_drain(s: &mut IndexSet<u64>, start: usize, end: usize) -> (r: Vec<u64>)
    requires
        start <= end <= items(*old(s)).len(),
    ensures
        r@ == items(*old(s)).subrange(start as int, end as int),
        items(*final(s)) == items(*old(s)).subrange(0, start as int)
            + items(*old(s)).subrange(end as int, items(*old(s)).len() as int),
{
    s.drain(start..end).collect()
}

/// Relies on `IndexSet::splice`: the values of the range are removed and
/// handed out in order; then each new value already in the set stays where
/// it is and every other is inserted into the gap, in order. It panics on a
/// range that is reversed or goes past the end.
#[verifier::external_body]
pub(crate) fn is_splice(s: &mut IndexSet<u64>, start: usize, end: usize, values: Vec<u64>) -> (r: Vec<u64>)
    requires
        start <= end <= items(*old(s)).len(),
    ensures
        r@ == items(*old(s)).subrange(start as int, end as int),
        ({
            let x = items(*old(s));
            let parts = set_spliced(x.subrange(0, start as int), x.subrange(end as int, x.len() as int), values@);
            items(*final(s)) == parts.0 + parts.1
        }),
{
    s.splice(start..end, values).collect()
}

/// Relies on `IndexSet::difference`: the values of `a` that `b` lacks, in
/// `a`'s order.
#[verifier::external_body]
pub(crate) fn is_difference(a: &IndexSet<u64>, b: &IndexSet<u64>) -> (r: Vec<u64>)
    ensures
        r@ == items(*a).filter(|x: u64| !items(*b).contains(x)),
{
    a.difference(b).copied().collect()
}

/// Relies on `IndexSet::intersection`: the values of `a` that `b` has too,
/// in `a`'s order.
#[verifier::external_body]
pub(crate) fn is_intersection(a: &IndexSet<u64>, b: &IndexSet<u64>) -> (r: Vec<u64>)
    ensures
        r@ == items(*a).filter(|x: u64| items(*b).contains(x)),
{
    a.intersection(b).copied().collect()
}

/// Relies on `IndexSet::union`: the values of `a` in order, then those of `b`
/// that `a` lacks, in `b`'s order.
#[verifier::external_body]
pub(crate) fn is_union(a: &IndexSet<u64>, b: &IndexSet<u64>) -> (r: Vec<u64>)
    ensures
        r@ == items(*a) + items(*b).filter(|x: u64| !items(*a).contains(x)),
{
    a.union(b).copied().collect()
}

/// Relies on `IndexSet::symmetric_difference`: the values of `a` that `b`
/// lacks, then those of `b` that `a` lacks, each in its own order.
#[verifier::external_body]
pub(crate) fn is_symmetric_difference(a: &IndexSet<u64>, b: &IndexSet<u64>) -> (r: Vec<u64>)
    ensures
        r@ == items(*a).filter(|x: u64| !items(*b).contains(x)) + items(*b).filter(|x: u64| !items(*a).contains(x)),
{
    a.symmetric_difference(b).copied().collect()
}

/// Relies on `IndexSet::is_disjoint`: no value in common.
#[verifier::external_body]
pub(crate) fn is_is_disjoint(a: &IndexSet<u64>, b: &IndexSet<u64>) -> (r: bool)
    ensures
        r == disjoint(items(*a), items(*b)),
{
    a.is_disjoint(b)
}

/// Relies on `IndexSet::is_subset`: every value of `a` is in `b`.
#[verifier::external_body]
pub(crate) fn is_is_subset(a: &IndexSet<u64>, b: &IndexSet<u64>) -> (r: bool)
    ensures
        r == subset_of(items(*a), items(*b)),
{
    a.is_subset(b)
}

} // verus!

verus! {

/// Feed an integer to a hasher.
///
/// Relies on `<u64 as Hash>::hash`; nothing is known of the hasher's state.
#[verifier::external_body]
pub(crate) fn hash_u64<H: core::hash::Hasher>(x: u64, state: &mut H) {
    core::hash::Hash::hash(&x, state)
}

/// Feed a length to a hasher.
///
/// Relies on `<usize as Hash>::hash`; nothing is known of the hasher's state.
#[verifier::external_body]
pub(crate) fn hash_usize<H: core::hash::Hasher>(n: usize, state: &mut H) {
    core::hash::Hash::hash(&n, state)
}

} // verus!

verus! {


} // verus!

verus! {



} // verus!

verus! {



} // verus!

verus! {

/// Relies on `IndexMap::sort_by`, which sorts the entry vector with
/// `slice::sort_by`, a stable sort: with a comparison that is a total order,
/// the same entries in an order the comparison accepts, ties kept in their
/// order.
#[verifier::external_body]
pub(crate) fn im_sort_by<F: Fn(&u64, &u64, &u64, &u64) -> core::cmp::Ordering>(m: &mut IndexMap<u64, u64>, cmp: F)
    requires
        total_order(cmp),
    ensures
        entries(*final(m)).to_multiset() == entries(*old(m)).to_multiset(),
        sorted_by(cmp, entries(*final(m))),
        ties_kept(cmp, entries(*old(m)), entries(*final(m))),
{
    m.sort_by(cmp)
}

/// Relies on `IndexMap::sort_unstable_by`, which sorts the entry vector with
/// `slice::sort_unstable_by`: with a comparison that is a total order, the
/// same entries in an order the comparison accepts.
#[verifier::external_body]
pub(crate) fn im_sort_unstable_by<F: Fn(&u64, &u64, &u64, &u64) -> core::cmp::Ordering>(m: &mut IndexMap<u64, u64>, cmp: F)
    requires
        total_order(cmp),
    ensures
        entries(*final(m)).to_multiset() == entries(*old(m)).to_multiset(),
        sorted_by(cmp, entries(*final(m))),
{
    m.sort_unstable_by(cmp)
}

/// Relies on `IndexMap::sort_by_cached_key`, which sorts the entry vector
/// with `slice::sort_by_cached_key`: the sort key of each entry is computed
/// once, and the sort is stable.
#[verifier::external_body]
pub(crate) fn im_sort_by_cached_key<F: Fn(&u64, &u64) -> u64>(m: &mut IndexMap<u64, u64>, sort_key: F)
    requires
        forall|k: &u64, v: &u64| sort_key.requires((k, v)),
    ensures
        exists|keys: Seq<u64>, order: Seq<int>| {
            &&& #[trigger] arranged_by(entries(*old(m)), entries(*final(m)), keys, order)
            &&& forall|i: int| 0 <= i < keys.len() ==>
                sort_key.ensures((&entries(*old(m))[i].0, &entries(*old(m))[i].1), #[trigger] keys[i])
        },
{
    m.sort_by_cached_key(sort_key)
}

/// Relies on `IndexMap::retain`, which runs `Vec::retain_mut` over the
/// entries: `keep` sees each entry once, in order, and the entries it
/// accepts stay, in order.
#[verifier::external_body]
pub(crate) fn im_retain<F: Fn(&u64, &u64) -> bool>(m: &mut IndexMap<u64, u64>, keep: F)
    requires
        forall|k: &u64, v: &u64| keep.requires((k, v)),
    ensures
        exists|flags: Seq<bool>| {
            &&& flags.len() == entries(*old(m)).len()
            &&& forall|i: int| 0 <= i < flags.len() ==>
                keep.ensures((&entries(*old(m))[i].0, &entries(*old(m))[i].1), #[trigger] flags[i])
            &&& #[trigger] selected(entries(*old(m)), flags) == entries(*final(m))
        },
{
    m.retain(|k, v| keep(k, v))
}

/// Relies on `IndexMap::binary_search_by`, a binary search of the entry
/// vector with `slice::binary_search_by`: on entries sorted as `f` sees
/// them, it finds an entry `f` rates `Equal`, or the place where one would
/// go.
#[verifier::external_body]
pub(crate) fn im_binary_search_by<F: Fn(&u64, &u64) -> core::cmp::Ordering>(m: &IndexMap<u64, u64>, f: F) -> (r: Result<usize, usize>)
    requires
        forall|k: &u64, v: &u64| f.requires((k, v)),
    ensures
        ordered_along(f, entries(*m)) ==> found_by(f, entries(*m), r),
{
    m.binary_search_by(f)
}

/// Relies on `IndexMap::binary_search_by_key`: on entries whose sort keys
/// under `f` never decrease, it finds an entry with sort key `b`, or the
/// place where one would go.
#[verifier::external_body]
pub(crate) fn im_binary_search_by_key<F: Fn(&u64, &u64) -> u64>(m: &IndexMap<u64, u64>, b: &u64, f: F) -> (r: Result<usize, usize>)
    requires
        forall|k: &u64, v: &u64| f.requires((k, v)),
    ensures
        keyed_along(f, entries(*m)) ==> found_by_key(f, entries(*m), *b, r),
{
    m.binary_search_by_key(b, f)
}

/// Relies on `IndexMap::partition_point`, `slice::partition_point` over the
/// entries: on entries where `pred` holds of a prefix and of nothing after
/// it, the length of that prefix.
#[verifier::external_body]
pub(crate) fn im_partition_point<P: Fn(&u64, &u64) -> bool>(m: &IndexMap<u64, u64>, pred: P) -> (r: usize)
    requires
        forall|k: &u64, v: &u64| pred.requires((k, v)),
    ensures
        partitioned(pred, entries(*m)) ==> {
            &&& r <= entries(*m).len()
            &&& forall|j: int, b: bool| 0 <= j < r && #[trigger] pred.ensures((&entries(*m)[j].0, &entries(*m)[j].1), b) ==> b
            &&& forall|j: int, b: bool| r <= j < entries(*m).len()
                && #[trigger] pred.ensures((&entries(*m)[j].0, &entries(*m)[j].1), b) ==> !b
        },
{
    m.partition_point(pred)
}

} // verus!

verus! {

/// Relies on `IndexSet::sort_by`, which sorts the entry vector with
/// `slice::sort_by`, a stable sort: with a comparison that is a total order,
/// the same values in an order the comparison accepts, ties kept in their
/// order.
#[verifier::external_body]
pub(crate) fn is_sort_by<F: Fn(&u64, &u64) -> core::cmp::Ordering>(s: &mut IndexSet<u64>, cmp: F)
    requires
        set_total_order(cmp),
    ensures
        items(*final(s)).to_multiset() == items(*old(s)).to_multiset(),
        set_sorted_by(cmp, items(*final(s))),
        set_ties_kept(cmp, items(*old(s)), items(*final(s))),
{
    s.sort_by(cmp)
}

/// Relies on `IndexSet::sort_unstable_by`, which sorts the entry vector with
/// `slice::sort_unstable_by`: with a comparison that is a total order, the
/// same values in an order the comparison accepts.
#[verifier::external_body]
pub(crate) fn is_sort_unstable_by<F: Fn(&u64, &u64) -> core::cmp::Ordering>(s: &mut IndexSet<u64>, cmp: F)
    requires
        set_total_order(cmp),
    ensures
        items(*final(s)).to_multiset() == items(*old(s)).to_multiset(),
        set_sorted_by(cmp, items(*final(s))),
{
    s.sort_unstable_by(cmp)
}

/// Relies on `IndexSet::retain`, which runs `Vec::retain_mut` over the
/// entries: `keep` sees each value once, in order, and the values it accepts
/// stay, in order.
#[verifier::external_body]
pub(crate) fn is_retain<F: Fn(&u64) -> bool>(s: &mut IndexSet<u64>, keep: F)
    requires
        forall|x: &u64| keep.requires((x,)),
    ensures
        exists|flags: Seq<bool>| {
            &&& flags.len() == items(*old(s)).len()
            &&& forall|i: int| 0 <= i < flags.len() ==> keep.ensures((&items(*old(s))[i],), #[trigger] flags[i])
            &&& #[trigger] set_selected(items(*old(s)), flags) == items(*final(s))
        },
{
    s.retain(keep)
}

/// Relies on `IndexSet::binary_search_by`, `slice::binary_search_by` over the
/// values: on values sorted as `f` sees them, it finds a value `f` rates
/// `Equal`, or the place where one would go.
#[verifier::external_body]
pub(crate) fn is_binary_search_by<F: Fn(&u64) -> core::cmp::Ordering>(s: &IndexSet<u64>, f: F) -> (r: Result<usize, usize>)
    requires
        forall|x: &u64| f.requires((x,)),
    ensures
        set_ordered_along(f, items(*s)) ==> set_found_by(f, items(*s), r),
{
    s.binary_search_by(f)
}

/// Relies on `IndexSet::partition_point`, `slice::partition_point` over the
/// values: on values where `pred` holds of a prefix and of nothing after it,
/// the length of that prefix.
#[verifier::external_body]
pub(crate) fn is_partition_point<P: Fn(&u64) -> bool>(s: &IndexSet<u64>, pred: P) -> (r: usize)
    requires
        forall|x: &u64| pred.requires((x,)),
    ensures
        set_partitioned(pred, items(*s)) ==> {
            &&& r <= items(*s).len()
            &&& forall|j: int, b: bool| 0 <= j < r && #[trigger] pred.ensures((&items(*s)[j],), b) ==> b
            &&& forall|j: int, b: bool| r <= j < items(*s).len() && #[trigger] pred.ensures((&items(*s)[j],), b) ==> !b
        },
{
    s.partition_point(pred)
}

} // verus!

//! Opt-in access to the entries of an [`OrderMap`] in place, through sealed
//! traits that only this crate implements.
//!
//! The keys of this map are integers: any change to one changes its hash and
//! its equality, which would leave the entry unreachable. Keys are therefore
//! handed out for reading, values for writing; [`MutableEntryKey::key_mut`]
//! reaches the view's own copy of its key, never the key stored in the map.
use vstd::prelude::*;
use crate::map::OrderMap;
use crate::map::entry::Entry;
use crate::model::{has_key, key_index};

verus! {

/// Restricts the traits of this module, and of the raw entry API, to the
/// types of this crate. It is reachable from no public path.
pub trait Sealed {}

impl Sealed for OrderMap {}

impl<'a> Sealed for Entry<'a> {}

/// Positional and keyed access to an entry, with its key and a mutable
/// reference to its value.
pub trait MutableKeys: Sealed {
    /// The entries, in their order.
    spec fn entries_of(&self) -> Seq<(u64, u64)>;

    /// No key occurs twice.
    spec fn entries_wf(&self) -> bool;

    /// The position, key and a mutable reference to the value of `key`'s
    /// entry, if present; writing through it changes that value only.
    fn get_full_mut2(&mut self, key: &u64) -> (r: Option<(usize, &u64, &mut u64)>)
        requires
            old(self).entries_wf(),
        ensures
            !has_key(old(self).entries_of(), *key) ==> r is None && final(self).entries_of() == old(self).entries_of(),
            has_key(old(self).entries_of(), *key) ==> (r matches Some(t) && {
                let i = key_index(old(self).entries_of(), *key);
                &&& t.0 as int == i
                &&& *t.1 == *key
                &&& *t.2 == old(self).entries_of()[i].1
                &&& final(self).entries_of() == old(self).entries_of().update(i, (*key, *final(t.2)))
            }),
    ;

    /// The key at position `index` and a mutable reference to its value, if
    /// in range; writing through it changes that value only.
    fn get_index_mut2(&mut self, index: usize) -> (r: Option<(&u64, &mut u64)>)
        requires
            old(self).entries_wf(),
        ensures
            index >= old(self).entries_of().len() ==> r is None && final(self).entries_of() == old(self).entries_of(),
            index < old(self).entries_of().len() ==> (r matches Some(t) && {
                &&& *t.0 == old(self).entries_of()[index as int].0
                &&& *t.1 == old(self).entries_of()[index as int].1
                &&& final(self).entries_of() == old(self).entries_of().update(index as int, (*t.0, *final(t.1)))
            }),
    ;
}

impl MutableKeys for OrderMap {
    open spec fn entries_of(&self) -> Seq<(u64, u64)> {
        self@
    }

    open spec fn entries_wf(&self) -> bool {
        self.wf()
    }

    fn get_full_mut2(&mut self, key: &u64) -> (r: Option<(usize, &u64, &mut u64)>) {
        self.get_full_mut(key)
    }

    fn get_index_mut2(&mut self, index: usize) -> (r: Option<(&u64, &mut u64)>) {
        self.get_index_mut(index)
    }
}

/// Mutable access to the key an entry view was made for.
pub trait MutableEntryKey: Sealed {
    /// The view is usable.
    spec fn view_valid(&self) -> bool;

    /// The key of the view.
    spec fn view_key(&self) -> u64;

    /// A mutable reference to the view's own copy of its key, not to the key
    /// stored in the map: writing through it leaves the map as it is. A view
    /// whose key is changed no longer meets its validity (an occupied view's
    /// copy must equal the stored key, a vacant view's must be absent), so it
    /// cannot then be used to change the map.
    fn key_mut(&mut self) -> (r: &mut u64)
        ensures
            *r == old(self).view_key(),
            final(self).view_key() == *final(r),
    ;
}

impl<'a> MutableEntryKey for Entry<'a> {
    open spec fn view_valid(&self) -> bool {
        self.valid()
    }

    open spec fn view_key(&self) -> u64 {
        self.key_spec()
    }

    fn key_mut(&mut self) -> (r: &mut u64) {
        match self {
            Entry::Occupied(e) => &mut e.key,
            Entry::Vacant(e) => &mut e.key,
        }
    }
}

} // verus!

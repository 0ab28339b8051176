//! Opt-in access to the values of an [`OrderSet`] in place, through a sealed
//! trait that only this crate implements.
//!
//! The values of this set are integers: any change to one changes its hash
//! and its equality, which would leave it unreachable. Values are therefore
//! handed out for reading.
use vstd::prelude::*;
use crate::set::{OrderSet, set_index};

verus! {

/// Restricts the trait of this module to the types of this crate.
pub trait Sealed {}

impl Sealed for OrderSet {}

/// Keyed and positional access to a stored value.
pub trait MutableValues: Sealed {
    /// The values, in their order.
    spec fn values_of(&self) -> Seq<u64>;

    /// The position of `value` and the stored value, if present.
    fn get_full_mut2(&mut self, value: &u64) -> (r: Option<(usize, &u64)>)
        ensures
            final(self).values_of() == old(self).values_of(),
            old(self).values_of().contains(*value) ==> (r matches Some(t)
                && t.0 as int == set_index(old(self).values_of(), *value) && *t.1 == *value),
            !old(self).values_of().contains(*value) ==> r is None,
    ;

    /// The stored value at position `index`, if in range.
    fn get_index_mut2(&mut self, index: usize) -> (r: Option<&u64>)
        ensures
            final(self).values_of() == old(self).values_of(),
            index < old(self).values_of().len() ==> r == Some(&old(self).values_of()[index as int]),
            index >= old(self).values_of().len() ==> r is None,
    ;
}

impl MutableValues for OrderSet {
    open spec fn values_of(&self) -> Seq<u64> {
        self@
    }

    fn get_full_mut2(&mut self, value: &u64) -> (r: Option<(usize, &u64)>) {
        self.get_full(value)
    }

    fn get_index_mut2(&mut self, index: usize) -> (r: Option<&u64>) {
        self.get_index(index)
    }
}

} // verus!

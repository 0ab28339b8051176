//! An insertion-ordered hash map and set with order-sensitive comparison.
//!
//! [`OrderMap`] keeps its entries in a dense sequence addressed by position
//! `0..len`, with a hash index over the keys; [`OrderSet`] is the keyed
//! specialization without values. Equality, ordering and hashing take the
//! order of the entries into account.
//!
//! Keys, values and set members are 64-bit unsigned integers. Each type is
//! specified over a view, the sequence of its entries in their order, and
//! keeps its entries in an `indexmap` store whose operations this library
//! relies on as stated in [`inner`].

pub mod model;
pub mod lemmas;
pub mod inner;
pub mod map;
pub mod set;
pub mod laws;

pub use crate::map::{OrderMap, ReserveError};
pub use crate::set::OrderSet;

use vstd::prelude::*;

verus! {

/// Builds a map and a set through their default constructors and uses each
/// once: two inserts and a walk over the map, a map built from one pair, and
/// one insert into the set.
pub fn test_compile() {
    let mut map = OrderMap::default();
    map.insert(1, 1);
    map.insert(2, 4);
    let entries = map.iter();
    let mut i: usize = 0;
    while i < entries.len()
        decreases entries.len() - i,
    {
        i += 1;
    }

    let _map2 = OrderMap::from_iter(vec![(1, 1)]);

    let mut set = OrderSet::default();
    set.insert(97);
}

} // verus!

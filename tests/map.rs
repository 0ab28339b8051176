use ordermap::map::raw_entry_v1::RawEntryMut;
use ordermap::map::{Entry, MutableEntryKey, MutableKeys, RawEntryApiV1};
use ordermap::OrderMap;
use std::cmp::Ordering;
use std::collections::hash_map::DefaultHasher;
use std::hash::{Hash, Hasher};

fn map_of(pairs: &[(u64, u64)]) -> OrderMap {
    OrderMap::from_iter(pairs.to_vec())
}

fn hash_of(m: &OrderMap) -> u64 {
    let mut h = DefaultHasher::new();
    m.hash(&mut h);
    h.finish()
}

#[test]
fn insert_keeps_order() {
    let insert = [0u64, 4, 2, 12, 8, 7, 11, 5, 3, 17, 19, 22, 23];
    let mut map = OrderMap::new();
    for &k in &insert {
        assert_eq!(map.insert(k, k * 10), None);
    }
    assert_eq!(map.len(), insert.len());
    assert_eq!(map.keys(), insert.to_vec());
    for (i, &k) in insert.iter().enumerate() {
        assert_eq!(map.get_index(i), Some((&k, &(k * 10))));
        assert_eq!(map.get_index_of(&k), Some(i));
    }
    assert_eq!(map.get_index(insert.len()), None);
}

#[test]
fn positional_access_then_swap_remove() {
    let mut map = OrderMap::new();
    for k in [0u64, 4, 2, 12, 8] {
        map.insert(k, 0);
    }
    let keys: Vec<u64> = (0..5).map(|i| *map.get_index(i).unwrap().0).collect();
    assert_eq!(keys, vec![0, 4, 2, 12, 8]);
    assert_eq!(map.swap_remove(&4), Some(0));
    assert_eq!(map.get_index(1), Some((&8, &0)));
    assert_eq!(map.keys(), vec![0, 8, 2, 12]);
}

#[test]
fn splice_updates_and_inserts() {
    let c = |ch: char| ch as u64;
    let mut map = map_of(&[(0, c('_')), (1, c('a')), (2, c('b')), (3, c('c')), (4, c('d'))]);
    let new = vec![(5, c('E')), (4, c('D')), (3, c('C')), (2, c('B')), (1, c('A'))];
    let removed = map.splice(2..4, new);
    assert_eq!(removed, vec![(2, c('b')), (3, c('c'))]);
    assert_eq!(
        map.iter(),
        vec![(0, c('_')), (1, c('A')), (5, c('E')), (3, c('C')), (2, c('B')), (4, c('D'))]
    );
}

#[test]
fn equality_depends_on_order() {
    let a_val = 'a' as u64;
    let b_val = 'b' as u64;
    let ab = map_of(&[(1, a_val), (2, b_val)]);
    let ba = map_of(&[(2, b_val), (1, a_val)]);
    assert!(ab != ba);
    assert_eq!(ab.get(&1), ba.get(&1));
    assert_eq!(ab.get(&2), ba.get(&2));
    assert_eq!(ab.len(), ba.len());
    let ab2 = map_of(&[(1, a_val), (2, b_val)]);
    assert!(ab == ab2);
    assert_eq!(hash_of(&ab), hash_of(&ab2));
}

#[test]
fn duplicate_insert_keeps_first_position() {
    let mut map = OrderMap::new();
    map.insert(7, 1);
    map.insert(3, 2);
    map.insert(9, 3);
    assert_eq!(map.insert(3, 20), Some(2));
    assert_eq!(map.insert_full(3, 30), (1, Some(20)));
    assert_eq!(map.len(), 3);
    assert_eq!(map.get(&3), Some(&30));
    assert_eq!(map.get_index_of(&3), Some(1));
    assert_eq!(map.get_full(&3), Some((1, &3, &30)));
    assert_eq!(map.get_key_value(&9), Some((&9, &3)));
    assert_eq!(map.insert_full(5, 4), (3, None));
}

#[test]
fn from_iter_of_iter_round_trips() {
    let map = map_of(&[(5, 1), (1, 2), (5, 3), (9, 4)]);
    assert_eq!(map.iter(), vec![(5, 3), (1, 2), (9, 4)]);
    let again = OrderMap::from_iter(map.iter());
    assert!(again == map);
}

#[test]
fn shift_remove_keeps_order_swap_remove_moves_last() {
    let base = map_of(&[(1, 10), (2, 20), (3, 30), (4, 40), (5, 50)]);
    let mut shifted = base.clone();
    assert_eq!(shifted.remove(&2), Some(20));
    assert_eq!(shifted.keys(), vec![1, 3, 4, 5]);
    let mut swapped = base.clone();
    assert_eq!(swapped.swap_remove(&2), Some(20));
    assert_eq!(swapped.keys(), vec![1, 5, 3, 4]);
    assert_eq!(shifted.remove(&42), None);
    assert_eq!(swapped.swap_remove(&42), None);

    let mut m = base.clone();
    assert_eq!(m.remove_full(&3), Some((2, 3, 30)));
    assert_eq!(m.swap_remove_full(&1), Some((0, 1, 10)));
    assert_eq!(m.keys(), vec![5, 2, 4]);
    assert_eq!(m.remove_entry(&2), Some((2, 20)));
    assert_eq!(m.swap_remove_entry(&5), Some((5, 50)));
    assert_eq!(m.keys(), vec![4]);

    let mut n = base.clone();
    assert_eq!(n.remove_index(0), Some((1, 10)));
    assert_eq!(n.swap_remove_index(0), Some((2, 20)));
    assert_eq!(n.keys(), vec![5, 3, 4]);
    assert_eq!(n.remove_index(9), None);
    assert_eq!(n.pop(), Some((4, 40)));
    assert_eq!(n.keys(), vec![5, 3]);
}

#[test]
fn sort_then_binary_search() {
    let mut map = map_of(&[(30, 3), (10, 1), (50, 5), (20, 2)]);
    map.sort_keys();
    assert_eq!(map.iter(), vec![(10, 1), (20, 2), (30, 3), (50, 5)]);
    for (i, k) in [10u64, 20, 30, 50].iter().enumerate() {
        assert_eq!(map.binary_search_keys(k), Ok(i));
    }
    assert_eq!(map.binary_search_keys(&5), Err(0));
    assert_eq!(map.binary_search_keys(&40), Err(3));
    assert_eq!(map.binary_search_keys(&60), Err(4));

    let mut other = map_of(&[(3, 0), (1, 0), (2, 0)]);
    other.sort_unstable_keys();
    assert_eq!(other.keys(), vec![1, 2, 3]);
}

#[test]
fn insert_sorted_finds_place() {
    let mut map = map_of(&[(10, 1), (20, 2), (30, 3)]);
    assert_eq!(map.insert_sorted(25, 9), (2, None));
    assert_eq!(map.insert_sorted(10, 7), (0, Some(1)));
    assert_eq!(map.insert_sorted(40, 4), (4, None));
    assert_eq!(map.iter(), vec![(10, 7), (20, 2), (25, 9), (30, 3), (40, 4)]);
}

#[test]
fn shift_insert_and_moves() {
    let mut map = map_of(&[(1, 1), (2, 2), (3, 3), (4, 4)]);
    assert_eq!(map.shift_insert(1, 9, 9), None);
    assert_eq!(map.keys(), vec![1, 9, 2, 3, 4]);
    assert_eq!(map.shift_insert(4, 1, 10), Some(1));
    assert_eq!(map.keys(), vec![9, 2, 3, 4, 1]);
    assert_eq!(map.get(&1), Some(&10));
    map.move_index(4, 0);
    assert_eq!(map.keys(), vec![1, 9, 2, 3, 4]);
    map.move_index(1, 3);
    assert_eq!(map.keys(), vec![1, 2, 3, 9, 4]);
    map.swap_indices(0, 4);
    assert_eq!(map.keys(), vec![4, 2, 3, 9, 1]);
    map.reverse();
    assert_eq!(map.keys(), vec![1, 9, 3, 2, 4]);
    assert_eq!(map.first(), Some((&1, &10)));
    assert_eq!(map.last(), Some((&4, &4)));
}

#[test]
fn drain_split_truncate_clear() {
    let mut map = map_of(&[(1, 1), (2, 2), (3, 3), (4, 4), (5, 5)]);
    assert_eq!(map.drain(1..3), vec![(2, 2), (3, 3)]);
    assert_eq!(map.keys(), vec![1, 4, 5]);
    let tail = map.split_off(1);
    assert_eq!(tail.keys(), vec![4, 5]);
    assert_eq!(map.keys(), vec![1]);
    let mut m = map_of(&[(1, 1), (2, 2), (3, 3)]);
    m.truncate(5);
    assert_eq!(m.len(), 3);
    m.truncate(1);
    assert_eq!(m.keys(), vec![1]);
    m.clear();
    assert!(m.is_empty());
    assert_eq!(m.first(), None);
    assert_eq!(m.last(), None);
    assert_eq!(m.pop(), None);
}

#[test]
fn lexicographic_comparison() {
    let a = map_of(&[(1, 1), (2, 2)]);
    let b = map_of(&[(1, 1), (3, 0)]);
    let c = map_of(&[(1, 1), (2, 2), (0, 0)]);
    let d = map_of(&[(1, 2)]);
    assert_eq!(a.partial_cmp(&b), Some(Ordering::Less));
    assert_eq!(b.partial_cmp(&a), Some(Ordering::Greater));
    assert_eq!(a.partial_cmp(&c), Some(Ordering::Less));
    assert_eq!(a.partial_cmp(&d), Some(Ordering::Less));
    assert_eq!(a.partial_cmp(&a.clone()), Some(Ordering::Equal));
    assert!(OrderMap::new() < a);
}

#[test]
fn entry_counts_letters() {
    let mut letters = OrderMap::new();
    for ch in "a short treatise on fungi".chars() {
        *letters.entry(ch as u64).or_insert(0) += 1;
    }
    assert_eq!(letters.get(&('s' as u64)), Some(&2));
    assert_eq!(letters.get(&('t' as u64)), Some(&3));
    assert_eq!(letters.get(&('u' as u64)), Some(&1));
    assert_eq!(letters.get(&('y' as u64)), None);
    assert_eq!(letters.get_index(0), Some((&('a' as u64), &2)));
}

#[test]
fn entry_views() {
    let mut map = map_of(&[(1, 10), (2, 20)]);
    match map.entry(2) {
        Entry::Occupied(mut e) => {
            assert_eq!(e.index(), 1);
            assert_eq!(*e.key(), 2);
            assert_eq!(*e.get(), 20);
            assert_eq!(e.insert(21), 20);
            e.move_index(0);
        }
        Entry::Vacant(_) => panic!("key 2 is present"),
    }
    assert_eq!(map.iter(), vec![(2, 21), (1, 10)]);
    match map.entry(3) {
        Entry::Vacant(e) => {
            assert_eq!(e.index(), 2);
            assert_eq!(*e.key(), 3);
            *e.shift_insert(1, 30) += 1;
        }
        Entry::Occupied(_) => panic!("key 3 is absent"),
    }
    assert_eq!(map.iter(), vec![(2, 21), (3, 31), (1, 10)]);
    assert_eq!(*map.entry(4).or_insert_with(|| 40), 40);
    assert_eq!(*map.entry(4).or_insert_with(|| 41), 40);
    assert_eq!(*map.entry(5).or_insert_with_key(|k| k * 100), 500);
    assert_eq!(*map.entry(6).or_default(), 0);
    assert_eq!(map.entry(6).index(), 5);
    assert_eq!(*map.entry(7).key(), 7);
    match map.entry(3) {
        Entry::Occupied(e) => assert_eq!(e.remove(), 31),
        Entry::Vacant(_) => panic!("key 3 is present"),
    }
    match map.entry(2) {
        Entry::Occupied(e) => assert_eq!(e.swap_remove_entry(), (2, 21)),
        Entry::Vacant(_) => panic!("key 2 is present"),
    }
    assert_eq!(map.keys(), vec![6, 1, 4, 5]);
    match map.entry(0) {
        Entry::Vacant(e) => assert_eq!(e.into_key(), 0),
        Entry::Occupied(_) => panic!("key 0 is absent"),
    }
}

#[test]
fn vacant_insert_sorted() {
    let mut map = map_of(&[(10, 1), (30, 3)]);
    match map.entry(20) {
        Entry::Vacant(e) => {
            let (i, v) = e.insert_sorted(2);
            assert_eq!(i, 1);
            assert_eq!(*v, 2);
        }
        Entry::Occupied(_) => panic!("key 20 is absent"),
    }
    assert_eq!(map.keys(), vec![10, 20, 30]);
}

#[test]
fn indexed_entry() {
    let mut map = map_of(&[(1, 10), (2, 20), (3, 30)]);
    assert!(map.get_index_entry(3).is_none());
    {
        let mut e = map.get_index_entry(1).unwrap();
        assert_eq!(e.index(), 1);
        assert_eq!(*e.key(), 2);
        assert_eq!(*e.get(), 20);
        assert_eq!(e.insert(22), 20);
        *e.into_mut() += 1;
    }
    assert_eq!(map.get(&2), Some(&23));
    let e = map.get_index_entry(0).unwrap();
    e.swap_indices(2);
    assert_eq!(map.keys(), vec![3, 2, 1]);
    let e = map.get_index_entry(0).unwrap();
    assert_eq!(e.remove_entry(), (3, 30));
    assert_eq!(map.keys(), vec![2, 1]);
}

#[test]
fn mutable_values_in_place() {
    let mut map = map_of(&[(1, 10), (2, 20)]);
    if let Some(v) = map.get_mut(&2) {
        *v += 5;
    }
    assert!(map.get_mut(&9).is_none());
    if let Some((i, k, v)) = map.get_full_mut(&1) {
        assert_eq!((i, *k), (0, 1));
        *v = 11;
    }
    if let Some((k, v)) = map.get_index_mut(1) {
        assert_eq!(*k, 2);
        *v += 1;
    }
    if let Some((i, k, v)) = map.get_full_mut2(&2) {
        assert_eq!((i, *k), (1, 2));
        *v += 1;
    }
    if let Some((k, v)) = map.get_index_mut2(0) {
        assert_eq!(*k, 1);
        *v += 1;
    }
    assert_eq!(map.iter(), vec![(1, 12), (2, 27)]);
    let mut e = map.entry(5);
    assert_eq!(*e.key_mut(), 5);
}

#[test]
fn values_and_contains() {
    let mut map = OrderMap::with_capacity(4);
    map.extend(vec![(3, 30), (1, 10), (3, 31)]);
    assert_eq!(map.values(), vec![31, 10]);
    assert!(map.contains_key(&1));
    assert!(!map.contains_key(&2));
    let d = OrderMap::default();
    assert!(d.is_empty());
}

#[test]
fn compile_smoke() {
    ordermap::test_compile();
}

#[test]
fn retain_keeps_order_of_kept() {
    let mut map = map_of(&[(1, 10), (2, 25), (3, 30), (4, 45), (5, 50)]);
    map.retain(|_, v| *v % 10 == 0);
    assert_eq!(map.iter(), vec![(1, 10), (3, 30), (5, 50)]);
    assert_eq!(map.get_index_of(&5), Some(2));
    map.retain(|k, _| *k > 100);
    assert!(map.is_empty());
}

#[test]
fn entry_and_modify() {
    let mut map = map_of(&[(1, 10)]);
    *map.entry(1).and_modify(|v| *v += 5).or_insert(0) += 1;
    *map.entry(2).and_modify(|v| *v += 5).or_insert(7) += 1;
    assert_eq!(map.iter(), vec![(1, 16), (2, 8)]);
}

#[test]
fn raw_entries() {
    let mut map = map_of(&[(1, 10), (2, 20)]);
    assert_eq!(map.raw_entry_v1().from_key(&2), Some((&2, &20)));
    assert_eq!(map.raw_entry_v1().from_key(&3), None);
    assert_eq!(map.raw_entry_v1().from_key_full(&1), Some((0, &1, &10)));
    {
        let (k, v) = map.raw_entry_mut_v1().from_key(&3).or_insert(3, 30);
        assert_eq!(*k, 3);
        *v += 1;
    }
    {
        let (k, v) = map.raw_entry_mut_v1().from_key(&1).or_insert_with(|| (9, 9));
        assert_eq!((*k, *v), (1, 10));
    }
    let e = map.raw_entry_mut_v1().from_key(&2).and_modify(|_, v| *v *= 2);
    assert_eq!(e.index(), 1);
    match map.raw_entry_mut_v1().from_key(&4) {
        RawEntryMut::Vacant(e) => {
            assert_eq!(e.index(), 3);
            let (_, v) = e.shift_insert(0, 4, 40);
            *v += 2;
        }
        RawEntryMut::Occupied(_) => panic!("key 4 is absent"),
    }
    assert_eq!(map.iter(), vec![(4, 42), (1, 10), (2, 40), (3, 31)]);
    match map.raw_entry_mut_v1().from_key(&1) {
        RawEntryMut::Occupied(mut e) => {
            assert_eq!(e.get_key_value(), (&1, &10));
            assert_eq!(e.insert(11), 10);
            assert_eq!(*e.key(), 1);
            assert_eq!(*e.get(), 11);
            assert_eq!(e.swap_remove(), 11);
        }
        RawEntryMut::Vacant(_) => panic!("key 1 is present"),
    }
    assert_eq!(map.keys(), vec![4, 3, 2]);
}

#[test]
fn search_by_comparator_and_predicate() {
    let map = map_of(&[(10, 1), (20, 2), (30, 3), (40, 4)]);
    assert_eq!(map.binary_search_by(|k, _| k.cmp(&30)), Ok(2));
    assert_eq!(map.binary_search_by(|k, _| k.cmp(&25)), Err(2));
    assert_eq!(map.binary_search_by(|k, _| k.cmp(&5)), Err(0));
    assert_eq!(map.binary_search_by(|k, _| k.cmp(&45)), Err(4));
    assert_eq!(map.partition_point(|k, _| *k < 25), 2);
    assert_eq!(map.partition_point(|_, v| *v < 100), 4);
    assert_eq!(map.partition_point(|_, _| false), 0);
    assert_eq!(OrderMap::new().partition_point(|_, _| true), 0);
}

#[test]
fn try_reserve_keeps_entries() {
    let mut map = map_of(&[(1, 1), (2, 2)]);
    assert_eq!(map.try_reserve(10), Ok(()));
    assert_eq!(map.try_reserve_exact(3), Ok(()));
    assert!(map.try_reserve(usize::MAX).is_err());
    assert_eq!(map.iter(), vec![(1, 1), (2, 2)]);
}

#[test]
fn sort_by_cached_key_is_stable() {
    let mut map = map_of(&[(1, 30), (2, 10), (3, 20), (4, 10), (5, 30)]);
    map.sort_by_cached_key(|_, v| *v);
    assert_eq!(map.keys(), vec![2, 4, 3, 1, 5]);
    assert_eq!(map.get_index_of(&3), Some(2));
    map.sort_by_cached_key(|k, _| 10 - *k);
    assert_eq!(map.keys(), vec![5, 4, 3, 2, 1]);
}

#[test]
fn first_last_mut_and_into() {
    let mut map = map_of(&[(1, 10), (2, 20), (3, 30)]);
    if let Some((k, v)) = map.first_mut() {
        assert_eq!(*k, 1);
        *v += 1;
    }
    if let Some((k, v)) = map.last_mut() {
        assert_eq!(*k, 3);
        *v += 3;
    }
    assert!(OrderMap::new().first_mut().is_none());
    assert!(OrderMap::new().last_mut().is_none());
    assert_eq!(map.clone().into_keys(), vec![1, 2, 3]);
    assert_eq!(map.into_values(), vec![11, 20, 33]);
}

#[test]
fn sort_by_comparator() {
    let mut map = map_of(&[(1, 30), (2, 10), (3, 20), (4, 10)]);
    map.sort_by(|k1, v1, k2, v2| v1.cmp(v2).then(k2.cmp(k1)));
    assert_eq!(map.keys(), vec![4, 2, 3, 1]);
    map.sort_unstable_by(|k1, _, k2, _| k1.cmp(k2));
    assert_eq!(map.keys(), vec![1, 2, 3, 4]);
    assert_eq!(map.get_index_of(&3), Some(2));
}

#[test]
fn sorted_and_search_by_key() {
    let map = map_of(&[(3, 1), (1, 2), (2, 3)]);
    assert_eq!(map.clone().sorted_by(|a, _, b, _| a.cmp(b)), vec![(1, 2), (2, 3), (3, 1)]);
    assert_eq!(map.clone().sorted_unstable_by(|_, x, _, y| y.cmp(x)), vec![(2, 3), (1, 2), (3, 1)]);
    let sorted = map_of(&[(1, 5), (2, 7), (3, 9)]);
    assert_eq!(sorted.binary_search_by_key(&7, |_, v| *v), Ok(1));
    assert_eq!(sorted.binary_search_by_key(&8, |_, v| *v), Err(2));
    assert_eq!(sorted.binary_search_by_key(&1, |_, v| *v), Err(0));
}

#[test]
fn hash_input_is_length_then_entries() {
    let map = map_of(&[(3, 30), (1, 10)]);
    assert_eq!(map.hash_input(), (2, vec![3, 30, 1, 10]));
    assert_eq!(OrderMap::new().hash_input(), (0, vec![]));
    let mut expected = DefaultHasher::new();
    2usize.hash(&mut expected);
    for w in [3u64, 30, 1, 10] {
        w.hash(&mut expected);
    }
    assert_eq!(hash_of(&map), expected.finish());
}

#[test]
fn sort_by_keeps_ties_in_order() {
    let mut map = map_of(&[(5, 2), (4, 1), (3, 2), (2, 1), (1, 2)]);
    map.sort_by(|_, v1, _, v2| v1.cmp(v2));
    assert_eq!(map.keys(), vec![4, 2, 5, 3, 1]);
}

#[test]
fn first_insertion_fixes_position() {
    let mut map = OrderMap::new();
    for (k, v) in [(7u64, 1u64), (7, 2), (3, 3), (7, 4), (9, 5), (3, 6)] {
        map.insert(k, v);
    }
    assert_eq!(map.len(), 3);
    assert_eq!(map.get_index_of(&7), Some(0));
    assert_eq!(map.get_index_of(&3), Some(1));
    assert_eq!(map.get_index_of(&9), Some(2));
    assert_eq!(map.get(&7), Some(&4));
    assert_eq!(map.get(&3), Some(&6));
}

#[test]
fn entry_get_mut_and_shrink() {
    let mut map = map_of(&[(1, 10), (2, 20)]);
    match map.entry(2) {
        Entry::Occupied(mut e) => {
            *e.get_mut() += 5;
            assert_eq!(*e.get(), 25);
        }
        Entry::Vacant(_) => panic!("key 2 is present"),
    }
    {
        let mut e = map.get_index_entry(0).unwrap();
        *e.get_mut() = 11;
        assert_eq!(*e.get(), 11);
    }
    map.shrink_to_fit();
    map.shrink_to(10);
    assert_eq!(map.iter(), vec![(1, 11), (2, 25)]);
}

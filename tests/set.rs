use ordermap::set::MutableValues;
use ordermap::OrderSet;
use std::cmp::Ordering;
use std::collections::hash_map::DefaultHasher;
use std::hash::{Hash, Hasher};

fn set_of(values: &[u64]) -> OrderSet {
    OrderSet::from_iter(values.to_vec())
}

fn hash_of(s: &OrderSet) -> u64 {
    let mut h = DefaultHasher::new();
    s.hash(&mut h);
    h.finish()
}

#[test]
fn set_insert_order_and_duplicates() {
    let mut set = OrderSet::new();
    assert!(set.insert(5));
    assert!(set.insert(1));
    assert!(!set.insert(5));
    assert_eq!(set.insert_full(9), (2, true));
    assert_eq!(set.insert_full(1), (1, false));
    assert_eq!(set.iter(), vec![5, 1, 9]);
    assert!(set.contains(&9));
    assert!(!set.contains(&2));
    assert_eq!(set.get_index_of(&1), Some(1));
    assert_eq!(set.get_index(2), Some(&9));
    assert_eq!(set.first(), Some(&5));
    assert_eq!(set.last(), Some(&9));
}

#[test]
fn set_removals() {
    let base = set_of(&[1, 2, 3, 4, 5]);
    let mut a = base.clone();
    assert!(a.remove(&2));
    assert!(!a.remove(&2));
    assert_eq!(a.iter(), vec![1, 3, 4, 5]);
    let mut b = base.clone();
    assert!(b.swap_remove(&2));
    assert_eq!(b.iter(), vec![1, 5, 3, 4]);
    assert_eq!(b.remove_full(&3), Some((2, 3)));
    assert_eq!(b.swap_remove_full(&1), Some((0, 1)));
    assert_eq!(b.iter(), vec![4, 5]);
    let mut c = base.clone();
    assert_eq!(c.remove_index(0), Some(1));
    assert_eq!(c.swap_remove_index(0), Some(2));
    assert_eq!(c.pop(), Some(4));
    assert_eq!(c.iter(), vec![5, 3]);
    assert_eq!(c.remove_index(7), None);
}

#[test]
fn set_reorder() {
    let mut s = set_of(&[30, 10, 20]);
    s.sort();
    assert_eq!(s.iter(), vec![10, 20, 30]);
    assert_eq!(s.binary_search(&20), Ok(1));
    assert_eq!(s.binary_search(&25), Err(2));
    assert_eq!(s.insert_sorted(15), (1, true));
    assert_eq!(s.insert_sorted(20), (2, false));
    assert_eq!(s.iter(), vec![10, 15, 20, 30]);
    assert!(s.shift_insert(0, 99));
    s.move_index(0, 4);
    s.swap_indices(0, 1);
    assert_eq!(s.iter(), vec![15, 10, 20, 30, 99]);
    s.reverse();
    assert_eq!(s.iter(), vec![99, 30, 20, 10, 15]);
    let mut u = set_of(&[3, 1, 2]);
    u.sort_unstable();
    assert_eq!(u.iter(), vec![1, 2, 3]);
    assert_eq!(u.drain(0..2), vec![1, 2]);
    let tail = s.split_off(3);
    assert_eq!(tail.iter(), vec![10, 15]);
    s.truncate(1);
    assert_eq!(s.iter(), vec![99]);
    s.clear();
    assert!(s.is_empty());
    assert_eq!(s.len(), 0);
}

#[test]
fn set_algebra() {
    let a = set_of(&[1, 2, 3, 4]);
    let b = set_of(&[6, 4, 2]);
    assert_eq!(a.difference(&b), vec![1, 3]);
    assert_eq!(a.intersection(&b), vec![2, 4]);
    assert_eq!(a.union(&b), vec![1, 2, 3, 4, 6]);
    assert_eq!(a.symmetric_difference(&b), vec![1, 3, 6]);
    assert!(!a.is_disjoint(&b));
    assert!(a.is_disjoint(&set_of(&[7, 8])));
    assert!(set_of(&[2, 4]).is_subset(&a));
    assert!(a.is_superset(&set_of(&[3])));
    assert!(!a.is_subset(&b));
    assert!(set_of(&[1, 2]).set_eq(&set_of(&[2, 1])));
}

#[test]
fn set_order_sensitive_comparison() {
    let ab = set_of(&[1, 2]);
    let ba = set_of(&[2, 1]);
    assert!(ab != ba);
    assert!(ab == set_of(&[1, 2]));
    assert_eq!(hash_of(&ab), hash_of(&set_of(&[1, 2])));
    assert_eq!(ab.partial_cmp(&ba), Some(Ordering::Less));
    assert_eq!(ab.partial_cmp(&set_of(&[1, 2, 0])), Some(Ordering::Less));
    assert_eq!(ab.partial_cmp(&ab.clone()), Some(Ordering::Equal));
}

#[test]
fn set_mutable_values() {
    let mut s = OrderSet::with_capacity(2);
    s.extend(vec![4, 8, 4]);
    assert_eq!(s.iter(), vec![4, 8]);
    assert_eq!(s.get_full_mut2(&8), Some((1, &8)));
    assert_eq!(s.get_full_mut2(&5), None);
    assert_eq!(s.get_index_mut2(0), Some(&4));
    assert!(OrderSet::default().is_empty());
}

#[test]
fn set_get_and_take() {
    let mut s = set_of(&[3, 1, 4, 5]);
    assert_eq!(s.get(&4), Some(&4));
    assert_eq!(s.get(&9), None);
    assert_eq!(s.get_full(&1), Some((1, &1)));
    assert_eq!(s.take(&1), Some(1));
    assert_eq!(s.take(&1), None);
    assert_eq!(s.swap_take(&3), Some(3));
    assert_eq!(s.iter(), vec![5, 4]);
}

#[test]
fn set_retain_and_searches() {
    let mut s = set_of(&[5, 2, 8, 3, 6]);
    s.retain(|x| *x % 2 == 0);
    assert_eq!(s.iter(), vec![2, 8, 6]);
    s.sort();
    assert_eq!(s.binary_search_by(|x| x.cmp(&6)), Ok(1));
    assert_eq!(s.binary_search_by(|x| x.cmp(&7)), Err(2));
    assert_eq!(s.partition_point(|x| *x < 7), 2);
    s.retain(|_| false);
    assert!(s.is_empty());
}

#[test]
fn set_sort_by_comparator() {
    let mut s = set_of(&[3, 9, 1, 6]);
    s.sort_by(|a, b| b.cmp(a));
    assert_eq!(s.iter(), vec![9, 6, 3, 1]);
    s.sort_unstable_by(|a, b| (a % 3).cmp(&(b % 3)).then(a.cmp(b)));
    assert_eq!(s.iter(), vec![3, 6, 9, 1]);
    assert_eq!(s.get_index_of(&1), Some(3));
}

#[test]
fn set_splice_keeps_present_values() {
    let mut s = set_of(&[0, 1, 2, 3, 4]);
    let removed = s.splice(2..4, vec![5, 4, 3, 2, 1]);
    assert_eq!(removed, vec![2, 3]);
    assert_eq!(s.iter(), vec![0, 1, 5, 3, 2, 4]);
}

#[test]
fn set_hash_input_is_length_then_values() {
    let s = set_of(&[4, 2, 9]);
    assert_eq!(s.hash_input(), (3, vec![4, 2, 9]));
    let mut expected = DefaultHasher::new();
    3usize.hash(&mut expected);
    for w in [4u64, 2, 9] {
        w.hash(&mut expected);
    }
    assert_eq!(hash_of(&s), expected.finish());
}

//! Laws of the ordered map, stated over the entry-sequence model that the
//! map's contracts use, and proved.
use vstd::prelude::*;
use crate::model::{has_key, unique_keys, key_index, value_of, inserted, inserted_all, swap_removed,
    keys_sorted, same_entries, search_result, sorted_position, lemma_key_index, total_order, sorted_by,
    ordered_along, found_by, flipped, rank};
use crate::lemmas::lemma_inserted_unique;

verus! {

/// Inserting `k` keeps every other present key at its position with its
/// value, and leaves `k` present with the new value; a present `k` keeps its
/// position.
pub proof fn lemma_inserted_positions(s: Seq<(u64, u64)>, k: u64, v: u64)
    requires
        unique_keys(s),
    ensures
        unique_keys(inserted(s, k, v)),
        has_key(inserted(s, k, v), k),
        value_of(inserted(s, k, v), k) == Some(v),
        has_key(s, k) ==> key_index(inserted(s, k, v), k) == key_index(s, k),
        forall|x: u64| x != k && has_key(s, x) ==> {
            &&& #[trigger] has_key(inserted(s, k, v), x)
            &&& key_index(inserted(s, k, v), x) == key_index(s, x)
            &&& value_of(inserted(s, k, v), x) == value_of(s, x)
        },
{
    lemma_inserted_unique(s, k, v);
    let t = inserted(s, k, v);
    let p = if has_key(s, k) { key_index(s, k) } else { s.len() as int };
    if has_key(s, k) {
        let j = choose|j: int| 0 <= j < s.len() && #[trigger] s[j].0 == k;
        lemma_key_index(s, k, j);
    }
    assert(t[p] == (k, v));
    lemma_key_index(t, k, p);
    assert forall|x: u64| x != k && has_key(s, x) implies {
        &&& #[trigger] has_key(inserted(s, k, v), x)
        &&& key_index(inserted(s, k, v), x) == key_index(s, x)
        &&& value_of(inserted(s, k, v), x) == value_of(s, x)
    } by {
        let j = choose|j: int| 0 <= j < s.len() && #[trigger] s[j].0 == x;
        lemma_key_index(s, x, j);
        assert(t[j] == s[j]);
        lemma_key_index(t, x, j);
    }
}

/// Repeated insertion of a key: in a map built by inserting `items` in
/// turn, the key `items[i].0` (first inserted at step `i`) occurs once, sits
/// at the position it took at its first insertion, and holds the value of
/// its last insertion `items[j]`.
#[verifier::rlimit(40)]
pub proof fn law_repeated_inserts(items: Seq<(u64, u64)>, i: int, j: int)
    requires
        0 <= i <= j < items.len(),
        items[j].0 == items[i].0,
        forall|l: int| 0 <= l < i ==> #[trigger] items[l].0 != items[i].0,
        forall|l: int| j < l < items.len() ==> #[trigger] items[l].0 != items[i].0,
    ensures
        ({
            let k = items[i].0;
            let t = inserted_all(Seq::<(u64, u64)>::empty(), items);
            let first = inserted_all(Seq::<(u64, u64)>::empty(), items.subrange(0, i + 1));
            &&& unique_keys(t)
            &&& has_key(t, k)
            &&& key_index(t, k) == key_index(first, k)
            &&& value_of(t, k) == Some(items[j].1)
        }),
    decreases items.len(),
{
    let k = items[i].0;
    let e = Seq::<(u64, u64)>::empty();
    lemma_inserted_all_unique(e, items);
    if j + 1 < items.len() {
        let rest = items.drop_last();
        law_repeated_inserts(rest, i, j);
        assert(rest.subrange(0, i + 1) =~= items.subrange(0, i + 1));
        lemma_inserted_all_unique(e, rest);
        lemma_inserted_positions(inserted_all(e, rest), items.last().0, items.last().1);
    } else if j > i {
        let rest = items.drop_last();
        lemma_last_occurrence(rest, i);
        let l2 = choose|l: int| i <= l < rest.len() && rest[l].0 == k && forall|m: int| l < m < rest.len() ==> #[trigger] rest[m].0 != k;
        law_repeated_inserts(rest, i, l2);
        assert(rest.subrange(0, i + 1) =~= items.subrange(0, i + 1));
        lemma_inserted_all_unique(e, rest);
        lemma_inserted_positions(inserted_all(e, rest), items.last().0, items.last().1);
    } else {
        let rest = items.drop_last();
        assert(items.subrange(0, i + 1) =~= items);
        lemma_inserted_all_unique(e, rest);
        lemma_inserted_positions(inserted_all(e, rest), k, items[j].1);
    }
}

/// A key that occurs at `i` has a last occurrence at or after `i`.
pub proof fn lemma_last_occurrence(items: Seq<(u64, u64)>, i: int)
    requires
        0 <= i < items.len(),
    ensures
        exists|l: int| i <= l < items.len() && items[l].0 == items[i].0
            && forall|m: int| l < m < items.len() ==> #[trigger] items[m].0 != items[i].0,
    decreases items.len() - i,
{
    let k = items[i].0;
    if exists|l: int| i < l < items.len() && items[l].0 == k {
        let l = choose|l: int| i < l < items.len() && items[l].0 == k;
        lemma_last_occurrence(items, l);
        let l2 = choose|l2: int| l <= l2 < items.len() && items[l2].0 == items[l].0
            && forall|m: int| l2 < m < items.len() ==> #[trigger] items[m].0 != items[l].0;
        assert(i <= l2);
    } else {
        assert(forall|m: int| i < m < items.len() ==> #[trigger] items[m].0 != k);
    }
}

/// Inserting in turn into a sequence with unique keys keeps keys unique.
pub proof fn lemma_inserted_all_unique(s: Seq<(u64, u64)>, items: Seq<(u64, u64)>)
    requires
        unique_keys(s),
    ensures
        unique_keys(inserted_all(s, items)),
    decreases items.len(),
{
    if items.len() > 0 {
        lemma_inserted_all_unique(s, items.drop_last());
        lemma_inserted_unique(inserted_all(s, items.drop_last()), items.last().0, items.last().1);
    }
}

/// Index and order agree: the key of the `i`-th entry is found at position
/// `i`.
pub proof fn law_position_of_nth(s: Seq<(u64, u64)>, i: int)
    requires
        unique_keys(s),
        0 <= i < s.len(),
    ensures
        has_key(s, s[i].0),
        key_index(s, s[i].0) == i,
        value_of(s, s[i].0) == Some(s[i].1),
{
    lemma_key_index(s, s[i].0, i);
}

/// Round trip: inserting the entries of a map, in its order, into an empty
/// map gives the same map.
pub proof fn law_from_iter_round_trip(s: Seq<(u64, u64)>)
    requires
        unique_keys(s),
    ensures
        inserted_all(Seq::<(u64, u64)>::empty(), s) == s,
    decreases s.len(),
{
    if s.len() > 0 {
        let init = s.drop_last();
        assert forall|a: int, b: int|
            0 <= a < init.len() && 0 <= b < init.len() && #[trigger] init[a].0 == #[trigger] init[b].0 implies a == b by {
            assert(s[a] == init[a] && s[b] == init[b]);
        }
        law_from_iter_round_trip(init);
        let last = s.last();
        if has_key(init, last.0) {
            let j = choose|j: int| 0 <= j < init.len() && #[trigger] init[j].0 == last.0;
            assert(s[j].0 == s[s.len() - 1].0);
        }
        assert(init.push(last) =~= s);
    }
}

/// Shift removal keeps the relative order of all remaining entries: those
/// before the removed position stay where they are and those after it move
/// up by one, so any two of them stand in the order they stood in before.
pub proof fn law_shift_remove_order(s: Seq<(u64, u64)>, i: int)
    requires
        0 <= i < s.len(),
    ensures
        s.remove(i).len() == s.len() - 1,
        forall|a: int| 0 <= a < i ==> #[trigger] s.remove(i)[a] == s[a],
        forall|a: int| i <= a < s.len() - 1 ==> #[trigger] s.remove(i)[a] == s[a + 1],
{
}

/// Swap removal leaves every entry but the formerly last one where it was;
/// the formerly last entry moves to the removed position.
pub proof fn law_swap_remove_order(s: Seq<(u64, u64)>, i: int)
    requires
        0 <= i < s.len(),
    ensures
        swap_removed(s, i).len() == s.len() - 1,
        forall|j: int| 0 <= j < s.len() - 1 && j != i ==> #[trigger] swap_removed(s, i)[j] == s[j],
        i < s.len() - 1 ==> swap_removed(s, i)[i] == s.last(),
{
}

/// Sorting by key and then searching by key finds every present key and
/// places every absent one where it belongs in the order.
pub proof fn law_sort_then_search(s: Seq<(u64, u64)>, t: Seq<(u64, u64)>, k: u64, r: Result<usize, usize>)
    requires
        unique_keys(s),
        same_entries(s, t),
        keys_sorted(t),
        search_result(t, k, r),
    ensures
        has_key(s, k) ==> (r matches Ok(i) && i < t.len() && t[i as int].0 == k),
        !has_key(s, k) ==> (r matches Err(i) && sorted_position(t, k, i as int)),
{
    if has_key(s, k) {
        let j = choose|j: int| 0 <= j < s.len() && #[trigger] s[j].0 == k;
        assert(s.contains(s[j]));
        assert(t.contains(s[j]));
        let l = choose|l: int| 0 <= l < t.len() && t[l] == s[j];
        assert(t[l].0 == k);
    } else {
        if let Ok(i) = r {
            assert(t.contains(t[i as int]));
            assert(s.contains(t[i as int]));
            let l = choose|l: int| 0 <= l < s.len() && s[l] == t[i as int];
            assert(s[l].0 == k);
        }
    }
}

/// How a key compares with a target key.
pub open spec fn key_cmp(k: u64, x: u64) -> core::cmp::Ordering {
    if k < x {
        core::cmp::Ordering::Less
    } else if k > x {
        core::cmp::Ordering::Greater
    } else {
        core::cmp::Ordering::Equal
    }
}

/// Sorting by key and then searching with a comparison of each key against
/// the target finds every present key and places every absent one where it
/// belongs: a result `r` that meets the search's contract on the sorted
/// entries `t` is `Ok` at the target's position exactly when the target is
/// present, and otherwise `Err` at its place in the order.
pub proof fn law_sort_then_search_by<F: Fn(&u64, &u64) -> core::cmp::Ordering>(
    s: Seq<(u64, u64)>,
    t: Seq<(u64, u64)>,
    x: u64,
    f: F,
    r: Result<usize, usize>,
)
    requires
        unique_keys(s),
        same_entries(s, t),
        keys_sorted(t),
        forall|k: &u64, v: &u64, o: core::cmp::Ordering| f.ensures((k, v), o) ==> o == key_cmp(*k, x),
        match r {
            Ok(i) => i < t.len() && f.ensures((&t[i as int].0, &t[i as int].1), core::cmp::Ordering::Equal),
            Err(i) => {
                &&& i <= t.len()
                &&& i > 0 ==> f.ensures((&t[i - 1].0, &t[i - 1].1), core::cmp::Ordering::Less)
                &&& i < t.len() ==> f.ensures((&t[i as int].0, &t[i as int].1), core::cmp::Ordering::Greater)
            },
        },
    ensures
        has_key(s, x) ==> (r matches Ok(i) && i < t.len() && t[i as int].0 == x),
        !has_key(s, x) ==> (r matches Err(i) && sorted_position(t, x, i as int)),
{
    match r {
        Ok(i) => {
            assert(key_cmp(t[i as int].0, x) == core::cmp::Ordering::Equal);
            assert(t.contains(t[i as int]));
            assert(s.contains(t[i as int]));
            let l = choose|l: int| 0 <= l < s.len() && s[l] == t[i as int];
            assert(s[l].0 == x);
        },
        Err(i) => {
            if i > 0 {
                assert(key_cmp(t[i - 1].0, x) == core::cmp::Ordering::Less);
            }
            if i < t.len() {
                assert(key_cmp(t[i as int].0, x) == core::cmp::Ordering::Greater);
            }
            assert forall|j: int| 0 <= j < i implies #[trigger] t[j].0 < x by {
                if j < i - 1 {
                    assert(t[j].0 < t[i - 1].0);
                }
            }
            assert forall|j: int| i <= j < t.len() implies #[trigger] t[j].0 > x by {
                if j > i {
                    assert(t[i as int].0 < t[j].0);
                }
            }
            if has_key(s, x) {
                let l = choose|l: int| 0 <= l < s.len() && #[trigger] s[l].0 == x;
                assert(s.contains(s[l]));
                assert(t.contains(s[l]));
                let m = choose|m: int| 0 <= m < t.len() && t[m] == s[l];
                assert(t[m].0 == x);
            }
        },
    }
}

/// The keys of a sequence of pairs, as a set.
pub open spec fn key_set(items: Seq<(u64, u64)>) -> Set<u64>
    decreases items.len(),
{
    if items.len() == 0 {
        Set::empty()
    } else {
        key_set(items.drop_last()).insert(items.last().0)
    }
}

/// A map built by inserting `items` in turn holds exactly their keys, one
/// entry per distinct key: its length is the number of distinct keys.
pub proof fn law_len_is_distinct_keys(items: Seq<(u64, u64)>)
    ensures
        ({
            let t = inserted_all(Seq::<(u64, u64)>::empty(), items);
            &&& unique_keys(t)
            &&& key_set(items).finite()
            &&& t.len() == key_set(items).len()
            &&& forall|x: u64| has_key(t, x) <==> #[trigger] key_set(items).contains(x)
        }),
    decreases items.len(),
{
    let e = Seq::<(u64, u64)>::empty();
    if items.len() > 0 {
        let rest = items.drop_last();
        law_len_is_distinct_keys(rest);
        let tr = inserted_all(e, rest);
        let (k, v) = items.last();
        lemma_inserted_unique(tr, k, v);
        let ks = key_set(rest);
        if has_key(tr, k) {
            assert(ks.insert(k) =~= ks);
        } else {
            assert(!ks.contains(k));
        }
        assert forall|x: u64| has_key(inserted_all(e, items), x) <==> #[trigger] key_set(items).contains(x) by {
            assert(has_key(inserted(tr, k, v), x) <==> (has_key(tr, x) || x == k));
        }
    } else {
        assert forall|x: u64| has_key(e, x) <==> #[trigger] key_set(items).contains(x) by {}
    }
}

/// In a map built by inserting `items` in turn, a key first inserted at step
/// `i` sits at the position given by the number of distinct keys inserted
/// before step `i`; later insertions of it do not move it.
pub proof fn law_position_is_distinct_keys_before(items: Seq<(u64, u64)>, i: int)
    requires
        0 <= i < items.len(),
        forall|l: int| 0 <= l < i ==> #[trigger] items[l].0 != items[i].0,
    ensures
        has_key(inserted_all(Seq::<(u64, u64)>::empty(), items), items[i].0),
        key_index(inserted_all(Seq::<(u64, u64)>::empty(), items), items[i].0)
            == key_set(items.subrange(0, i)).len(),
{
    let e = Seq::<(u64, u64)>::empty();
    let k = items[i].0;
    lemma_last_occurrence(items, i);
    let j = choose|l: int| i <= l < items.len() && items[l].0 == items[i].0
        && forall|m: int| l < m < items.len() ==> #[trigger] items[m].0 != items[i].0;
    law_repeated_inserts(items, i, j);
    let pre = items.subrange(0, i);
    law_len_is_distinct_keys(pre);
    let tp = inserted_all(e, pre);
    assert(items.subrange(0, i + 1).drop_last() =~= pre);
    assert(items.subrange(0, i + 1).last() == items[i]);
    if has_key(tp, k) {
        assert(key_set(pre).contains(k));
        lemma_key_set_member(pre, k);
    }
    let first = inserted_all(e, items.subrange(0, i + 1));
    assert(first == tp.push(items[i]));
    lemma_inserted_unique(tp, k, items[i].1);
    lemma_key_index(first, k, tp.len() as int);
}

/// A key of the key set occurs among the pairs.
pub proof fn lemma_key_set_member(items: Seq<(u64, u64)>, x: u64)
    requires
        key_set(items).contains(x),
    ensures
        exists|l: int| 0 <= l < items.len() && #[trigger] items[l].0 == x,
    decreases items.len(),
{
    if items.len() > 0 {
        let rest = items.drop_last();
        if key_set(rest).contains(x) {
            lemma_key_set_member(rest, x);
            let l = choose|l: int| 0 <= l < rest.len() && #[trigger] rest[l].0 == x;
            assert(items[l].0 == x);
        } else {
            assert(items[items.len() - 1].0 == x);
        }
    }
}

/// Sorting with a total order `cmp` and then searching with `f`, the
/// comparison of each entry against a target `x` by the same `cmp`: the
/// sorted entries are ordered as `f` sees them, so a result `r` that meets
/// the search's contract is `Ok` at an entry `cmp` rates equal to `x`
/// whenever there is one, and otherwise `Err` at the place of `x`, every
/// entry before it below `x` and every one from it on above.
pub proof fn law_sort_by_then_search_by<
    C: Fn(&u64, &u64, &u64, &u64) -> core::cmp::Ordering,
    F: Fn(&u64, &u64) -> core::cmp::Ordering,
>(cmp: C, t: Seq<(u64, u64)>, x: (u64, u64), f: F, r: Result<usize, usize>)
    requires
        total_order(cmp),
        sorted_by(cmp, t),
        forall|a: u64, b: u64, o: core::cmp::Ordering|
            #![trigger f.ensures((&a, &b), o)]
            #![trigger cmp.ensures((&a, &b, &x.0, &x.1), o)]
            f.ensures((&a, &b), o) <==> cmp.ensures((&a, &b, &x.0, &x.1), o),
        ordered_along(f, t) ==> found_by(f, t, r),
    ensures
        ordered_along(f, t),
        (exists|j: int| 0 <= j < t.len() && #[trigger] cmp.ensures((&t[j].0, &t[j].1, &x.0, &x.1), core::cmp::Ordering::Equal))
            ==> (r matches Ok(i) && i < t.len()
                && cmp.ensures((&t[i as int].0, &t[i as int].1, &x.0, &x.1), core::cmp::Ordering::Equal)),
        !(exists|j: int| 0 <= j < t.len() && #[trigger] cmp.ensures((&t[j].0, &t[j].1, &x.0, &x.1), core::cmp::Ordering::Equal))
            ==> (r matches Err(p) && {
                &&& p <= t.len()
                &&& forall|j: int, o: core::cmp::Ordering| 0 <= j < p
                    && #[trigger] cmp.ensures((&t[j].0, &t[j].1, &x.0, &x.1), o) ==> o == core::cmp::Ordering::Less
                &&& forall|j: int, o: core::cmp::Ordering| p <= j < t.len()
                    && #[trigger] cmp.ensures((&t[j].0, &t[j].1, &x.0, &x.1), o) ==> o == core::cmp::Ordering::Greater
            }),
{
    assert forall|i: int, j: int, o1: core::cmp::Ordering, o2: core::cmp::Ordering|
        0 <= i <= j < t.len() && #[trigger] f.ensures((&t[i].0, &t[i].1), o1)
            && #[trigger] f.ensures((&t[j].0, &t[j].1), o2)
        implies rank(o1) <= rank(o2) && (i == j ==> o1 == o2) by {
        let a = t[i];
        let b = t[j];
        assert(cmp.ensures((&a.0, &a.1, &x.0, &x.1), o1));
        assert(cmp.ensures((&b.0, &b.1, &x.0, &x.1), o2));
        if i < j {
            assert(cmp.requires((&a.0, &a.1, &b.0, &b.1)));
            let o12 = choose|o: core::cmp::Ordering| cmp.ensures((&a.0, &a.1, &b.0, &b.1), o);
            assert(o12 != core::cmp::Ordering::Greater);
            if o1 == core::cmp::Ordering::Equal && o2 == core::cmp::Ordering::Less {
                assert(cmp.requires((&x.0, &x.1, &a.0, &a.1)));
                let oxa = choose|o: core::cmp::Ordering| cmp.ensures((&x.0, &x.1, &a.0, &a.1), o);
                assert(oxa == flipped(o1));
                assert(cmp.requires((&x.0, &x.1, &b.0, &b.1)));
                let oxb = choose|o: core::cmp::Ordering| cmp.ensures((&x.0, &x.1, &b.0, &b.1), o);
                assert(oxb == flipped(o2));
                assert(oxb != core::cmp::Ordering::Greater);
            }
        }
    }
    if exists|j: int| 0 <= j < t.len() && #[trigger] cmp.ensures((&t[j].0, &t[j].1, &x.0, &x.1), core::cmp::Ordering::Equal) {
        let j = choose|j: int| 0 <= j < t.len() && #[trigger] cmp.ensures((&t[j].0, &t[j].1, &x.0, &x.1), core::cmp::Ordering::Equal);
        assert(f.ensures((&t[j].0, &t[j].1), core::cmp::Ordering::Equal));
        if let Ok(i) = r {
            assert(f.ensures((&t[i as int].0, &t[i as int].1), core::cmp::Ordering::Equal));
        }
    } else {
        if let Ok(i) = r {
            assert(f.ensures((&t[i as int].0, &t[i as int].1), core::cmp::Ordering::Equal));
            assert(cmp.ensures((&t[i as int].0, &t[i as int].1, &x.0, &x.1), core::cmp::Ordering::Equal));
        }
    }
}

} // verus!

//! Facts about the entry-sequence model: every edit that the map performs
//! keeps keys unique, and sorted insertion lands where the order says.
use vstd::prelude::*;
use crate::model::{has_key, unique_keys, key_index, inserted, selected, moved, swapped, same_entries, arranged_by, swap_removed, reversed, keys_sorted,
    sorted_position, without_key, spliced};

verus! {

/// A sequence whose positions map one-to-one onto positions of a sequence
/// with unique keys, entry for entry, has unique keys too.
pub proof fn lemma_unique_via_map(s: Seq<(u64, u64)>, t: Seq<(u64, u64)>, f: spec_fn(int) -> int)
    requires
        unique_keys(s),
        forall|j: int| 0 <= j < t.len() ==> 0 <= #[trigger] f(j) < s.len() && t[j] == s[f(j)],
        forall|a: int, b: int| 0 <= a < t.len() && 0 <= b < t.len() && #[trigger] f(a) == #[trigger] f(b) ==> a == b,
    ensures
        unique_keys(t),
{
    assert forall|a: int, b: int|
        0 <= a < t.len() && 0 <= b < t.len() && #[trigger] t[a].0 == #[trigger] t[b].0 implies a == b by {
        assert(t[a] == s[f(a)]);
        assert(t[b] == s[f(b)]);
    }
}

/// Taking out one position keeps keys unique.
pub proof fn lemma_remove_unique(s: Seq<(u64, u64)>, i: int)
    requires
        unique_keys(s),
        0 <= i < s.len(),
    ensures
        unique_keys(s.remove(i)),
{
    let t = s.remove(i);
    let f = |j: int| if j < i { j } else { j + 1 };
    assert forall|j: int| 0 <= j < t.len() implies 0 <= #[trigger] f(j) < s.len() && t[j] == s[f(j)] by {}
    lemma_unique_via_map(s, t, f);
}

/// A contiguous part keeps keys unique.
pub proof fn lemma_subrange_unique(s: Seq<(u64, u64)>, a: int, b: int)
    requires
        unique_keys(s),
        0 <= a <= b <= s.len(),
    ensures
        unique_keys(s.subrange(a, b)),
{
    let t = s.subrange(a, b);
    let f = |j: int| j + a;
    assert forall|j: int| 0 <= j < t.len() implies 0 <= #[trigger] f(j) < s.len() && t[j] == s[f(j)] by {}
    lemma_unique_via_map(s, t, f);
}

/// Cutting out the positions `a..b` keeps keys unique.
pub proof fn lemma_cut_unique(s: Seq<(u64, u64)>, a: int, b: int)
    requires
        unique_keys(s),
        0 <= a <= b <= s.len(),
    ensures
        unique_keys(s.subrange(0, a) + s.subrange(b, s.len() as int)),
{
    let t = s.subrange(0, a) + s.subrange(b, s.len() as int);
    let f = |j: int| if j < a { j } else { j + (b - a) };
    assert forall|j: int| 0 <= j < t.len() implies 0 <= #[trigger] f(j) < s.len() && t[j] == s[f(j)] by {}
    lemma_unique_via_map(s, t, f);
}

/// Swap-removal keeps keys unique.
pub proof fn lemma_swap_removed_unique(s: Seq<(u64, u64)>, i: int)
    requires
        unique_keys(s),
        0 <= i < s.len(),
    ensures
        unique_keys(swap_removed(s, i)),
{
    let t = swap_removed(s, i);
    let n = s.len() - 1;
    let f = |j: int| if j == i { n } else { j };
    assert forall|j: int| 0 <= j < t.len() implies 0 <= #[trigger] f(j) < s.len() && t[j] == s[f(j)] by {}
    lemma_unique_via_map(s, t, f);
}

/// Reversal keeps keys unique.
pub proof fn lemma_reversed_unique(s: Seq<(u64, u64)>)
    requires
        unique_keys(s),
    ensures
        unique_keys(reversed(s)),
{
    let t = reversed(s);
    let f = |j: int| s.len() - 1 - j;
    assert forall|j: int| 0 <= j < t.len() implies 0 <= #[trigger] f(j) < s.len() && t[j] == s[f(j)] by {}
    lemma_unique_via_map(s, t, f);
}

/// Keys in strictly increasing order are unique.
pub proof fn lemma_sorted_unique(s: Seq<(u64, u64)>)
    requires
        keys_sorted(s),
    ensures
        unique_keys(s),
{
    assert forall|i: int, j: int|
        0 <= i < s.len() && 0 <= j < s.len() && #[trigger] s[i].0 == #[trigger] s[j].0 implies i == j by {
        if i < j {
            assert(s[i].0 < s[j].0);
        } else if j < i {
            assert(s[j].0 < s[i].0);
        }
    }
}

/// Inserting an entry whose key is absent keeps keys unique.
pub proof fn lemma_insert_fresh(s: Seq<(u64, u64)>, p: int, e: (u64, u64))
    requires
        unique_keys(s),
        !has_key(s, e.0),
        0 <= p <= s.len(),
    ensures
        unique_keys(s.insert(p, e)),
{
    let t = s.insert(p, e);
    assert forall|a: int, b: int|
        0 <= a < t.len() && 0 <= b < t.len() && #[trigger] t[a].0 == #[trigger] t[b].0 implies a == b by {
        let fa = if a < p { a } else { a - 1 };
        let fb = if b < p { b } else { b - 1 };
        if a != p && b != p {
            assert(t[a] == s[fa]);
            assert(t[b] == s[fb]);
        } else if a == p && b != p {
            assert(t[b] == s[fb]);
        } else if b == p && a != p {
            assert(t[a] == s[fa]);
        }
    }
}

/// With unique keys, no key other than `k` is lost or gained by taking out
/// `k`'s entry, and `k` is gone.
pub proof fn lemma_without_key(s: Seq<(u64, u64)>, k: u64)
    requires
        unique_keys(s),
    ensures
        unique_keys(without_key(s, k)),
        !has_key(without_key(s, k), k),
        forall|x: u64| x != k ==> (has_key(without_key(s, k), x) <==> has_key(s, x)),
{
    if has_key(s, k) {
        let i = key_index(s, k);
        let w = s.remove(i);
        lemma_remove_unique(s, i);
        assert forall|x: u64| x != k implies (has_key(w, x) <==> has_key(s, x)) by {
            if has_key(s, x) {
                let j = choose|j: int| 0 <= j < s.len() && #[trigger] s[j].0 == x;
                if j < i {
                    assert(w[j].0 == x);
                } else {
                    assert(w[j - 1].0 == x);
                }
            }
            if has_key(w, x) {
                let j = choose|j: int| 0 <= j < w.len() && #[trigger] w[j].0 == x;
                if j < i {
                    assert(s[j].0 == x);
                } else {
                    assert(s[j + 1].0 == x);
                }
            }
        }
        if has_key(w, k) {
            let j = choose|j: int| 0 <= j < w.len() && #[trigger] w[j].0 == k;
            if j < i {
                assert(s[j].0 == k);
            } else {
                assert(s[j + 1].0 == k);
            }
        }
    }
}

/// Moving a key to a position, after taking it out of its old one, keeps
/// keys unique.
pub proof fn lemma_without_key_insert_unique(s: Seq<(u64, u64)>, k: u64, v: u64, p: int)
    requires
        unique_keys(s),
        0 <= p <= without_key(s, k).len(),
    ensures
        unique_keys(without_key(s, k).insert(p, (k, v))),
{
    lemma_without_key(s, k);
    lemma_insert_fresh(without_key(s, k), p, (k, v));
}

/// Moving an entry keeps keys unique.
pub proof fn lemma_moved_unique(s: Seq<(u64, u64)>, from: int, to: int)
    requires
        unique_keys(s),
        0 <= from < s.len(),
        0 <= to < s.len(),
    ensures
        unique_keys(moved(s, from, to)),
{
    let k = s[from].0;
    crate::model::lemma_key_index(s, k, from);
    lemma_without_key(s, k);
    lemma_insert_fresh(s.remove(from), to, s[from]);
}

/// Inserting keeps keys unique, and the keys present afterwards are those
/// present before and `k`.
pub proof fn lemma_inserted_unique(s: Seq<(u64, u64)>, k: u64, v: u64)
    requires
        unique_keys(s),
    ensures
        unique_keys(inserted(s, k, v)),
        forall|x: u64| has_key(inserted(s, k, v), x) <==> (has_key(s, x) || x == k),
{
    let t = inserted(s, k, v);
    if has_key(s, k) {
        let i = key_index(s, k);
        assert forall|x: u64| has_key(t, x) <==> (has_key(s, x) || x == k) by {
            if has_key(s, x) {
                let j = choose|j: int| 0 <= j < s.len() && #[trigger] s[j].0 == x;
                assert(t[j].0 == x);
            }
            if has_key(t, x) {
                let j = choose|j: int| 0 <= j < t.len() && #[trigger] t[j].0 == x;
                if j != i {
                    assert(s[j].0 == x);
                }
            }
            if x == k {
                assert(t[i].0 == k);
            }
        }
        let f = |j: int| j;
        assert forall|a: int, b: int|
            0 <= a < t.len() && 0 <= b < t.len() && #[trigger] t[a].0 == #[trigger] t[b].0 implies a == b by {
            assert(s[a].0 == t[a].0);
            assert(s[b].0 == t[b].0);
        }
    } else {
        lemma_insert_fresh(s, s.len() as int, (k, v));
        assert(s.insert(s.len() as int, (k, v)) =~= t);
        assert forall|x: u64| has_key(t, x) <==> (has_key(s, x) || x == k) by {
            if has_key(s, x) {
                let j = choose|j: int| 0 <= j < s.len() && #[trigger] s[j].0 == x;
                assert(t[j].0 == x);
            }
            if has_key(t, x) {
                let j = choose|j: int| 0 <= j < t.len() && #[trigger] t[j].0 == x;
                if j < s.len() {
                    assert(s[j].0 == x);
                }
            }
            if x == k {
                assert(t[s.len() as int].0 == k);
            }
        }
    }
}

/// Splicing a range of a sequence with unique keys gives unique keys.
pub proof fn lemma_spliced_unique(s: Seq<(u64, u64)>, start: int, end: int, items: Seq<(u64, u64)>)
    requires
        unique_keys(s),
        0 <= start <= end <= s.len(),
    ensures
        ({
            let parts = spliced(s.subrange(0, start), s.subrange(end, s.len() as int), items);
            unique_keys(parts.0 + parts.1)
        }),
{
    let head = s.subrange(0, start);
    let tail = s.subrange(end, s.len() as int);
    lemma_subrange_unique(s, 0, start);
    lemma_subrange_unique(s, end, s.len() as int);
    assert forall|x: u64| has_key(head, x) implies !has_key(tail, x) by {
        let a = choose|a: int| 0 <= a < head.len() && #[trigger] head[a].0 == x;
        if has_key(tail, x) {
            let b = choose|b: int| 0 <= b < tail.len() && #[trigger] tail[b].0 == x;
            assert(s[a].0 == s[b + end].0);
        }
    }
    lemma_spliced_parts(head, tail, items);
    let parts = spliced(head, tail, items);
    lemma_join_unique(parts.0, parts.1);
}

/// The two parts of a splice stay free of repeated keys and share no key.
pub proof fn lemma_spliced_parts(head: Seq<(u64, u64)>, tail: Seq<(u64, u64)>, items: Seq<(u64, u64)>)
    requires
        unique_keys(head),
        unique_keys(tail),
        forall|x: u64| has_key(head, x) ==> !has_key(tail, x),
    ensures
        unique_keys(spliced(head, tail, items).0),
        unique_keys(spliced(head, tail, items).1),
        forall|x: u64| has_key(spliced(head, tail, items).0, x) ==> !has_key(spliced(head, tail, items).1, x),
    decreases items.len(),
{
    if items.len() > 0 {
        lemma_spliced_parts(head, tail, items.drop_last());
        let (h, t) = spliced(head, tail, items.drop_last());
        let (k, v) = items.last();
        if has_key(t, k) {
            let i = key_index(t, k);
            let t2 = t.update(i, (k, v));
            assert forall|x: u64| has_key(t2, x) implies has_key(t, x) by {
                {
                    let j = choose|j: int| 0 <= j < t2.len() && #[trigger] t2[j].0 == x;
                    assert(t[j].0 == x);
                }
            }
            assert forall|a: int, b: int|
                0 <= a < t2.len() && 0 <= b < t2.len() && #[trigger] t2[a].0 == #[trigger] t2[b].0 implies a == b by {
                assert(t[a].0 == t2[a].0);
                assert(t[b].0 == t2[b].0);
            }
        } else {
            lemma_inserted_unique(h, k, v);
        }
    }
}

/// Two sequences with unique keys and no key in common join into one with
/// unique keys.
pub proof fn lemma_join_unique(a: Seq<(u64, u64)>, b: Seq<(u64, u64)>)
    requires
        unique_keys(a),
        unique_keys(b),
        forall|x: u64| has_key(a, x) ==> !has_key(b, x),
    ensures
        unique_keys(a + b),
{
    let t = a + b;
    assert forall|i: int, j: int|
        0 <= i < t.len() && 0 <= j < t.len() && #[trigger] t[i].0 == #[trigger] t[j].0 implies i == j by {
        if i < a.len() && j >= a.len() {
            assert(a[i].0 == b[j - a.len()].0);
            assert(has_key(a, a[i].0));
            assert(has_key(b, b[j - a.len()].0));
        } else if j < a.len() && i >= a.len() {
            assert(a[j].0 == b[i - a.len()].0);
            assert(has_key(a, a[j].0));
            assert(has_key(b, b[i - a.len()].0));
        } else if i < a.len() && j < a.len() {
            assert(a[i].0 == a[j].0);
        } else {
            assert(b[i - a.len()].0 == b[j - a.len()].0);
        }
    }
}

/// On keys in increasing order, inserting at the place the order gives keeps
/// them in order, and an existing key stays at its position.
pub proof fn lemma_insert_sorted_position(s: Seq<(u64, u64)>, k: u64, v: u64, p: int)
    requires
        keys_sorted(s),
        sorted_position(without_key(s, k), k, p),
    ensures
        keys_sorted(without_key(s, k).insert(p, (k, v))),
        has_key(s, k) ==> p == key_index(s, k) && without_key(s, k).insert(p, (k, v)) == s.update(p, (k, v)),
{
    lemma_sorted_unique(s);
    let w = without_key(s, k);
    let t = w.insert(p, (k, v));
    if has_key(s, k) {
        let i = key_index(s, k);
        assert(w == s.remove(i));
        if p < i {
            assert(w[p].0 == s[p].0);
            assert(s[p].0 < s[i].0);
        } else if p > i {
            assert(w[i].0 == s[i + 1].0);
            assert(s[i].0 < s[i + 1].0);
        }
        assert(t =~= s.update(p, (k, v)));
    }
    assert forall|a: int, b: int| 0 <= a < b < t.len() implies #[trigger] t[a].0 < #[trigger] t[b].0 by {
        if b < p {
            assert(t[a] == w[a] && t[b] == w[b]);
            crate::lemmas::lemma_without_key_sorted(s, k, a, b);
        } else if b == p {
            assert(t[a] == w[a]);
        } else if a == p {
            assert(t[b] == w[b - 1]);
        } else if a < p {
            assert(t[a] == w[a]);
            assert(t[b] == w[b - 1]);
        } else {
            assert(t[a] == w[a - 1] && t[b] == w[b - 1]);
            crate::lemmas::lemma_without_key_sorted(s, k, a - 1, b - 1);
        }
    }
}

/// Taking out a key's entry keeps keys in increasing order.
pub proof fn lemma_without_key_sorted(s: Seq<(u64, u64)>, k: u64, a: int, b: int)
    requires
        keys_sorted(s),
        0 <= a < b < without_key(s, k).len(),
    ensures
        without_key(s, k)[a].0 < without_key(s, k)[b].0,
{
    if has_key(s, k) {
        let i = key_index(s, k);
        let w = s.remove(i);
        let fa = if a < i { a } else { a + 1 };
        let fb = if b < i { b } else { b + 1 };
        assert(w[a] == s[fa]);
        assert(w[b] == s[fb]);
    }
}

/// The entries picked out of a sequence with unique keys have unique keys,
/// and every key among them was in the sequence.
pub proof fn lemma_selected_unique(s: Seq<(u64, u64)>, keep: Seq<bool>)
    requires
        unique_keys(s),
        keep.len() == s.len(),
    ensures
        unique_keys(selected(s, keep)),
        forall|x: u64| has_key(selected(s, keep), x) ==> has_key(s, x),
    decreases s.len(),
{
    if s.len() > 0 {
        let init = s.drop_last();
        lemma_subrange_unique(s, 0, s.len() - 1);
        assert(init =~= s.subrange(0, s.len() - 1));
        lemma_selected_unique(init, keep.drop_last());
        let rest = selected(init, keep.drop_last());
        assert forall|x: u64| has_key(selected(s, keep), x) implies has_key(s, x) by {
            let t = selected(s, keep);
            let j = choose|j: int| 0 <= j < t.len() && #[trigger] t[j].0 == x;
            if j < rest.len() {
                assert(t[j] == rest[j]);
                assert(rest[j].0 == x);
                assert(has_key(rest, x));
                assert(has_key(selected(init, keep.drop_last()), x));
                assert(has_key(init, x));
                let l = choose|l: int| 0 <= l < init.len() && #[trigger] init[l].0 == x;
                assert(s[l].0 == x);
            } else {
                assert(s[s.len() - 1].0 == x);
            }
        }
        if keep.last() {
            if has_key(rest, s.last().0) {
                assert(has_key(selected(init, keep.drop_last()), s.last().0));
                assert(has_key(init, s.last().0));
                let l = choose|l: int| 0 <= l < init.len() && #[trigger] init[l].0 == s.last().0;
                assert(s[l] == init[l]);
                assert(s[l].0 == s[s.len() - 1].0);
            }
            lemma_insert_fresh(rest, rest.len() as int, s.last());
            assert(rest.insert(rest.len() as int, s.last()) =~= rest.push(s.last()));
        }
    }
}

/// With unique keys, changing the value at one position keeps keys unique.
pub proof fn lemma_update_value_unique(s: Seq<(u64, u64)>, i: int, v: u64)
    requires
        unique_keys(s),
        0 <= i < s.len(),
    ensures
        unique_keys(s.update(i, (s[i].0, v))),
{
    let t = s.update(i, (s[i].0, v));
    assert forall|a: int, b: int|
        0 <= a < t.len() && 0 <= b < t.len() && #[trigger] t[a].0 == #[trigger] t[b].0 implies a == b by {
        assert(s[a].0 == t[a].0);
        assert(s[b].0 == t[b].0);
    }
}

/// With unique keys, exchanging two positions keeps keys unique.
pub proof fn lemma_swapped_unique(s: Seq<(u64, u64)>, a: int, b: int)
    requires
        unique_keys(s),
        0 <= a < s.len(),
        0 <= b < s.len(),
    ensures
        unique_keys(swapped(s, a, b)),
{
    let t = swapped(s, a, b);
    let f = |j: int| if j == a { b } else if j == b { a } else { j };
    assert forall|j: int| 0 <= j < t.len() implies 0 <= #[trigger] f(j) < s.len() && t[j] == s[f(j)] by {}
    lemma_unique_via_map(s, t, f);
}

/// A rearrangement (same multiset of entries) of a sequence with unique keys
/// has unique keys and the same entries.
pub proof fn lemma_permutation_unique(s: Seq<(u64, u64)>, t: Seq<(u64, u64)>)
    requires
        unique_keys(s),
        t.to_multiset() == s.to_multiset(),
    ensures
        unique_keys(t),
        same_entries(s, t),
{
    s.to_multiset_ensures();
    t.to_multiset_ensures();
    assert(s.no_duplicates()) by {
        assert forall|a: int, b: int| 0 <= a < s.len() && 0 <= b < s.len() && a != b implies s[a] != s[b] by {
            if s[a] == s[b] {
                assert(s[a].0 == s[b].0);
            }
        }
    }
    s.lemma_multiset_has_no_duplicates();
    t.lemma_multiset_has_no_duplicates_conv();
    assert(t.len() == s.len()) by {
        assert(t.to_multiset().len() == s.to_multiset().len());
    }
    assert forall|e: (u64, u64)| #[trigger] s.contains(e) <==> t.contains(e) by {
        assert(s.contains(e) <==> s.to_multiset().count(e) > 0);
        assert(t.contains(e) <==> t.to_multiset().count(e) > 0);
    }
    assert forall|a: int, b: int|
        0 <= a < t.len() && 0 <= b < t.len() && #[trigger] t[a].0 == #[trigger] t[b].0 implies a == b by {
        assert(t.contains(t[a]) && t.contains(t[b]));
        assert(s.contains(t[a]) && s.contains(t[b]));
        let p = choose|p: int| 0 <= p < s.len() && s[p] == t[a];
        let q = choose|q: int| 0 <= q < s.len() && s[q] == t[b];
        assert(s[p].0 == s[q].0);
    }
}

/// Entries taken from a sequence with unique keys at distinct positions, as
/// a stable arrangement by sort keys takes them, have unique keys.
pub proof fn lemma_arranged_unique(s: Seq<(u64, u64)>, t: Seq<(u64, u64)>, keys: Seq<u64>, order: Seq<int>)
    requires
        unique_keys(s),
        arranged_by(s, t, keys, order),
    ensures
        unique_keys(t),
{
    assert forall|a: int, b: int|
        0 <= a < t.len() && 0 <= b < t.len() && #[trigger] t[a].0 == #[trigger] t[b].0 implies a == b by {
        assert(t[a] == s[order[a]] && t[b] == s[order[b]]);
        if a < b {
            assert(keys[order[a]] < keys[order[b]] || order[a] < order[b]);
        } else if b < a {
            assert(keys[order[b]] < keys[order[a]] || order[b] < order[a]);
        }
    }
}

} // verus!

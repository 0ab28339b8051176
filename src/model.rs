//! Mathematical model of an ordered map: the sequence of its entries, each a
//! key and a value, in their order.
use vstd::prelude::*;

verus! {

/// The entry sequence holds the key `k` somewhere.
pub open spec fn has_key(s: Seq<(u64, u64)>, k: u64) -> bool {
    exists|i: int| 0 <= i < s.len() && #[trigger] s[i].0 == k
}

/// No two positions of the sequence hold the same key.
pub open spec fn unique_keys(s: Seq<(u64, u64)>) -> bool {
    forall|i: int, j: int|
        0 <= i < s.len() && 0 <= j < s.len() && #[trigger] s[i].0 == #[trigger] s[j].0 ==> i == j
}

/// A position that holds the key `k` (the only one when keys are unique).
pub open spec fn key_index(s: Seq<(u64, u64)>, k: u64) -> int {
    choose|i: int| 0 <= i < s.len() && #[trigger] s[i].0 == k
}

/// The value stored under `k`, if the key is present.
pub open spec fn value_of(s: Seq<(u64, u64)>, k: u64) -> Option<u64> {
    if has_key(s, k) {
        Some(s[key_index(s, k)].1)
    } else {
        None
    }
}

/// The effect of inserting `(k, v)`: an existing key keeps its position and
/// takes the new value, a new key goes last.
pub open spec fn inserted(s: Seq<(u64, u64)>, k: u64, v: u64) -> Seq<(u64, u64)> {
    if has_key(s, k) {
        s.update(key_index(s, k), (k, v))
    } else {
        s.push((k, v))
    }
}

/// The effect of inserting each pair of `items` in turn.
pub open spec fn inserted_all(s: Seq<(u64, u64)>, items: Seq<(u64, u64)>) -> Seq<(u64, u64)>
    decreases items.len(),
{
    if items.len() == 0 {
        s
    } else {
        let rest = inserted_all(s, items.drop_last());
        inserted(rest, items.last().0, items.last().1)
    }
}

/// The entries of `s` whose flag in `keep` is set, in their order.
pub open spec fn selected(s: Seq<(u64, u64)>, keep: Seq<bool>) -> Seq<(u64, u64)>
    decreases s.len(),
{
    if s.len() == 0 || keep.len() == 0 {
        Seq::empty()
    } else {
        let rest = selected(s.drop_last(), keep.drop_last());
        if keep.last() {
            rest.push(s.last())
        } else {
            rest
        }
    }
}

/// The sequence with the entry at `from` taken out and put back at `to`,
/// the entries in between shifting by one.
pub open spec fn moved(s: Seq<(u64, u64)>, from: int, to: int) -> Seq<(u64, u64)> {
    s.remove(from).insert(to, s[from])
}

/// The sequence with the entry at `i` replaced by the last one, which is
/// then dropped from the end.
pub open spec fn swap_removed(s: Seq<(u64, u64)>, i: int) -> Seq<(u64, u64)> {
    s.update(i, s.last()).drop_last()
}

/// The sequence with the entries at `a` and `b` exchanged.
pub open spec fn swapped(s: Seq<(u64, u64)>, a: int, b: int) -> Seq<(u64, u64)> {
    s.update(a, s[b]).update(b, s[a])
}

/// The sequence in reverse order.
pub open spec fn reversed(s: Seq<(u64, u64)>) -> Seq<(u64, u64)> {
    Seq::new(s.len(), |i: int| s[s.len() - 1 - i])
}

/// Keys strictly increase along the sequence.
pub open spec fn keys_sorted(s: Seq<(u64, u64)>) -> bool {
    forall|i: int, j: int| 0 <= i < j < s.len() ==> #[trigger] s[i].0 < #[trigger] s[j].0
}

/// The two sequences are of one length and hold the same entries.
pub open spec fn same_entries(s: Seq<(u64, u64)>, t: Seq<(u64, u64)>) -> bool {
    &&& s.len() == t.len()
    &&& forall|e: (u64, u64)| #[trigger] s.contains(e) <==> t.contains(e)
}

/// `p` is where `k` belongs among the keys of `s`: every key before it is
/// smaller and every key from it on is larger.
pub open spec fn sorted_position(s: Seq<(u64, u64)>, k: u64, p: int) -> bool {
    &&& 0 <= p <= s.len()
    &&& forall|i: int| 0 <= i < p ==> #[trigger] s[i].0 < k
    &&& forall|i: int| p <= i < s.len() ==> #[trigger] s[i].0 > k
}

/// What a search for `k` among keys sorted in increasing order reports:
/// `Ok` with the position of `k` when present, else `Err` with the position
/// where it belongs.
pub open spec fn search_result(s: Seq<(u64, u64)>, k: u64, r: Result<usize, usize>) -> bool {
    match r {
        Ok(i) => i < s.len() && s[i as int].0 == k,
        Err(i) => !has_key(s, k) && sorted_position(s, k, i as int),
    }
}

/// The sequence without the entry of key `k`, if any.
pub open spec fn without_key(s: Seq<(u64, u64)>, k: u64) -> Seq<(u64, u64)> {
    if has_key(s, k) {
        s.remove(key_index(s, k))
    } else {
        s
    }
}

/// What replacing the entries `head`..`tail` gap with `items` does, pair by
/// pair: a key found in `tail` takes the new value there, any other pair is
/// inserted into `head` as by [`inserted`]. The result is the two parts
/// joined.
pub open spec fn spliced(head: Seq<(u64, u64)>, tail: Seq<(u64, u64)>, items: Seq<(u64, u64)>) -> (Seq<(u64, u64)>, Seq<(u64, u64)>)
    decreases items.len(),
{
    if items.len() == 0 {
        (head, tail)
    } else {
        let (h, t) = spliced(head, tail, items.drop_last());
        let (k, v) = items.last();
        if has_key(t, k) {
            (h, t.update(key_index(t, k), (k, v)))
        } else {
            (inserted(h, k, v), t)
        }
    }
}

/// Order-sensitive comparison of two entry sequences: the first position
/// where they differ decides, by key and then by value; a proper prefix
/// comes first.
pub open spec fn lex_cmp(a: Seq<(u64, u64)>, b: Seq<(u64, u64)>) -> core::cmp::Ordering
    decreases a.len(),
{
    if a.len() == 0 {
        if b.len() == 0 {
            core::cmp::Ordering::Equal
        } else {
            core::cmp::Ordering::Less
        }
    } else if b.len() == 0 {
        core::cmp::Ordering::Greater
    } else if a[0].0 < b[0].0 {
        core::cmp::Ordering::Less
    } else if a[0].0 > b[0].0 {
        core::cmp::Ordering::Greater
    } else if a[0].1 < b[0].1 {
        core::cmp::Ordering::Less
    } else if a[0].1 > b[0].1 {
        core::cmp::Ordering::Greater
    } else {
        lex_cmp(a.drop_first(), b.drop_first())
    }
}

/// `t` is `s` rearranged in the order `order` names (the entry at position
/// `j` of `t` is the one at `order[j]` in `s`), so that the sort keys `keys`
/// of the entries never decrease along `t` and entries with equal sort keys
/// keep their order.
pub open spec fn arranged_by(s: Seq<(u64, u64)>, t: Seq<(u64, u64)>, keys: Seq<u64>, order: Seq<int>) -> bool {
    &&& keys.len() == s.len()
    &&& order.len() == s.len()
    &&& t.len() == s.len()
    &&& forall|j: int| 0 <= j < order.len() ==> 0 <= #[trigger] order[j] < s.len() && t[j] == s[order[j]]
    &&& forall|j: int, l: int| 0 <= j < l < order.len() ==>
        keys[#[trigger] order[j]] < keys[#[trigger] order[l]]
            || (keys[order[j]] == keys[order[l]] && order[j] < order[l])
}

/// The words that hashing an entry sequence feeds to the hasher after the
/// length: the key and then the value of each entry, in order.
pub open spec fn hash_words(s: Seq<(u64, u64)>) -> Seq<u64>
    decreases s.len(),
{
    if s.len() == 0 {
        Seq::empty()
    } else {
        hash_words(s.drop_last()).push(s.last().0).push(s.last().1)
    }
}

/// The ordering with `Less` and `Greater` exchanged.
pub open spec fn flipped(o: core::cmp::Ordering) -> core::cmp::Ordering {
    match o {
        core::cmp::Ordering::Less => core::cmp::Ordering::Greater,
        core::cmp::Ordering::Equal => core::cmp::Ordering::Equal,
        core::cmp::Ordering::Greater => core::cmp::Ordering::Less,
    }
}

/// `cmp` compares entries (key and value of one, then of the other) as a
/// total order does: it accepts and answers every pair, answers each one way, is
/// antisymmetric, and is transitive in its `Less`-or-`Equal` answers.
pub open spec fn total_order<F: Fn(&u64, &u64, &u64, &u64) -> core::cmp::Ordering>(cmp: F) -> bool {
    &&& forall|a: (u64, u64), b: (u64, u64)| #[trigger] cmp.requires((&a.0, &a.1, &b.0, &b.1))
        && exists|o: core::cmp::Ordering| cmp.ensures((&a.0, &a.1, &b.0, &b.1), o)
    &&& forall|a: (u64, u64), b: (u64, u64), o1: core::cmp::Ordering, o2: core::cmp::Ordering|
        #[trigger] cmp.ensures((&a.0, &a.1, &b.0, &b.1), o1) && #[trigger] cmp.ensures((&b.0, &b.1, &a.0, &a.1), o2)
            ==> o2 == flipped(o1)
    &&& forall|a: (u64, u64), b: (u64, u64), o1: core::cmp::Ordering, o2: core::cmp::Ordering|
        #[trigger] cmp.ensures((&a.0, &a.1, &b.0, &b.1), o1) && #[trigger] cmp.ensures((&a.0, &a.1, &b.0, &b.1), o2)
            ==> o1 == o2
    &&& forall|a: (u64, u64), b: (u64, u64), c: (u64, u64),
        o1: core::cmp::Ordering, o2: core::cmp::Ordering, o3: core::cmp::Ordering|
        #[trigger] cmp.ensures((&a.0, &a.1, &b.0, &b.1), o1) && #[trigger] cmp.ensures((&b.0, &b.1, &c.0, &c.1), o2)
            && #[trigger] cmp.ensures((&a.0, &a.1, &c.0, &c.1), o3)
            && o1 != core::cmp::Ordering::Greater && o2 != core::cmp::Ordering::Greater
            ==> o3 != core::cmp::Ordering::Greater
}

/// Along `s`, `cmp` never puts an earlier entry after a later one.
pub open spec fn sorted_by<F: Fn(&u64, &u64, &u64, &u64) -> core::cmp::Ordering>(cmp: F, s: Seq<(u64, u64)>) -> bool {
    forall|i: int, j: int, o: core::cmp::Ordering| 0 <= i < j < s.len()
        && #[trigger] cmp.ensures((&s[i].0, &s[i].1, &s[j].0, &s[j].1), o) ==> o != core::cmp::Ordering::Greater
}

/// `t` takes each of its entries from `s`, the one at position `j` from
/// position `order[j]`.
pub open spec fn placed(s: Seq<(u64, u64)>, t: Seq<(u64, u64)>, order: Seq<int>) -> bool {
    &&& order.len() == t.len()
    &&& forall|j: int| 0 <= j < t.len() ==> 0 <= #[trigger] order[j] < s.len() && t[j] == s[order[j]]
}

/// `t` rearranges `s` so that entries `cmp` rates `Equal` keep the order
/// they had in `s`.
pub open spec fn ties_kept<F: Fn(&u64, &u64, &u64, &u64) -> core::cmp::Ordering>(
    cmp: F,
    s: Seq<(u64, u64)>,
    t: Seq<(u64, u64)>,
) -> bool {
    exists|order: Seq<int>| {
        &&& #[trigger] placed(s, t, order)
        &&& forall|j: int, l: int| 0 <= j < l < t.len()
            && #[trigger] cmp.ensures((&t[j].0, &t[j].1, &t[l].0, &t[l].1), core::cmp::Ordering::Equal)
            ==> order[j] < order[l]
    }
}

/// The rank of an ordering: `Less` before `Equal` before `Greater`.
pub open spec fn rank(o: core::cmp::Ordering) -> int {
    match o {
        core::cmp::Ordering::Less => 0,
        core::cmp::Ordering::Equal => 1,
        core::cmp::Ordering::Greater => 2,
    }
}

/// Along `s`, the answers of `f` never go down (`Less`, then `Equal`, then
/// `Greater`), and `f` answers each entry one way: `s` is sorted as `f`
/// sees it.
pub open spec fn ordered_along<F: Fn(&u64, &u64) -> core::cmp::Ordering>(f: F, s: Seq<(u64, u64)>) -> bool {
    forall|i: int, j: int, o1: core::cmp::Ordering, o2: core::cmp::Ordering|
        0 <= i <= j < s.len() && #[trigger] f.ensures((&s[i].0, &s[i].1), o1)
            && #[trigger] f.ensures((&s[j].0, &s[j].1), o2)
            ==> rank(o1) <= rank(o2) && (i == j ==> o1 == o2)
}

/// What a search with `f` along entries sorted as `f` sees them reports:
/// `Ok` with an entry `f` rates `Equal`, or `Err` with the position before
/// which `f` rates every entry `Less` and from which `Greater`.
pub open spec fn found_by<F: Fn(&u64, &u64) -> core::cmp::Ordering>(f: F, s: Seq<(u64, u64)>, r: Result<usize, usize>) -> bool {
    match r {
        Ok(i) => i < s.len() && f.ensures((&s[i as int].0, &s[i as int].1), core::cmp::Ordering::Equal),
        Err(i) => {
            &&& i <= s.len()
            &&& forall|j: int, o: core::cmp::Ordering| 0 <= j < i && #[trigger] f.ensures((&s[j].0, &s[j].1), o)
                ==> o == core::cmp::Ordering::Less
            &&& forall|j: int, o: core::cmp::Ordering| i <= j < s.len() && #[trigger] f.ensures((&s[j].0, &s[j].1), o)
                ==> o == core::cmp::Ordering::Greater
        },
    }
}

/// Along `s`, the sort keys `f` gives never decrease, and `f` gives each
/// entry one key.
pub open spec fn keyed_along<F: Fn(&u64, &u64) -> u64>(f: F, s: Seq<(u64, u64)>) -> bool {
    forall|i: int, j: int, c1: u64, c2: u64|
        0 <= i <= j < s.len() && #[trigger] f.ensures((&s[i].0, &s[i].1), c1)
            && #[trigger] f.ensures((&s[j].0, &s[j].1), c2)
            ==> c1 <= c2 && (i == j ==> c1 == c2)
}

/// What a search for the sort key `b` along entries whose sort keys never
/// decrease reports.
pub open spec fn found_by_key<F: Fn(&u64, &u64) -> u64>(f: F, s: Seq<(u64, u64)>, b: u64, r: Result<usize, usize>) -> bool {
    match r {
        Ok(i) => i < s.len() && f.ensures((&s[i as int].0, &s[i as int].1), b),
        Err(i) => {
            &&& i <= s.len()
            &&& forall|j: int, c: u64| 0 <= j < i && #[trigger] f.ensures((&s[j].0, &s[j].1), c) ==> c < b
            &&& forall|j: int, c: u64| i <= j < s.len() && #[trigger] f.ensures((&s[j].0, &s[j].1), c) ==> c > b
        },
    }
}

/// `pred` holds of a prefix of `s` and of nothing after it, and answers each
/// entry one way.
pub open spec fn partitioned<P: Fn(&u64, &u64) -> bool>(pred: P, s: Seq<(u64, u64)>) -> bool {
    forall|i: int, j: int, b1: bool, b2: bool|
        0 <= i <= j < s.len() && #[trigger] pred.ensures((&s[i].0, &s[i].1), b1)
            && #[trigger] pred.ensures((&s[j].0, &s[j].1), b2)
            ==> (b2 ==> b1) && (i == j ==> b1 == b2)
}

/// With unique keys, the position that holds `k` is the one `key_index`
/// names.
pub proof fn lemma_key_index(s: Seq<(u64, u64)>, k: u64, j: int)
    requires
        unique_keys(s),
        0 <= j < s.len(),
        s[j].0 == k,
    ensures
        has_key(s, k),
        key_index(s, k) == j,
        value_of(s, k) == Some(s[j].1),
{
    assert(has_key(s, k));
}

} // verus!

//! [`OrderSet`]: a hash set whose iteration order is the order of insertion.
//!
//! The set is modelled by its view, the sequence of its values in their
//! order, with no value twice. It is the value-less counterpart of
//! [`crate::OrderMap`], with the same two removal disciplines.
use vstd::prelude::*;
use crate::inner::{items, is_new, is_with_capacity, is_len, is_clear, is_truncate, is_insert_full,
    is_insert_sorted, is_shift_insert, is_contains, is_get_index_of, is_get_index, is_shift_remove_full,
    is_swap_remove_full, is_pop, is_shift_remove_index, is_swap_remove_index, is_move_index,
    is_swap_indices, is_sort, is_sort_unstable, is_reverse, is_binary_search, is_split_off, is_drain,
    is_difference, is_intersection, is_union, is_symmetric_difference, is_is_disjoint, is_is_subset};
use indexmap::IndexSet;

mod mutable;

pub use self::mutable::MutableValues;

verus! {

/// A position that holds `x` (the only one when values are unique).
pub open spec fn set_index(s: Seq<u64>, x: u64) -> int {
    choose|i: int| 0 <= i < s.len() && s[i] == x
}

/// Every value of `a` is in `b`.
pub open spec fn subset_of(a: Seq<u64>, b: Seq<u64>) -> bool {
    forall|x: u64| a.contains(x) ==> b.contains(x)
}

/// No value of `a` is in `b`.
pub open spec fn disjoint(a: Seq<u64>, b: Seq<u64>) -> bool {
    forall|x: u64| a.contains(x) ==> !b.contains(x)
}

/// Values strictly increase along the sequence.
pub open spec fn set_sorted(s: Seq<u64>) -> bool {
    forall|i: int, j: int| 0 <= i < j < s.len() ==> #[trigger] s[i] < #[trigger] s[j]
}

/// `p` is where `x` belongs among the values of `s`.
pub open spec fn set_sorted_position(s: Seq<u64>, x: u64, p: int) -> bool {
    &&& 0 <= p <= s.len()
    &&& forall|i: int| 0 <= i < p ==> #[trigger] s[i] < x
    &&& forall|i: int| p <= i < s.len() ==> #[trigger] s[i] > x
}

/// What a search for `x` among values in increasing order reports.
pub open spec fn set_search_result(s: Seq<u64>, x: u64, r: Result<usize, usize>) -> bool {
    match r {
        Ok(i) => i < s.len() && s[i as int] == x,
        Err(i) => !s.contains(x) && set_sorted_position(s, x, i as int),
    }
}

/// The sequence without `x`, if present.
pub open spec fn set_without(s: Seq<u64>, x: u64) -> Seq<u64> {
    if s.contains(x) {
        s.remove(set_index(s, x))
    } else {
        s
    }
}

/// The sequence with the value at `i` replaced by the last one, which is then
/// dropped from the end.
pub open spec fn set_swap_removed(s: Seq<u64>, i: int) -> Seq<u64> {
    s.update(i, s.last()).drop_last()
}

/// The sequence with the value at `from` moved to `to`.
pub open spec fn set_moved(s: Seq<u64>, from: int, to: int) -> Seq<u64> {
    s.remove(from).insert(to, s[from])
}

/// The sequence with the values at `a` and `b` exchanged.
pub open spec fn set_swapped(s: Seq<u64>, a: int, b: int) -> Seq<u64> {
    s.update(a, s[b]).update(b, s[a])
}

/// The sequence in reverse order.
pub open spec fn set_reversed(s: Seq<u64>) -> Seq<u64> {
    Seq::new(s.len(), |i: int| s[s.len() - 1 - i])
}

/// The effect of inserting each value of `xs` in turn: a new value goes
/// last, a present one stays.
pub open spec fn set_inserted_all(s: Seq<u64>, xs: Seq<u64>) -> Seq<u64>
    decreases xs.len(),
{
    if xs.len() == 0 {
        s
    } else {
        let rest = set_inserted_all(s, xs.drop_last());
        if rest.contains(xs.last()) {
            rest
        } else {
            rest.push(xs.last())
        }
    }
}

/// What replacing the gap between `head` and `tail` with `xs` does, value by
/// value: a value found in `tail` or `head` stays where it is, any other is
/// appended to `head`. The result is the two parts joined.
pub open spec fn set_spliced(head: Seq<u64>, tail: Seq<u64>, xs: Seq<u64>) -> (Seq<u64>, Seq<u64>)
    decreases xs.len(),
{
    if xs.len() == 0 {
        (head, tail)
    } else {
        let (h, t) = set_spliced(head, tail, xs.drop_last());
        let x = xs.last();
        if t.contains(x) || h.contains(x) {
            (h, t)
        } else {
            (h.push(x), t)
        }
    }
}

/// The two parts of a splice stay free of duplicates and share no value.
pub proof fn lemma_set_spliced_parts(head: Seq<u64>, tail: Seq<u64>, xs: Seq<u64>)
    requires
        head.no_duplicates(),
        tail.no_duplicates(),
        forall|x: u64| head.contains(x) ==> !tail.contains(x),
    ensures
        set_spliced(head, tail, xs).0.no_duplicates(),
        set_spliced(head, tail, xs).1 == tail,
        forall|x: u64| set_spliced(head, tail, xs).0.contains(x) ==> !tail.contains(x),
    decreases xs.len(),
{
    if xs.len() > 0 {
        lemma_set_spliced_parts(head, tail, xs.drop_last());
        let (h, t) = set_spliced(head, tail, xs.drop_last());
        let x = xs.last();
        if !(t.contains(x) || h.contains(x)) {
            lemma_nodup_insert(h, h.len() as int, x);
            assert(h.insert(h.len() as int, x) =~= h.push(x));
            assert forall|y: u64| h.push(x).contains(y) implies !tail.contains(y) by {
                let j = choose|j: int| 0 <= j < h.push(x).len() && h.push(x)[j] == y;
                if j < h.len() {
                    assert(h[j] == y);
                }
            }
        }
    }
}

/// The values of `s` whose flag in `keep` is set, in their order.
pub open spec fn set_selected(s: Seq<u64>, keep: Seq<bool>) -> Seq<u64>
    decreases s.len(),
{
    if s.len() == 0 || keep.len() == 0 {
        Seq::empty()
    } else {
        let rest = set_selected(s.drop_last(), keep.drop_last());
        if keep.last() {
            rest.push(s.last())
        } else {
            rest
        }
    }
}

/// `cmp` compares values as a total order does: it accepts every pair,
/// answers each pair one way, is antisymmetric, and is transitive in its
/// `Less`-or-`Equal` answers.
pub open spec fn set_total_order<F: Fn(&u64, &u64) -> core::cmp::Ordering>(cmp: F) -> bool {
    &&& forall|a: u64, b: u64| #[trigger] cmp.requires((&a, &b))
    &&& forall|a: u64, b: u64, o1: core::cmp::Ordering, o2: core::cmp::Ordering|
        #[trigger] cmp.ensures((&a, &b), o1) && #[trigger] cmp.ensures((&b, &a), o2)
            ==> o2 == crate::model::flipped(o1)
    &&& forall|a: u64, b: u64, o1: core::cmp::Ordering, o2: core::cmp::Ordering|
        #[trigger] cmp.ensures((&a, &b), o1) && #[trigger] cmp.ensures((&a, &b), o2) ==> o1 == o2
    &&& forall|a: u64, b: u64, c: u64, o1: core::cmp::Ordering, o2: core::cmp::Ordering, o3: core::cmp::Ordering|
        #[trigger] cmp.ensures((&a, &b), o1) && #[trigger] cmp.ensures((&b, &c), o2)
            && #[trigger] cmp.ensures((&a, &c), o3)
            && o1 != core::cmp::Ordering::Greater && o2 != core::cmp::Ordering::Greater
            ==> o3 != core::cmp::Ordering::Greater
}

/// Along `s`, `cmp` never puts an earlier value after a later one.
pub open spec fn set_sorted_by<F: Fn(&u64, &u64) -> core::cmp::Ordering>(cmp: F, s: Seq<u64>) -> bool {
    forall|i: int, j: int, o: core::cmp::Ordering| 0 <= i < j < s.len()
        && #[trigger] cmp.ensures((&s[i], &s[j]), o) ==> o != core::cmp::Ordering::Greater
}

/// `t` rearranges `s` so that values `cmp` rates `Equal` keep the order
/// they had in `s`.
pub open spec fn set_ties_kept<F: Fn(&u64, &u64) -> core::cmp::Ordering>(cmp: F, s: Seq<u64>, t: Seq<u64>) -> bool {
    exists|order: Seq<int>| {
        &&& order.len() == t.len()
        &&& forall|j: int| 0 <= j < t.len() ==> 0 <= #[trigger] order[j] < s.len() && t[j] == s[order[j]]
        &&& forall|j: int, l: int| 0 <= j < l < t.len()
            && #[trigger] cmp.ensures((&t[j], &t[l]), core::cmp::Ordering::Equal) ==> order[j] < order[l]
    }
}

/// Along `s`, the answers of `f` never go down and `f` answers each value
/// one way: `s` is sorted as `f` sees it.
pub open spec fn set_ordered_along<F: Fn(&u64) -> core::cmp::Ordering>(f: F, s: Seq<u64>) -> bool {
    forall|i: int, j: int, o1: core::cmp::Ordering, o2: core::cmp::Ordering|
        0 <= i <= j < s.len() && #[trigger] f.ensures((&s[i],), o1) && #[trigger] f.ensures((&s[j],), o2)
            ==> crate::model::rank(o1) <= crate::model::rank(o2) && (i == j ==> o1 == o2)
}

/// What a search with `f` along values sorted as `f` sees them reports.
pub open spec fn set_found_by<F: Fn(&u64) -> core::cmp::Ordering>(f: F, s: Seq<u64>, r: Result<usize, usize>) -> bool {
    match r {
        Ok(i) => i < s.len() && f.ensures((&s[i as int],), core::cmp::Ordering::Equal),
        Err(i) => {
            &&& i <= s.len()
            &&& forall|j: int, o: core::cmp::Ordering| 0 <= j < i && #[trigger] f.ensures((&s[j],), o)
                ==> o == core::cmp::Ordering::Less
            &&& forall|j: int, o: core::cmp::Ordering| i <= j < s.len() && #[trigger] f.ensures((&s[j],), o)
                ==> o == core::cmp::Ordering::Greater
        },
    }
}

/// `pred` holds of a prefix of `s` and of nothing after it, and answers each
/// value one way.
pub open spec fn set_partitioned<P: Fn(&u64) -> bool>(pred: P, s: Seq<u64>) -> bool {
    forall|i: int, j: int, b1: bool, b2: bool|
        0 <= i <= j < s.len() && #[trigger] pred.ensures((&s[i],), b1) && #[trigger] pred.ensures((&s[j],), b2)
            ==> (b2 ==> b1) && (i == j ==> b1 == b2)
}

/// Lexicographic comparison of two value sequences; a proper prefix comes
/// first.
pub open spec fn set_lex_cmp(a: Seq<u64>, b: Seq<u64>) -> core::cmp::Ordering
    decreases a.len(),
{
    if a.len() == 0 {
        if b.len() == 0 {
            core::cmp::Ordering::Equal
        } else {
            core::cmp::Ordering::Less
        }
    } else if b.len() == 0 {
        core::cmp::Ordering::Greater
    } else if a[0] < b[0] {
        core::cmp::Ordering::Less
    } else if a[0] > b[0] {
        core::cmp::Ordering::Greater
    } else {
        set_lex_cmp(a.drop_first(), b.drop_first())
    }
}

/// A sequence whose positions map one-to-one onto positions of a sequence
/// without duplicates, value for value, has no duplicates either.
pub proof fn lemma_nodup_via_map(s: Seq<u64>, t: Seq<u64>, f: spec_fn(int) -> int)
    requires
        s.no_duplicates(),
        forall|j: int| 0 <= j < t.len() ==> 0 <= #[trigger] f(j) < s.len() && t[j] == s[f(j)],
        forall|a: int, b: int| 0 <= a < t.len() && 0 <= b < t.len() && #[trigger] f(a) == #[trigger] f(b) ==> a == b,
    ensures
        t.no_duplicates(),
{
    assert forall|a: int, b: int| 0 <= a < t.len() && 0 <= b < t.len() && a != b implies t[a] != t[b] by {
        assert(t[a] == s[f(a)]);
        assert(t[b] == s[f(b)]);
    }
}

/// Inserting a value that is absent keeps the values distinct.
pub proof fn lemma_nodup_insert(s: Seq<u64>, p: int, x: u64)
    requires
        s.no_duplicates(),
        !s.contains(x),
        0 <= p <= s.len(),
    ensures
        s.insert(p, x).no_duplicates(),
{
    let t = s.insert(p, x);
    assert forall|a: int, b: int| 0 <= a < t.len() && 0 <= b < t.len() && a != b implies t[a] != t[b] by {
        let fa = if a < p { a } else { a - 1 };
        let fb = if b < p { b } else { b - 1 };
        if a != p && b != p {
            assert(t[a] == s[fa] && t[b] == s[fb]);
        } else if a == p {
            assert(t[b] == s[fb]);
        } else {
            assert(t[a] == s[fa]);
        }
    }
}

/// Taking out one position keeps the values distinct, and loses only the
/// value that was there.
pub proof fn lemma_nodup_remove(s: Seq<u64>, i: int)
    requires
        s.no_duplicates(),
        0 <= i < s.len(),
    ensures
        s.remove(i).no_duplicates(),
        !s.remove(i).contains(s[i]),
{
    let t = s.remove(i);
    let f = |j: int| if j < i { j } else { j + 1 };
    assert forall|j: int| 0 <= j < t.len() implies 0 <= #[trigger] f(j) < s.len() && t[j] == s[f(j)] by {}
    lemma_nodup_via_map(s, t, f);
    if t.contains(s[i]) {
        let j = choose|j: int| 0 <= j < t.len() && t[j] == s[i];
        assert(s[f(j)] == s[i]);
    }
}

/// A contiguous part keeps the values distinct.
pub proof fn lemma_nodup_subrange(s: Seq<u64>, a: int, b: int)
    requires
        s.no_duplicates(),
        0 <= a <= b <= s.len(),
    ensures
        s.subrange(a, b).no_duplicates(),
{
    let t = s.subrange(a, b);
    let f = |j: int| j + a;
    assert forall|j: int| 0 <= j < t.len() implies 0 <= #[trigger] f(j) < s.len() && t[j] == s[f(j)] by {}
    lemma_nodup_via_map(s, t, f);
}

/// With distinct values, `x` sits at the position `set_index` names.
pub proof fn lemma_set_index(s: Seq<u64>, x: u64, j: int)
    requires
        s.no_duplicates(),
        0 <= j < s.len(),
        s[j] == x,
    ensures
        s.contains(x),
        set_index(s, x) == j,
{
    assert(s.contains(x));
}

/// Moving a value to a position, after taking it out of its old one, keeps
/// the values distinct.
pub proof fn lemma_nodup_without_insert(s: Seq<u64>, x: u64, p: int)
    requires
        s.no_duplicates(),
        0 <= p <= set_without(s, x).len(),
    ensures
        set_without(s, x).insert(p, x).no_duplicates(),
{
    if s.contains(x) {
        let i = set_index(s, x);
        lemma_nodup_remove(s, i);
    }
    lemma_nodup_insert(set_without(s, x), p, x);
}

/// The values picked out of a sequence without duplicates are distinct, and
/// each of them was in the sequence.
pub proof fn lemma_nodup_selected(s: Seq<u64>, keep: Seq<bool>)
    requires
        s.no_duplicates(),
        keep.len() == s.len(),
    ensures
        set_selected(s, keep).no_duplicates(),
        forall|x: u64| set_selected(s, keep).contains(x) ==> s.contains(x),
    decreases s.len(),
{
    if s.len() > 0 {
        let init = s.drop_last();
        lemma_nodup_subrange(s, 0, s.len() - 1);
        assert(init =~= s.subrange(0, s.len() - 1));
        lemma_nodup_selected(init, keep.drop_last());
        let rest = set_selected(init, keep.drop_last());
        let t = set_selected(s, keep);
        assert forall|x: u64| t.contains(x) implies s.contains(x) by {
            let j = choose|j: int| 0 <= j < t.len() && t[j] == x;
            if j < rest.len() {
                assert(t[j] == rest[j]);
                assert(rest.contains(x));
                assert(init.contains(x));
                let l = choose|l: int| 0 <= l < init.len() && init[l] == x;
                assert(s[l] == x);
            } else {
                assert(s[s.len() - 1] == x);
            }
        }
        if keep.last() {
            if rest.contains(s.last()) {
                assert(init.contains(s.last()));
                let l = choose|l: int| 0 <= l < init.len() && init[l] == s.last();
                assert(s[l] == s[s.len() - 1]);
            }
            lemma_nodup_insert(rest, rest.len() as int, s.last());
            assert(rest.insert(rest.len() as int, s.last()) =~= rest.push(s.last()));
        }
    }
}

/// Round trip: inserting the values of a set, in its order, into an empty
/// set gives the same set.
pub proof fn law_set_from_iter_round_trip(s: Seq<u64>)
    requires
        s.no_duplicates(),
    ensures
        set_inserted_all(Seq::<u64>::empty(), s) == s,
    decreases s.len(),
{
    if s.len() > 0 {
        let init = s.drop_last();
        lemma_nodup_subrange(s, 0, s.len() - 1);
        assert(init =~= s.subrange(0, s.len() - 1));
        law_set_from_iter_round_trip(init);
        if init.contains(s.last()) {
            let j = choose|j: int| 0 <= j < init.len() && init[j] == s.last();
            assert(s[j] == s[s.len() - 1]);
        }
        assert(init.push(s.last()) =~= s);
    }
}

/// A rearrangement (same multiset) of distinct values has the same values,
/// still distinct.
pub proof fn lemma_set_permutation(s: Seq<u64>, t: Seq<u64>)
    requires
        s.no_duplicates(),
        t.to_multiset() == s.to_multiset(),
    ensures
        t.no_duplicates(),
        t.len() == s.len(),
        forall|x: u64| s.contains(x) <==> #[trigger] t.contains(x),
{
    s.to_multiset_ensures();
    t.to_multiset_ensures();
    s.lemma_multiset_has_no_duplicates();
    t.lemma_multiset_has_no_duplicates_conv();
    assert(t.to_multiset().len() == s.to_multiset().len());
    assert forall|x: u64| s.contains(x) <==> #[trigger] t.contains(x) by {
        assert(s.contains(x) <==> s.to_multiset().count(x) > 0);
        assert(t.contains(x) <==> t.to_multiset().count(x) > 0);
    }
}

/// A hash set whose values keep the order in which they were inserted,
/// addressable by position `0..len`.
#[derive(Debug)]
pub struct OrderSet {
    inner: IndexSet<u64>,
}

impl View for OrderSet {
    type V = Seq<u64>;

    closed spec fn view(&self) -> Seq<u64> {
        items(self.inner)
    }
}

impl OrderSet {
    /// Well-formedness: no value occurs twice.
    pub open spec fn wf(&self) -> bool {
        self@.no_duplicates()
    }

    /// Create an empty set.
    pub fn new() -> (r: Self)
        ensures
            r.wf(),
            r@ == Seq::<u64>::empty(),
    {
        OrderSet { inner: is_new() }
    }

    /// Create an empty set with room for `n` values.
    pub fn with_capacity(n: usize) -> (r: Self)
        ensures
            r.wf(),
            r@ == Seq::<u64>::empty(),
    {
        OrderSet { inner: is_with_capacity(n) }
    }

    /// The number of values.
    pub fn len(&self) -> (r: usize)
        ensures
            r as int == self@.len(),
    {
        is_len(&self.inner)
    }

    /// Whether the set is empty.
    pub fn is_empty(&self) -> (r: bool)
        ensures
            r == (self@.len() == 0),
    {
        is_len(&self.inner) == 0
    }

    /// Remove every value.
    pub fn clear(&mut self)
        ensures
            final(self).wf(),
            final(self)@ == Seq::<u64>::empty(),
    {
        is_clear(&mut self.inner)
    }

    /// Keep the first `len` values and drop the rest.
    pub fn truncate(&mut self, len: usize)
        requires
            old(self).wf(),
        ensures
            final(self).wf(),
            len < old(self)@.len() ==> final(self)@ == old(self)@.subrange(0, len as int),
            len >= old(self)@.len() ==> final(self)@ == old(self)@,
    {
        is_truncate(&mut self.inner, len);
        proof {
            if len < old(self)@.len() {
                lemma_nodup_subrange(old(self)@, 0, len as int);
            }
        }
    }

    /// Insert `value` last if absent; `true` when it was inserted. A present
    /// value keeps its position.
    pub fn insert(&mut self, value: u64) -> (r: bool)
        requires
            old(self).wf(),
        ensures
            final(self).wf(),
            r == !old(self)@.contains(value),
            old(self)@.contains(value) ==> final(self)@ == old(self)@,
            !old(self)@.contains(value) ==> final(self)@ == old(self)@.push(value),
    {
        self.insert_full(value).1
    }

    /// Insert `value` as [`Self::insert`] does, and return its position with
    /// whether it was inserted.
    pub fn insert_full(&mut self, value: u64) -> (r: (usize, bool))
        requires
            old(self).wf(),
        ensures
            final(self).wf(),
            r.1 == !old(self)@.contains(value),
            old(self)@.contains(value) ==> r.0 as int == set_index(old(self)@, value) && final(self)@ == old(self)@,
            !old(self)@.contains(value) ==> r.0 as int == old(self)@.len() && final(self)@ == old(self)@.push(value),
            final(self)@[r.0 as int] == value,
    {
        let r = is_insert_full(&mut self.inner, value);
        proof {
            let s = old(self)@;
            if !s.contains(value) {
                lemma_nodup_insert(s, s.len() as int, value);
                assert(s.insert(s.len() as int, value) =~= s.push(value));
            } else {
                let j = choose|j: int| 0 <= j < s.len() && s[j] == value;
                lemma_set_index(s, value, j);
            }
        }
        r
    }

    /// Insert `value` at its place among values kept in increasing order;
    /// returns the position and whether it was inserted. On values not in
    /// that order the position is unspecified, but the value is still moved
    /// or inserted there.
    pub fn insert_sorted(&mut self, value: u64) -> (r: (usize, bool))
        requires
            old(self).wf(),
        ensures
            final(self).wf(),
            r.0 <= set_without(old(self)@, value).len(),
            r.1 == !old(self)@.contains(value),
            final(self)@ == set_without(old(self)@, value).insert(r.0 as int, value),
            set_sorted(old(self)@) ==> set_sorted_position(set_without(old(self)@, value), value, r.0 as int),
    {
        let r = is_insert_sorted(&mut self.inner, value);
        proof {
            lemma_nodup_without_insert(old(self)@, value, r.0 as int);
        }
        r
    }

    /// Put `value` at position `index`, inserting it or moving it there;
    /// `true` when it was new. A present value cannot move to the end
    /// position `len`.
    pub fn shift_insert(&mut self, index: usize, value: u64) -> (r: bool)
        requires
            old(self).wf(),
            index <= old(self)@.len(),
            old(self)@.contains(value) ==> index < old(self)@.len(),
        ensures
            final(self).wf(),
            r == !old(self)@.contains(value),
            final(self)@ == set_without(old(self)@, value).insert(index as int, value),
    {
        let r = is_shift_insert(&mut self.inner, index, value);
        proof {
            lemma_nodup_without_insert(old(self)@, value, index as int);
        }
        r
    }

    /// Whether `value` is present.
    pub fn contains(&self, value: &u64) -> (r: bool)
        ensures
            r == self@.contains(*value),
    {
        is_contains(&self.inner, value)
    }

    /// The position of `value`, if present.
    pub fn get_index_of(&self, value: &u64) -> (r: Option<usize>)
        ensures
            self@.contains(*value) ==> r == Some(set_index(self@, *value) as usize),
            !self@.contains(*value) ==> r is None,
    {
        is_get_index_of(&self.inner, value)
    }

    /// The stored value equal to `value`, if present.
    pub fn get(&self, value: &u64) -> (r: Option<&u64>)
        ensures
            self@.contains(*value) ==> (r matches Some(x) && *x == *value),
            !self@.contains(*value) ==> r is None,
    {
        match self.get_full(value) {
            Some((_, x)) => Some(x),
            None => None,
        }
    }

    /// The position of `value` and the stored value, if present.
    pub fn get_full(&self, value: &u64) -> (r: Option<(usize, &u64)>)
        ensures
            self@.contains(*value) ==> (r matches Some(t) && t.0 as int == set_index(self@, *value) && *t.1 == *value),
            !self@.contains(*value) ==> r is None,
    {
        // The length fits in `usize`, and so does every position below it.
        let _len = is_len(&self.inner);
        match is_get_index_of(&self.inner, value) {
            Some(i) => {
                proof {
                    let s = self@;
                    let j = choose|j: int| 0 <= j < s.len() && s[j] == *value;
                    assert(s[set_index(s, *value)] == *value);
                }
                match is_get_index(&self.inner, i) {
                    Some(x) => Some((i, x)),
                    None => None,
                }
            },
            None => None,
        }
    }

    /// The value at position `index`, if in range.
    pub fn get_index(&self, index: usize) -> (r: Option<&u64>)
        ensures
            index < self@.len() ==> r == Some(&self@[index as int]),
            index >= self@.len() ==> r is None,
    {
        is_get_index(&self.inner, index)
    }

    /// The first value, if any.
    pub fn first(&self) -> (r: Option<&u64>)
        ensures
            self@.len() > 0 ==> r == Some(&self@[0]),
            self@.len() == 0 ==> r is None,
    {
        is_get_index(&self.inner, 0)
    }

    /// The last value, if any.
    pub fn last(&self) -> (r: Option<&u64>)
        ensures
            self@.len() > 0 ==> r == Some(&self@.last()),
            self@.len() == 0 ==> r is None,
    {
        let n = is_len(&self.inner);
        if n == 0 {
            None
        } else {
            is_get_index(&self.inner, n - 1)
        }
    }

    /// Remove `value` by shifting the later values up; `true` when it was
    /// present.
    pub fn remove(&mut self, value: &u64) -> (r: bool)
        requires
            old(self).wf(),
        ensures
            final(self).wf(),
            r == old(self)@.contains(*value),
            final(self)@ == set_without(old(self)@, *value),
    {
        self.remove_full(value).is_some()
    }

    /// Remove `value` by shifting, and return its former position and the
    /// value.
    pub fn remove_full(&mut self, value: &u64) -> (r: Option<(usize, u64)>)
        requires
            old(self).wf(),
        ensures
            final(self).wf(),
            old(self)@.contains(*value) ==> (r matches Some(t) && t.0 as int == set_index(old(self)@, *value) && t.1 == *value),
            !old(self)@.contains(*value) ==> r is None,
            final(self)@ == set_without(old(self)@, *value),
    {
        let r = is_shift_remove_full(&mut self.inner, value);
        proof {
            if old(self)@.contains(*value) {
                let j = choose|j: int| 0 <= j < old(self)@.len() && old(self)@[j] == *value;
                lemma_nodup_remove(old(self)@, set_index(old(self)@, *value));
            }
        }
        r
    }

    /// Remove `value` by shifting, and return it if it was present.
    pub fn take(&mut self, value: &u64) -> (r: Option<u64>)
        requires
            old(self).wf(),
        ensures
            final(self).wf(),
            old(self)@.contains(*value) ==> r == Some(*value),
            !old(self)@.contains(*value) ==> r is None,
            final(self)@ == set_without(old(self)@, *value),
    {
        match self.remove_full(value) {
            Some((_, v)) => Some(v),
            None => None,
        }
    }

    /// Remove `value` by swapping, and return it if it was present.
    pub fn swap_take(&mut self, value: &u64) -> (r: Option<u64>)
        requires
            old(self).wf(),
        ensures
            final(self).wf(),
            old(self)@.contains(*value) ==> r == Some(*value)
                && final(self)@ == set_swap_removed(old(self)@, set_index(old(self)@, *value)),
            !old(self)@.contains(*value) ==> r is None && final(self)@ == old(self)@,
    {
        match self.swap_remove_full(value) {
            Some((_, v)) => Some(v),
            None => None,
        }
    }

    /// Remove `value` by moving the last value into its position; `true` when
    /// it was present.
    pub fn swap_remove(&mut self, value: &u64) -> (r: bool)
        requires
            old(self).wf(),
        ensures
            final(self).wf(),
            r == old(self)@.contains(*value),
            old(self)@.contains(*value) ==> final(self)@ == set_swap_removed(old(self)@, set_index(old(self)@, *value)),
            !old(self)@.contains(*value) ==> final(self)@ == old(self)@,
    {
        self.swap_remove_full(value).is_some()
    }

    /// Remove `value` by swapping, and return its former position and the
    /// value.
    pub fn swap_remove_full(&mut self, value: &u64) -> (r: Option<(usize, u64)>)
        requires
            old(self).wf(),
        ensures
            final(self).wf(),
            old(self)@.contains(*value) ==> (r matches Some(t) && {
                &&& t.0 as int == set_index(old(self)@, *value)
                &&& t.1 == *value
                &&& final(self)@ == set_swap_removed(old(self)@, t.0 as int)
            }),
            !old(self)@.contains(*value) ==> r is None && final(self)@ == old(self)@,
    {
        let r = is_swap_remove_full(&mut self.inner, value);
        proof {
            if old(self)@.contains(*value) {
                let s = old(self)@;
                let i = set_index(s, *value);
                let j = choose|j: int| 0 <= j < s.len() && s[j] == *value;
                let t = set_swap_removed(s, i);
                let n = s.len() - 1;
                let f = |j: int| if j == i { n } else { j };
                assert forall|j: int| 0 <= j < t.len() implies 0 <= #[trigger] f(j) < s.len() && t[j] == s[f(j)] by {}
                lemma_nodup_via_map(s, t, f);
            }
        }
        r
    }

    /// Remove the last value and return it.
    pub fn pop(&mut self) -> (r: Option<u64>)
        requires
            old(self).wf(),
        ensures
            final(self).wf(),
            old(self)@.len() > 0 ==> r == Some(old(self)@.last()) && final(self)@ == old(self)@.drop_last(),
            old(self)@.len() == 0 ==> r is None && final(self)@ == old(self)@,
    {
        let r = is_pop(&mut self.inner);
        proof {
            if old(self)@.len() > 0 {
                lemma_nodup_subrange(old(self)@, 0, old(self)@.len() - 1);
            }
        }
        r
    }

    /// Remove the value at position `index` by shifting, and return it.
    pub fn remove_index(&mut self, index: usize) -> (r: Option<u64>)
        requires
            old(self).wf(),
        ensures
            final(self).wf(),
            index < old(self)@.len() ==> r == Some(old(self)@[index as int])
                && final(self)@ == old(self)@.remove(index as int),
            index >= old(self)@.len() ==> r is None && final(self)@ == old(self)@,
    {
        let r = is_shift_remove_index(&mut self.inner, index);
        proof {
            if index < old(self)@.len() {
                lemma_nodup_remove(old(self)@, index as int);
            }
        }
        r
    }

    /// Remove the value at position `index` by moving the last value into
    /// its place, and return it.
    pub fn swap_remove_index(&mut self, index: usize) -> (r: Option<u64>)
        requires
            old(self).wf(),
        ensures
            final(self).wf(),
            index < old(self)@.len() ==> r == Some(old(self)@[index as int])
                && final(self)@ == set_swap_removed(old(self)@, index as int),
            index >= old(self)@.len() ==> r is None && final(self)@ == old(self)@,
    {
        let r = is_swap_remove_index(&mut self.inner, index);
        proof {
            if index < old(self)@.len() {
                let s = old(self)@;
                let i = index as int;
                let t = set_swap_removed(s, i);
                let n = s.len() - 1;
                let f = |j: int| if j == i { n } else { j };
                assert forall|j: int| 0 <= j < t.len() implies 0 <= #[trigger] f(j) < s.len() && t[j] == s[f(j)] by {}
                lemma_nodup_via_map(s, t, f);
            }
        }
        r
    }

    /// Move the value at `from` to `to`, shifting the values in between.
    pub fn move_index(&mut self, from: usize, to: usize)
        requires
            old(self).wf(),
            from < old(self)@.len(),
            to < old(self)@.len(),
        ensures
            final(self).wf(),
            final(self)@ == set_moved(old(self)@, from as int, to as int),
    {
        is_move_index(&mut self.inner, from, to);
        proof {
            lemma_nodup_remove(old(self)@, from as int);
            lemma_nodup_insert(old(self)@.remove(from as int), to as int, old(self)@[from as int]);
        }
    }

    /// Exchange the values at positions `a` and `b`.
    pub fn swap_indices(&mut self, a: usize, b: usize)
        requires
            old(self).wf(),
            a < old(self)@.len(),
            b < old(self)@.len(),
        ensures
            final(self).wf(),
            final(self)@ == set_swapped(old(self)@, a as int, b as int),
    {
        is_swap_indices(&mut self.inner, a, b);
        proof {
            let s = old(self)@;
            let t = set_swapped(s, a as int, b as int);
            let f = |j: int| if j == a { b as int } else if j == b { a as int } else { j };
            assert forall|j: int| 0 <= j < t.len() implies 0 <= #[trigger] f(j) < s.len() && t[j] == s[f(j)] by {}
            lemma_nodup_via_map(s, t, f);
        }
    }

    /// Sort the values in increasing order.
    pub fn sort(&mut self)
        requires
            old(self).wf(),
        ensures
            final(self).wf(),
            final(self)@.len() == old(self)@.len(),
            forall|x: u64| old(self)@.contains(x) <==> #[trigger] final(self)@.contains(x),
            set_sorted(final(self)@),
    {
        is_sort(&mut self.inner);
        proof {
            let t = final(self)@;
            assert forall|a: int, b: int| 0 <= a < t.len() && 0 <= b < t.len() && a != b implies t[a] != t[b] by {
                if a < b {
                    assert(t[a] < t[b]);
                } else {
                    assert(t[b] < t[a]);
                }
            }
        }
    }

    /// Sort the values in increasing order (an unstable sort; with distinct
    /// values the outcome is the same).
    pub fn sort_unstable(&mut self)
        requires
            old(self).wf(),
        ensures
            final(self).wf(),
            final(self)@.len() == old(self)@.len(),
            forall|x: u64| old(self)@.contains(x) <==> #[trigger] final(self)@.contains(x),
            set_sorted(final(self)@),
    {
        is_sort_unstable(&mut self.inner);
        proof {
            let t = final(self)@;
            assert forall|a: int, b: int| 0 <= a < t.len() && 0 <= b < t.len() && a != b implies t[a] != t[b] by {
                if a < b {
                    assert(t[a] < t[b]);
                } else {
                    assert(t[b] < t[a]);
                }
            }
        }
    }

    /// Sort the values with the comparison `cmp`; a stable sort: values
    /// `cmp` rates `Equal` keep their order.
    pub fn sort_by<F: Fn(&u64, &u64) -> core::cmp::Ordering>(&mut self, cmp: F)
        requires
            old(self).wf(),
            set_total_order(cmp),
        ensures
            final(self).wf(),
            final(self)@.len() == old(self)@.len(),
            forall|x: u64| old(self)@.contains(x) <==> #[trigger] final(self)@.contains(x),
            set_sorted_by(cmp, final(self)@),
            set_ties_kept(cmp, old(self)@, final(self)@),
    {
        crate::inner::is_sort_by(&mut self.inner, cmp);
        proof {
            lemma_set_permutation(old(self)@, self@);
        }
    }

    /// As [`Self::sort_by`], with an unstable sort: values `cmp` rates
    /// `Equal` may change their order.
    pub fn sort_unstable_by<F: Fn(&u64, &u64) -> core::cmp::Ordering>(&mut self, cmp: F)
        requires
            old(self).wf(),
            set_total_order(cmp),
        ensures
            final(self).wf(),
            final(self)@.len() == old(self)@.len(),
            forall|x: u64| old(self)@.contains(x) <==> #[trigger] final(self)@.contains(x),
            set_sorted_by(cmp, final(self)@),
    {
        crate::inner::is_sort_unstable_by(&mut self.inner, cmp);
        proof {
            lemma_set_permutation(old(self)@, self@);
        }
    }

    /// Reverse the order of the values.
    pub fn reverse(&mut self)
        requires
            old(self).wf(),
        ensures
            final(self).wf(),
            final(self)@ == set_reversed(old(self)@),
    {
        is_reverse(&mut self.inner);
        proof {
            let s = old(self)@;
            let t = set_reversed(s);
            let f = |j: int| s.len() - 1 - j;
            assert forall|j: int| 0 <= j < t.len() implies 0 <= #[trigger] f(j) < s.len() && t[j] == s[f(j)] by {}
            lemma_nodup_via_map(s, t, f);
        }
    }

    /// Search for `value` among values kept in increasing order: `Ok` with
    /// its position when present, else `Err` with the position where it
    /// belongs. On values not in that order the result is unspecified.
    pub fn binary_search(&self, value: &u64) -> (r: Result<usize, usize>)
        ensures
            set_sorted(self@) ==> set_search_result(self@, *value, r),
    {
        is_binary_search(&self.inner, value)
    }

    /// Split the set at position `at`: the values from `at` on are returned
    /// as a new set, the others stay.
    pub fn split_off(&mut self, at: usize) -> (r: Self)
        requires
            old(self).wf(),
            at <= old(self)@.len(),
        ensures
            final(self).wf(),
            r.wf(),
            final(self)@ == old(self)@.subrange(0, at as int),
            r@ == old(self)@.subrange(at as int, old(self)@.len() as int),
    {
        let tail = is_split_off(&mut self.inner, at);
        proof {
            lemma_nodup_subrange(old(self)@, 0, at as int);
            lemma_nodup_subrange(old(self)@, at as int, old(self)@.len() as int);
        }
        OrderSet { inner: tail }
    }

    /// Remove the values at positions `range` and return them in order.
    pub fn drain(&mut self, range: core::ops::Range<usize>) -> (r: Vec<u64>)
        requires
            old(self).wf(),
            range.start <= range.end <= old(self)@.len(),
        ensures
            final(self).wf(),
            r@ == old(self)@.subrange(range.start as int, range.end as int),
            final(self)@ == old(self)@.subrange(0, range.start as int)
                + old(self)@.subrange(range.end as int, old(self)@.len() as int),
    {
        let r = is_drain(&mut self.inner, range.start, range.end);
        proof {
            let s = old(self)@;
            let (a, b) = (range.start as int, range.end as int);
            let t = s.subrange(0, a) + s.subrange(b, s.len() as int);
            let f = |j: int| if j < a { j } else { j + (b - a) };
            assert forall|j: int| 0 <= j < t.len() implies 0 <= #[trigger] f(j) < s.len() && t[j] == s[f(j)] by {}
            lemma_nodup_via_map(s, t, f);
        }
        r
    }

    /// Keep the values for which `keep` holds and remove the others. `keep`
    /// sees each value once, in order; the kept values stay in their order.
    pub fn retain<F: Fn(&u64) -> bool>(&mut self, keep: F)
        requires
            old(self).wf(),
            forall|x: &u64| keep.requires((x,)),
        ensures
            final(self).wf(),
            exists|flags: Seq<bool>| {
                &&& flags.len() == old(self)@.len()
                &&& forall|i: int| 0 <= i < flags.len() ==> keep.ensures((&old(self)@[i],), #[trigger] flags[i])
                &&& #[trigger] set_selected(old(self)@, flags) == final(self)@
            },
    {
        crate::inner::is_retain(&mut self.inner, keep);
        proof {
            let flags = choose|flags: Seq<bool>| {
                &&& flags.len() == old(self)@.len()
                &&& forall|i: int| 0 <= i < flags.len() ==> keep.ensures((&old(self)@[i],), #[trigger] flags[i])
                &&& #[trigger] set_selected(old(self)@, flags) == self@
            };
            lemma_nodup_selected(old(self)@, flags);
        }
    }

    /// Search with `f`, which tells for a value whether it lies before
    /// (`Less`), at (`Equal`) or after (`Greater`) the target. On values
    /// sorted as `f` sees them, `Ok(i)` names a value `f` rates `Equal`, and
    /// `Err(i)` the place of the target. On other values the result is
    /// unspecified.
    pub fn binary_search_by<F: Fn(&u64) -> core::cmp::Ordering>(&self, f: F) -> (r: Result<usize, usize>)
        requires
            forall|x: &u64| f.requires((x,)),
        ensures
            set_ordered_along(f, self@) ==> set_found_by(f, self@, r),
    {
        crate::inner::is_binary_search_by(&self.inner, f)
    }

    /// The position that splits the values by `pred`: on values where `pred`
    /// holds of a prefix and of nothing after it, the length of that prefix.
    /// On other values the result is unspecified.
    pub fn partition_point<P: Fn(&u64) -> bool>(&self, pred: P) -> (r: usize)
        requires
            forall|x: &u64| pred.requires((x,)),
        ensures
            set_partitioned(pred, self@) ==> {
                &&& r <= self@.len()
                &&& forall|j: int, b: bool| 0 <= j < r && #[trigger] pred.ensures((&self@[j],), b) ==> b
                &&& forall|j: int, b: bool| r <= j < self@.len() && #[trigger] pred.ensures((&self@[j],), b) ==> !b
            },
    {
        crate::inner::is_partition_point(&self.inner, pred)
    }

    /// Replace the values at positions `range` with `values`, returning the
    /// removed values in order. A value already in the set outside the range
    /// stays where it is; any other goes into the gap, in order.
    pub fn splice(&mut self, range: core::ops::Range<usize>, values: Vec<u64>) -> (r: Vec<u64>)
        requires
            old(self).wf(),
            range.start <= range.end <= old(self)@.len(),
        ensures
            final(self).wf(),
            r@ == old(self)@.subrange(range.start as int, range.end as int),
            ({
                let s = old(self)@;
                let parts = set_spliced(s.subrange(0, range.start as int), s.subrange(range.end as int, s.len() as int), values@);
                final(self)@ == parts.0 + parts.1
            }),
    {
        let r = crate::inner::is_splice(&mut self.inner, range.start, range.end, values);
        proof {
            let s = old(self)@;
            let head = s.subrange(0, range.start as int);
            let tail = s.subrange(range.end as int, s.len() as int);
            lemma_nodup_subrange(s, 0, range.start as int);
            lemma_nodup_subrange(s, range.end as int, s.len() as int);
            assert forall|x: u64| head.contains(x) implies !tail.contains(x) by {
                let a = choose|a: int| 0 <= a < head.len() && head[a] == x;
                if tail.contains(x) {
                    let b = choose|b: int| 0 <= b < tail.len() && tail[b] == x;
                    assert(s[a] == s[b + range.end]);
                }
            }
            lemma_set_spliced_parts(head, tail, values@);
            let h = set_spliced(head, tail, values@).0;
            assert forall|a: int, b: int| 0 <= a < (h + tail).len() && 0 <= b < (h + tail).len() && a != b
                implies (h + tail)[a] != (h + tail)[b] by {
                let t = h + tail;
                if a < h.len() && b >= h.len() {
                    assert(h.contains(t[a]));
                    assert(tail.contains(t[b]));
                } else if b < h.len() && a >= h.len() {
                    assert(h.contains(t[b]));
                    assert(tail.contains(t[a]));
                } else if a < h.len() {
                    assert(t[a] == h[a] && t[b] == h[b]);
                } else {
                    assert(t[a] == tail[a - h.len()] && t[b] == tail[b - h.len()]);
                }
            }
        }
        r
    }

    /// The values in their order.
    pub fn iter(&self) -> (r: Vec<u64>)
        ensures
            r@ == self@,
    {
        let n = is_len(&self.inner);
        let mut out: Vec<u64> = Vec::with_capacity(n);
        let mut i: usize = 0;
        while i < n
            invariant
                n as int == self@.len(),
                i <= n,
                out@ == self@.subrange(0, i as int),
            decreases n - i,
        {
            match is_get_index(&self.inner, i) {
                Some(x) => out.push(*x),
                None => {},
            }
            i += 1;
        }
        proof {
            assert(self@.subrange(0, n as int) =~= self@);
        }
        out
    }

    /// Insert each value of `values` in turn, as [`Self::insert`] does.
    pub fn extend(&mut self, values: Vec<u64>)
        requires
            old(self).wf(),
        ensures
            final(self).wf(),
            final(self)@ == set_inserted_all(old(self)@, values@),
    {
        let n = values.len();
        let mut i: usize = 0;
        while i < n
            invariant
                n == values@.len(),
                i <= n,
                self.wf(),
                self@ == set_inserted_all(old(self)@, values@.subrange(0, i as int)),
            decreases n - i,
        {
            self.insert(values[i]);
            proof {
                assert(values@.subrange(0, i + 1).drop_last() =~= values@.subrange(0, i as int));
            }
            i += 1;
        }
        proof {
            assert(values@.subrange(0, n as int) =~= values@);
        }
    }

    /// Build a set by inserting each value of `values` in turn.
    pub fn from_iter(values: Vec<u64>) -> (r: Self)
        ensures
            r.wf(),
            r@ == set_inserted_all(Seq::<u64>::empty(), values@),
    {
        let mut s = OrderSet::new();
        s.extend(values);
        s
    }

    /// The values of this set that `other` lacks, in this set's order.
    pub fn difference(&self, other: &OrderSet) -> (r: Vec<u64>)
        ensures
            r@ == self@.filter(|x: u64| !other@.contains(x)),
    {
        is_difference(&self.inner, &other.inner)
    }

    /// The values of this set that `other` has too, in this set's order.
    pub fn intersection(&self, other: &OrderSet) -> (r: Vec<u64>)
        ensures
            r@ == self@.filter(|x: u64| other@.contains(x)),
    {
        is_intersection(&self.inner, &other.inner)
    }

    /// The values of this set in order, then those of `other` that this set
    /// lacks.
    pub fn union(&self, other: &OrderSet) -> (r: Vec<u64>)
        ensures
            r@ == self@ + other@.filter(|x: u64| !self@.contains(x)),
    {
        is_union(&self.inner, &other.inner)
    }

    /// The values of this set that `other` lacks, then those of `other` that
    /// this set lacks.
    pub fn symmetric_difference(&self, other: &OrderSet) -> (r: Vec<u64>)
        ensures
            r@ == self@.filter(|x: u64| !other@.contains(x)) + other@.filter(|x: u64| !self@.contains(x)),
    {
        is_symmetric_difference(&self.inner, &other.inner)
    }

    /// Whether the two sets have no value in common.
    pub fn is_disjoint(&self, other: &OrderSet) -> (r: bool)
        ensures
            r == disjoint(self@, other@),
    {
        is_is_disjoint(&self.inner, &other.inner)
    }

    /// Whether every value of this set is in `other`.
    pub fn is_subset(&self, other: &OrderSet) -> (r: bool)
        ensures
            r == subset_of(self@, other@),
    {
        is_is_subset(&self.inner, &other.inner)
    }

    /// Whether every value of `other` is in this set.
    pub fn is_superset(&self, other: &OrderSet) -> (r: bool)
        ensures
            r == subset_of(other@, self@),
    {
        is_is_subset(&other.inner, &self.inner)
    }

    /// Whether the two sets hold the same values, in any order.
    pub fn set_eq(&self, other: &OrderSet) -> (r: bool)
        ensures
            r == (subset_of(self@, other@) && subset_of(other@, self@)),
    {
        is_is_subset(&self.inner, &other.inner) && is_is_subset(&other.inner, &self.inner)
    }
}

impl OrderSet {
    /// What hashing the set feeds to the hasher: first the length, then each
    /// value in order. [`core::hash::Hash::hash`] feeds exactly these, the
    /// length as a `usize` and each value as a `u64`.
    pub fn hash_input(&self) -> (r: (usize, Vec<u64>))
        ensures
            r.0 as int == self@.len(),
            r.1@ == self@,
    {
        (is_len(&self.inner), self.iter())
    }
}

impl Clone for OrderSet {
    fn clone(&self) -> (r: Self)
        ensures
            r@ == self@,
    {
        OrderSet { inner: crate::inner::is_clone(&self.inner) }
    }
}

impl Default for OrderSet {
    fn default() -> (r: Self)
        ensures
            r.wf(),
            r@ == Seq::<u64>::empty(),
    {
        OrderSet::new()
    }
}

/// Order-sensitive equality: the same values in the same order.
impl PartialEq for OrderSet {
    fn eq(&self, other: &OrderSet) -> (r: bool) {
        let n = is_len(&self.inner);
        if n != is_len(&other.inner) {
            return false;
        }
        let mut i: usize = 0;
        while i < n
            invariant
                n as int == self@.len(),
                n as int == other@.len(),
                i <= n,
                forall|j: int| 0 <= j < i ==> self@[j] == other@[j],
            decreases n - i,
        {
            match (is_get_index(&self.inner, i), is_get_index(&other.inner, i)) {
                (Some(a), Some(b)) => {
                    if *a != *b {
                        return false;
                    }
                },
                _ => {},
            }
            i += 1;
        }
        proof {
            assert(self@ =~= other@);
        }
        true
    }
}

impl vstd::std_specs::cmp::PartialEqSpecImpl for OrderSet {
    open spec fn obeys_eq_spec() -> bool {
        true
    }

    open spec fn eq_spec(&self, other: &OrderSet) -> bool {
        self@ == other@
    }
}

impl Eq for OrderSet {}

/// Order-sensitive comparison: lexicographic over the values in order.
impl PartialOrd for OrderSet {
    fn partial_cmp(&self, other: &OrderSet) -> (r: Option<core::cmp::Ordering>) {
        let ghost a = self@;
        let ghost b = other@;
        let n = is_len(&self.inner);
        let m = is_len(&other.inner);
        let mut i: usize = 0;
        proof {
            assert(a.subrange(0, n as int) =~= a);
            assert(b.subrange(0, m as int) =~= b);
        }
        while i < n && i < m
            invariant
                n as int == a.len(),
                m as int == b.len(),
                a == self@,
                b == other@,
                i <= n,
                i <= m,
                set_lex_cmp(a, b) == set_lex_cmp(a.subrange(i as int, n as int), b.subrange(i as int, m as int)),
            decreases n - i,
        {
            let x = match is_get_index(&self.inner, i) {
                Some(v) => *v,
                None => 0,
            };
            let y = match is_get_index(&other.inner, i) {
                Some(v) => *v,
                None => 0,
            };
            proof {
                let sa = a.subrange(i as int, n as int);
                let sb = b.subrange(i as int, m as int);
                assert(sa[0] == a[i as int]);
                assert(sb[0] == b[i as int]);
                assert(sa.drop_first() =~= a.subrange(i + 1, n as int));
                assert(sb.drop_first() =~= b.subrange(i + 1, m as int));
            }
            if x < y {
                return Some(core::cmp::Ordering::Less);
            } else if x > y {
                return Some(core::cmp::Ordering::Greater);
            }
            i += 1;
        }
        proof {
            assert(a.subrange(i as int, n as int).len() == n - i);
            assert(b.subrange(i as int, m as int).len() == m - i);
        }
        if n == m {
            Some(core::cmp::Ordering::Equal)
        } else if i == n {
            Some(core::cmp::Ordering::Less)
        } else {
            Some(core::cmp::Ordering::Greater)
        }
    }
}

impl vstd::std_specs::cmp::PartialOrdSpecImpl for OrderSet {
    open spec fn obeys_partial_cmp_spec() -> bool {
        true
    }

    open spec fn partial_cmp_spec(&self, other: &OrderSet) -> Option<core::cmp::Ordering> {
        Some(set_lex_cmp(self@, other@))
    }
}

/// Order-sensitive hashing: the length, then each value in order.
impl core::hash::Hash for OrderSet {
    fn hash<H: core::hash::Hasher>(&self, state: &mut H) {
        let (n, values) = self.hash_input();
        crate::inner::hash_usize(n, state);
        let mut i: usize = 0;
        while i < values.len()
            decreases values.len() - i,
        {
            crate::inner::hash_u64(values[i], state);
            i += 1;
        }
    }
}

} // verus!

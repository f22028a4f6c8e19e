//! What holds of the heap's operations taken together: over any run of
//! insertions and removals, and when a heap is emptied by removing its root
//! again and again.

use super::order::{in_order, total_order};
use super::sift::{
    inserted,
    lemma_inserted_is_heap,
    lemma_inserted_permutes,
    lemma_removed_is_heap,
    lemma_removed_permutes,
    removed,
};
use super::tree::{heap_property, lemma_root_is_extremal};
use super::HeapType;
use vstd::prelude::*;

verus! {

/// One mutating call on a heap.
pub enum Call<T> {
    /// `insert` with the given element.
    Insert(T),
    /// `remove`.
    Remove,
}

/// The storage after the calls of `calls` were made, first to last, on a heap
/// whose storage was `s`.
pub open spec fn after<T: Ord>(s: Seq<T>, kind: HeapType, calls: Seq<Call<T>>) -> Seq<T>
    decreases calls.len(),
{
    if calls.len() == 0 {
        s
    } else {
        let before = after(s, kind, calls.drop_last());
        match calls.last() {
            Call::Insert(x) => inserted(before, kind, x),
            Call::Remove => removed(before, kind),
        }
    }
}

/// Every `remove` among `calls` finds the heap non-empty.
pub open spec fn permitted<T: Ord>(s: Seq<T>, kind: HeapType, calls: Seq<Call<T>>) -> bool
    decreases calls.len(),
{
    calls.len() == 0 || {
        &&& permitted(s, kind, calls.drop_last())
        &&& calls.last() is Remove ==> after(s, kind, calls.drop_last()).len() > 0
    }
}

/// The number of insertions among `calls`.
pub open spec fn insertions<T>(calls: Seq<Call<T>>) -> nat
    decreases calls.len(),
{
    if calls.len() == 0 {
        0
    } else if calls.last() is Insert {
        insertions(calls.drop_last()) + 1
    } else {
        insertions(calls.drop_last())
    }
}

/// The number of removals among `calls`.
pub open spec fn removals<T>(calls: Seq<Call<T>>) -> nat
    decreases calls.len(),
{
    if calls.len() == 0 {
        0
    } else if calls.last() is Remove {
        removals(calls.drop_last()) + 1
    } else {
        removals(calls.drop_last())
    }
}

/// The elements of `s` in the order in which removing the root again and
/// again, until nothing is left, hands them out.
pub open spec fn drained<T: Ord>(s: Seq<T>, kind: HeapType) -> Seq<T>
    decreases s.len(),
{
    if s.len() == 0 {
        Seq::empty()
    } else {
        proof {
            lemma_removed_permutes(s, kind);
        }
        seq![s[0]] + drained(removed(s, kind), kind)
    }
}

/// The storage that inserting the elements of `xs`, first to last, into an
/// empty heap builds.
pub open spec fn built<T: Ord>(xs: Seq<T>, kind: HeapType) -> Seq<T>
    decreases xs.len(),
{
    if xs.len() == 0 {
        Seq::empty()
    } else {
        inserted(built(xs.drop_last(), kind), kind, xs.last())
    }
}

/// `s` is sorted under the discipline `kind`: each element may stand above all
/// that follow it, so `s` is non-decreasing for a min heap and non-increasing
/// for a max heap.
pub open spec fn sorted<T: Ord>(s: Seq<T>, kind: HeapType) -> bool {
    forall|i: int, j: int| 0 <= i < j < s.len() ==> in_order(kind, s[i], s[j])
}

/// The heap property is an invariant: after any run of insertions and
/// removals on a heap, none of the removals on an empty heap, the storage has
/// the heap property.
pub proof fn lemma_heap_property_is_invariant<T: Ord>(
    s: Seq<T>,
    kind: HeapType,
    calls: Seq<Call<T>>,
)
    requires
        total_order::<T>(),
        heap_property(s, kind),
        permitted(s, kind, calls),
    ensures
        heap_property(after(s, kind, calls), kind),
    decreases calls.len(),
{
    if calls.len() > 0 {
        let before = after(s, kind, calls.drop_last());
        lemma_heap_property_is_invariant(s, kind, calls.drop_last());
        match calls.last() {
            Call::Insert(x) => lemma_inserted_is_heap(before, kind, x),
            Call::Remove => lemma_removed_is_heap(before, kind),
        }
    }
}

/// Size accounting: after a run of calls, none of the removals on an empty
/// heap, the heap holds as many elements more as were inserted and as many
/// fewer as were removed. From an empty heap, `k` insertions and `m` removals
/// leave `k - m` elements.
pub proof fn lemma_size_accounting<T: Ord>(s: Seq<T>, kind: HeapType, calls: Seq<Call<T>>)
    requires
        permitted(s, kind, calls),
    ensures
        after(s, kind, calls).len() == s.len() + insertions(calls) - removals(calls),
        insertions(calls) + removals(calls) == calls.len(),
    decreases calls.len(),
{
    if calls.len() > 0 {
        let before = after(s, kind, calls.drop_last());
        lemma_size_accounting(s, kind, calls.drop_last());
        match calls.last() {
            Call::Insert(x) => lemma_inserted_permutes(before, kind, x),
            Call::Remove => lemma_removed_permutes(before, kind),
        }
    }
}

/// The root of a heap may stand above every element that the heap holds.
pub proof fn lemma_root_bounds_every_element<T: Ord>(s: Seq<T>, kind: HeapType, x: T)
    requires
        total_order::<T>(),
        heap_property(s, kind),
        s.to_multiset().count(x) > 0,
    ensures
        in_order(kind, s[0], x),
{
    vstd::seq_lib::to_multiset_contains(s, x);
    assert(s.contains(x));
    let k = choose|k: int| 0 <= k < s.len() && s[k] == x;
    lemma_root_is_extremal(s, kind, k);
}

/// Emptying a heap hands out every element that it held, each as often as it
/// was held: no copy of a repeated element is lost or added.
pub proof fn lemma_drained_permutes<T: Ord>(s: Seq<T>, kind: HeapType)
    ensures
        drained(s, kind).len() == s.len(),
        drained(s, kind).to_multiset() == s.to_multiset(),
        forall|x: T| drained(s, kind).to_multiset().count(x) == s.to_multiset().count(x),
    decreases s.len(),
{
    broadcast use vstd::multiset::group_multiset_axioms;

    if s.len() == 0 {
        assert(drained(s, kind) =~= s);
    } else {
        let rest = removed(s, kind);
        lemma_removed_permutes(s, kind);
        lemma_drained_permutes(rest, kind);
        vstd::seq_lib::to_multiset_insert(drained(rest, kind), 0, s[0]);
        assert(drained(s, kind) =~= drained(rest, kind).insert(0, s[0]));
        vstd::seq_lib::to_multiset_contains(s, s[0]);
        assert(s.contains(s[0]));
        assert(drained(s, kind).to_multiset() =~= s.to_multiset());
    }
}

/// Extraction order: emptying a heap hands the elements out sorted under its
/// discipline, non-decreasing from a min heap and non-increasing from a max
/// heap.
pub proof fn lemma_drained_is_sorted<T: Ord>(s: Seq<T>, kind: HeapType)
    requires
        total_order::<T>(),
        heap_property(s, kind),
    ensures
        sorted(drained(s, kind), kind),
    decreases s.len(),
{
    broadcast use vstd::multiset::group_multiset_axioms;

    if s.len() > 0 {
        let rest = removed(s, kind);
        let d = drained(s, kind);
        let tail = drained(rest, kind);
        lemma_removed_permutes(s, kind);
        lemma_removed_is_heap(s, kind);
        lemma_drained_permutes(rest, kind);
        lemma_drained_is_sorted(rest, kind);
        assert forall|i: int, j: int| 0 <= i < j < d.len() implies in_order(kind, d[i], d[j]) by {
            if i == 0 {
                let y = tail[j - 1];
                assert(tail.contains(y));
                vstd::seq_lib::to_multiset_contains(tail, y);
                lemma_root_bounds_every_element(s, kind, y);
            } else {
                assert(d[i] == tail[i - 1] && d[j] == tail[j - 1]);
            }
        }
    }
}

/// Inserting the elements of any sequence into an empty heap builds a heap
/// that holds exactly those elements.
pub proof fn lemma_built_is_heap<T: Ord>(xs: Seq<T>, kind: HeapType)
    requires
        total_order::<T>(),
    ensures
        heap_property(built(xs, kind), kind),
        built(xs, kind).len() == xs.len(),
        built(xs, kind).to_multiset() == xs.to_multiset(),
    decreases xs.len(),
{
    if xs.len() > 0 {
        let front = xs.drop_last();
        lemma_built_is_heap(front, kind);
        lemma_inserted_is_heap(built(front, kind), kind, xs.last());
        lemma_inserted_permutes(built(front, kind), kind, xs.last());
        vstd::seq_lib::to_multiset_build(front, xs.last());
        assert(front.push(xs.last()) =~= xs);
    } else {
        assert(built(xs, kind) =~= xs);
    }
}

/// In whatever order the elements are inserted, emptying the heap hands them
/// out sorted, each as often as it was inserted.
pub proof fn lemma_extraction_sorts<T: Ord>(xs: Seq<T>, kind: HeapType)
    requires
        total_order::<T>(),
    ensures
        sorted(drained(built(xs, kind), kind), kind),
        drained(built(xs, kind), kind).len() == xs.len(),
        drained(built(xs, kind), kind).to_multiset() == xs.to_multiset(),
{
    lemma_built_is_heap(xs, kind);
    lemma_drained_permutes(built(xs, kind), kind);
    lemma_drained_is_sorted(built(xs, kind), kind);
}

} // verus!

//! Sift-up and sift-down as functions on sequences, and what they establish.

use super::order::{
    dominates,
    in_order,
    lemma_dominates_in_order,
    lemma_in_order_iff_not_dominated,
    lemma_in_order_transitive,
    total_order,
};
use super::tree::{heap_property, left_index, lemma_children_and_parent, parent_index, right_index};
use super::HeapType;
use vstd::prelude::*;

verus! {

/// The sequence `s` with the elements at positions `i` and `j` exchanged.
pub open spec fn swapped<T>(s: Seq<T>, i: int, j: int) -> Seq<T> {
    s.update(i, s[j]).update(j, s[i])
}

/// Sift-up from position `i`: while the element dominates its parent the two
/// are exchanged and the walk goes on from the parent's position. Elements
/// that tie with their parent stay where they are.
pub open spec fn sift_up<T: Ord>(s: Seq<T>, kind: HeapType, i: int) -> Seq<T>
    decreases i,
{
    if 0 < i < s.len() && dominates(kind, s[i], s[parent_index(i)]) {
        sift_up(swapped(s, i, parent_index(i)), kind, parent_index(i))
    } else {
        s
    }
}

/// The position, among `i` and its children, whose element belongs at `i`.
/// The left child is looked at first and takes the place if it dominates the
/// element at `i`; the right child then takes it if it dominates the holder so
/// far. Of two children that tie, the left one is preferred.
pub open spec fn preferred<T: Ord>(s: Seq<T>, kind: HeapType, i: int) -> int {
    let l = left_index(i);
    let r = right_index(i);
    let first = if l < s.len() && dominates(kind, s[l], s[i]) {
        l
    } else {
        i
    };
    if r < s.len() && dominates(kind, s[r], s[first]) {
        r
    } else {
        first
    }
}

/// Sift-down from position `i`: while a child is preferred to the element, the
/// two are exchanged and the walk goes on from that child's position.
pub open spec fn sift_down<T: Ord>(s: Seq<T>, kind: HeapType, i: int) -> Seq<T>
    decreases s.len() - i,
{
    if 0 <= i < s.len() && preferred(s, kind, i) != i {
        sift_down(swapped(s, i, preferred(s, kind, i)), kind, preferred(s, kind, i))
    } else {
        s
    }
}

/// The storage after `x` is inserted: `x` is appended and sifted up.
pub open spec fn inserted<T: Ord>(s: Seq<T>, kind: HeapType, x: T) -> Seq<T> {
    sift_up(s.push(x), kind, s.len() as int)
}

/// The storage after the root is removed: the last element takes the root's
/// place and is sifted down.
pub open spec fn removed<T: Ord>(s: Seq<T>, kind: HeapType) -> Seq<T> {
    if s.len() == 0 {
        s
    } else {
        sift_down(s.update(0, s.last()).drop_last(), kind, 0)
    }
}

/// The heap property but for the element at `k`, which may dominate its
/// parent; the children of `k` are in order with the parent of `k`.
spec fn heap_but_above<T: Ord>(s: Seq<T>, kind: HeapType, k: int) -> bool {
    &&& forall|i: int|
        0 < i < s.len() && i != k ==> in_order(kind, s[#[trigger] parent_index(i)], s[i])
    &&& forall|i: int|
        0 < i < s.len() && #[trigger] parent_index(i) == k && k > 0 ==> in_order(
            kind,
            s[parent_index(k)],
            s[i],
        )
}

/// The heap property but for the element at `k`, which its children may
/// dominate; the children of `k` are in order with the parent of `k`.
spec fn heap_but_below<T: Ord>(s: Seq<T>, kind: HeapType, k: int) -> bool {
    &&& forall|i: int|
        0 < i < s.len() && #[trigger] parent_index(i) != k ==> in_order(
            kind,
            s[parent_index(i)],
            s[i],
        )
    &&& forall|i: int|
        0 < i < s.len() && #[trigger] parent_index(i) == k && k > 0 ==> in_order(
            kind,
            s[parent_index(k)],
            s[i],
        )
}

/// Exchanging two elements keeps the length and the elements.
pub proof fn lemma_swapped_permutes<T>(s: Seq<T>, i: int, j: int)
    requires
        0 <= i < s.len(),
        0 <= j < s.len(),
    ensures
        swapped(s, i, j).len() == s.len(),
        swapped(s, i, j).to_multiset() == s.to_multiset(),
{
    broadcast use vstd::multiset::group_multiset_axioms;

    let t = s.update(i, s[j]);
    vstd::seq_lib::to_multiset_update(s, i, s[j]);
    vstd::seq_lib::to_multiset_update(t, j, s[i]);
    vstd::seq_lib::to_multiset_contains(s, s[i]);
    assert(s.contains(s[i]));
    assert(swapped(s, i, j).to_multiset() =~= s.to_multiset());
}

/// Sift-up keeps the length and the elements.
pub proof fn lemma_sift_up_permutes<T: Ord>(s: Seq<T>, kind: HeapType, i: int)
    ensures
        sift_up(s, kind, i).len() == s.len(),
        sift_up(s, kind, i).to_multiset() == s.to_multiset(),
    decreases i,
{
    if 0 < i < s.len() && dominates(kind, s[i], s[parent_index(i)]) {
        lemma_swapped_permutes(s, i, parent_index(i));
        lemma_sift_up_permutes(swapped(s, i, parent_index(i)), kind, parent_index(i));
    }
}

/// Sift-down keeps the length and the elements.
pub proof fn lemma_sift_down_permutes<T: Ord>(s: Seq<T>, kind: HeapType, i: int)
    ensures
        sift_down(s, kind, i).len() == s.len(),
        sift_down(s, kind, i).to_multiset() == s.to_multiset(),
    decreases s.len() - i,
{
    if 0 <= i < s.len() && preferred(s, kind, i) != i {
        lemma_swapped_permutes(s, i, preferred(s, kind, i));
        lemma_sift_down_permutes(swapped(s, i, preferred(s, kind, i)), kind, preferred(s, kind, i));
    }
}

/// Sift-up from `i` restores the heap property where only the element at `i`
/// may be out of place, towards the root.
proof fn lemma_sift_up_restores<T: Ord>(s: Seq<T>, kind: HeapType, i: int)
    requires
        total_order::<T>(),
        0 <= i < s.len(),
        heap_but_above(s, kind, i),
    ensures
        heap_property(sift_up(s, kind, i), kind),
    decreases i,
{
    let p = parent_index(i);
    if i > 0 && dominates(kind, s[i], s[p]) {
        let t = swapped(s, i, p);
        lemma_dominates_in_order(kind, s[i], s[p]);
        assert forall|j: int| 0 < j < t.len() && j != p implies in_order(
            kind,
            t[#[trigger] parent_index(j)],
            t[j],
        ) by {
            if j != i && parent_index(j) == p {
                lemma_in_order_transitive(kind, s[i], s[p], s[j]);
            }
        }
        assert forall|j: int| 0 < j < t.len() && #[trigger] parent_index(j) == p && p > 0 implies in_order(
            kind,
            t[parent_index(p)],
            t[j],
        ) by {
            if j != i {
                lemma_in_order_transitive(kind, s[parent_index(p)], s[p], s[j]);
            }
        }
        lemma_sift_up_restores(t, kind, p);
    } else if i > 0 {
        lemma_in_order_iff_not_dominated(kind, s[p], s[i]);
    }
}

/// Sift-down from `i` restores the heap property where only the element at `i`
/// may be out of place, towards the leaves.
proof fn lemma_sift_down_restores<T: Ord>(s: Seq<T>, kind: HeapType, i: int)
    requires
        total_order::<T>(),
        0 <= i < s.len(),
        heap_but_below(s, kind, i),
    ensures
        heap_property(sift_down(s, kind, i), kind),
    decreases s.len() - i,
{
    let l = left_index(i);
    let r = right_index(i);
    let m = preferred(s, kind, i);
    lemma_children_and_parent(i);
    if l < s.len() {
        lemma_in_order_iff_not_dominated(kind, s[i], s[l]);
    }
    if r < s.len() {
        lemma_in_order_iff_not_dominated(kind, s[i], s[r]);
        lemma_in_order_iff_not_dominated(kind, s[l], s[r]);
    }
    if m != i {
        let t = swapped(s, i, m);
        let other = if m == l { r } else { l };
        assert(in_order(kind, s[m], s[i])) by {
            if m == r && l < s.len() && dominates(kind, s[l], s[i]) {
                lemma_in_order_transitive(kind, s[r], s[l], s[i]);
            }
        }
        if other < s.len() {
            assert(in_order(kind, s[m], s[other])) by {
                if m == r && !dominates(kind, s[l], s[i]) {
                    lemma_in_order_transitive(kind, s[r], s[i], s[l]);
                } else if m == r {
                    lemma_dominates_in_order(kind, s[r], s[l]);
                }
            }
        }
        assert forall|j: int| 0 < j < t.len() && #[trigger] parent_index(j) != m implies in_order(
            kind,
            t[parent_index(j)],
            t[j],
        ) by {
            if parent_index(j) == i {
                assert(j == l || j == r);
            }
        }
        lemma_sift_down_restores(t, kind, m);
    } else {
        assert forall|j: int| 0 < j < s.len() implies in_order(
            kind,
            s[#[trigger] parent_index(j)],
            s[j],
        ) by {
            if parent_index(j) == i {
                assert(j == l || j == r);
            }
        }
    }
}

/// Inserting keeps what the storage held and adds the new element.
pub proof fn lemma_inserted_permutes<T: Ord>(s: Seq<T>, kind: HeapType, x: T)
    ensures
        inserted(s, kind, x).len() == s.len() + 1,
        inserted(s, kind, x).to_multiset() == s.to_multiset().insert(x),
{
    lemma_sift_up_permutes(s.push(x), kind, s.len() as int);
    vstd::seq_lib::to_multiset_build(s, x);
}

/// Inserting into a heap gives a heap.
pub proof fn lemma_inserted_is_heap<T: Ord>(s: Seq<T>, kind: HeapType, x: T)
    requires
        total_order::<T>(),
        heap_property(s, kind),
    ensures
        heap_property(inserted(s, kind, x), kind),
{
    assert(heap_but_above(s.push(x), kind, s.len() as int));
    lemma_sift_up_restores(s.push(x), kind, s.len() as int);
}

/// Removing the root takes one copy of the root out of what the storage held
/// and keeps the rest.
pub proof fn lemma_removed_permutes<T: Ord>(s: Seq<T>, kind: HeapType)
    requires
        s.len() > 0,
    ensures
        removed(s, kind).len() == s.len() - 1,
        removed(s, kind).to_multiset() == s.to_multiset().remove(s[0]),
{
    let last = s.len() - 1;
    let t = s.update(0, s.last()).drop_last();
    let u = swapped(s, 0, last);
    lemma_swapped_permutes(s, 0, last);
    vstd::seq_lib::to_multiset_remove(u, last);
    assert(u.remove(last) =~= t);
    lemma_sift_down_permutes(t, kind, 0);
}

/// Removing the root of a heap gives a heap.
pub proof fn lemma_removed_is_heap<T: Ord>(s: Seq<T>, kind: HeapType)
    requires
        total_order::<T>(),
        heap_property(s, kind),
    ensures
        heap_property(removed(s, kind), kind),
{
    if s.len() > 1 {
        let t = s.update(0, s.last()).drop_last();
        assert(heap_but_below(t, kind, 0));
        lemma_sift_down_restores(t, kind, 0);
    }
}

} // verus!

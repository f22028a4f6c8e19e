//! The binary tree that a flat sequence encodes, and the heap property on it.

use super::order::{in_order, lemma_in_order_reflexive, lemma_in_order_transitive, total_order};
use super::HeapType;
use vstd::prelude::*;

verus! {

/// The position of the parent of position `i`; the root, position 0, has none.
pub open spec fn parent_index(i: int) -> int {
    (i - 1) / 2
}

/// The position of the left child of position `i`.
pub open spec fn left_index(i: int) -> int {
    2 * i + 1
}

/// The position of the right child of position `i`.
pub open spec fn right_index(i: int) -> int {
    2 * i + 2
}

/// The heap property: every element but the root has a parent that may stand
/// above it.
pub open spec fn heap_property<T: Ord>(s: Seq<T>, kind: HeapType) -> bool {
    forall|i: int| 0 < i < s.len() ==> in_order(kind, s[#[trigger] parent_index(i)], s[i])
}

/// The two children of a position have that position as their parent, and a
/// position below the root is one of the two children of its parent.
pub proof fn lemma_children_and_parent(i: int)
    requires
        0 <= i,
    ensures
        parent_index(left_index(i)) == i,
        parent_index(right_index(i)) == i,
        i < left_index(i) < right_index(i),
        0 < i ==> 0 <= parent_index(i) < i,
        0 < i ==> left_index(parent_index(i)) == i || right_index(parent_index(i)) == i,
{
}

/// In a heap the root may stand above every element.
pub proof fn lemma_root_is_extremal<T: Ord>(s: Seq<T>, kind: HeapType, i: int)
    requires
        total_order::<T>(),
        heap_property(s, kind),
        0 <= i < s.len(),
    ensures
        in_order(kind, s[0], s[i]),
    decreases i,
{
    if i == 0 {
        lemma_in_order_reflexive(kind, s[0]);
    } else {
        let p = parent_index(i);
        lemma_root_is_extremal(s, kind, p);
        lemma_in_order_transitive(kind, s[0], s[p], s[i]);
    }
}

} // verus!

//! The heap itself: its storage, its discipline and its operations.
//!
//! A heap keeps its elements in a flat sequence that encodes a binary tree:
//! the root is at position 0, and the children of position `i` are at
//! `2 * i + 1` and `2 * i + 2`. Contracts speak of that sequence as
//! [`Heap::storage`], and of the elements without their order as the view `@`,
//! a multiset.

pub mod laws;
pub mod order;
pub mod sift;
pub mod tree;

use order::{dominates, in_order, lemma_operators_follow_the_order, total_order};
use sift::{
    inserted,
    lemma_inserted_is_heap,
    lemma_inserted_permutes,
    lemma_removed_is_heap,
    lemma_removed_permutes,
    preferred,
    removed,
    sift_down,
    sift_up,
    swapped,
};
use tree::{heap_property, left_index, lemma_root_is_extremal, parent_index, right_index};
use vstd::multiset::Multiset;
use vstd::prelude::*;

verus! {

/// The discipline of a heap: which element stands at the root.
pub enum HeapType {
    /// The smallest element is at the root.
    Min,
    /// The largest element is at the root.
    Max,
}

/// A binary heap stored in a flat sequence.
pub struct Heap<T> where T: Ord + PartialOrd + Eq + PartialEq {
    data: Vec<T>,
    h_type: HeapType,
}

impl<T: Ord + Copy> View for Heap<T> {
    type V = Multiset<T>;

    /// The elements that the heap holds, each as often as it was inserted and
    /// not yet removed.
    open spec fn view(&self) -> Multiset<T> {
        self.storage().to_multiset()
    }
}

impl<T: Ord + Copy> Heap<T> {
    /// The stored elements in their positions, root first.
    pub closed spec fn storage(&self) -> Seq<T> {
        self.data@
    }

    /// The discipline chosen at construction.
    pub closed spec fn discipline(&self) -> HeapType {
        self.h_type
    }

    /// The invariant of the type: the storage has the heap property under the
    /// heap's discipline.
    pub open spec fn well_formed(&self) -> bool {
        heap_property(self.storage(), self.discipline())
    }

    /// What `peek` returns: the element at the root, if there is one.
    pub open spec fn spec_peek(&self) -> Option<&T> {
        if self.storage().len() > 0 {
            Some(&self.storage()[0])
        } else {
            None
        }
    }

    /// Creates an empty heap with the given discipline.
    pub fn new(heap: HeapType) -> (h: Self)
        ensures
            h.storage() == Seq::<T>::empty(),
            h@ == Multiset::<T>::empty(),
            h.discipline() == heap,
            h.well_formed(),
    {
        proof {
            vstd::seq_lib::to_multiset_len(Seq::<T>::empty());
            vstd::multiset::lemma_multiset_empty_len(Seq::<T>::empty().to_multiset());
        }
        Self { data: Vec::new(), h_type: heap }
    }

    /// The number of elements in the heap.
    pub fn size(&self) -> (n: usize)
        ensures
            n == self.storage().len(),
            n == self@.len(),
    {
        proof {
            vstd::seq_lib::to_multiset_len(self.storage());
        }
        self.data.len()
    }

    /// Whether the heap holds no element.
    pub fn is_empty(&self) -> (empty: bool)
        ensures
            empty <==> self.storage().len() == 0,
            empty <==> self@.len() == 0,
    {
        proof {
            vstd::seq_lib::to_multiset_len(self.storage());
        }
        self.data.is_empty()
    }

    /// The root, without removing it: `None` exactly when the heap is empty.
    /// In a well-formed heap the root may stand above every element, so it is
    /// a smallest element of a min heap and a largest of a max heap.
    #[verifier::when_used_as_spec(spec_peek)]
    pub fn peek(&self) -> (root: Option<&T>)
        ensures
            root == self.spec_peek(),
            root is None <==> self.storage().len() == 0,
            total_order::<T>() && self.well_formed() ==> forall|i: int|
                0 <= i < self.storage().len() ==> in_order(
                    self.discipline(),
                    self.storage()[0],
                    #[trigger] self.storage()[i],
                ),
    {
        proof {
            if total_order::<T>() && self.well_formed() {
                assert forall|i: int| 0 <= i < self.storage().len() implies in_order(
                    self.discipline(),
                    self.storage()[0],
                    #[trigger] self.storage()[i],
                ) by {
                    lemma_root_is_extremal(self.storage(), self.discipline(), i);
                }
            }
        }
        if self.data.len() > 0 {
            Some(&self.data[0])
        } else {
            None
        }
    }

    /// Inserts `node`: it is appended to the storage and sifted up. Returns the
    /// heap itself, so that calls can be chained.
    pub fn insert(&mut self, node: T) -> (heap: &mut Self)
        requires
            total_order::<T>(),
            old(self).well_formed(),
        ensures
            heap.discipline() == old(self).discipline(),
            heap.storage() == inserted(old(self).storage(), old(self).discipline(), node),
            heap.storage().len() == old(self).storage().len() + 1,
            heap@ == old(self)@.insert(node),
            heap.well_formed(),
            *final(self) == *final(heap),
    {
        proof {
            lemma_inserted_permutes(self.storage(), self.discipline(), node);
            lemma_inserted_is_heap(self.storage(), self.discipline(), node);
        }
        if self.is_empty() {
            self.data.push(node);
            return self;
        }
        self.data.push(node);
        self.heapify_up(node, self.size() - 1);
        self
    }

    /// Removes the root and returns it. The last element takes the root's
    /// place and is sifted down. The heap must not be empty.
    pub fn remove(&mut self) -> (root: T)
        requires
            total_order::<T>(),
            old(self).well_formed(),
            old(self).storage().len() > 0,
        ensures
            old(self).peek() == Some(&root),
            root == old(self).storage()[0],
            forall|i: int|
                0 <= i < old(self).storage().len() ==> in_order(
                    old(self).discipline(),
                    root,
                    #[trigger] old(self).storage()[i],
                ),
            final(self).discipline() == old(self).discipline(),
            final(self).storage() == removed(old(self).storage(), old(self).discipline()),
            final(self).storage().len() == old(self).storage().len() - 1,
            final(self)@ == old(self)@.remove(root),
            final(self).well_formed(),
    {
        proof {
            lemma_removed_permutes(self.storage(), self.discipline());
            lemma_removed_is_heap(self.storage(), self.discipline());
            assert forall|i: int| 0 <= i < self.storage().len() implies in_order(
                self.discipline(),
                self.storage()[0],
                #[trigger] self.storage()[i],
            ) by {
                lemma_root_is_extremal(self.storage(), self.discipline(), i);
            }
        }
        let size = self.size();
        self.swap(0, size - 1);
        let root = self.data.remove(size - 1);
        assert(self.storage() =~= old(self).storage().update(0, old(self).storage().last()).drop_last());
        if !self.is_empty() {
            self.heapify_down(0);
        }
        root
    }

    /// Whether `a` dominates `b` under the heap's discipline: `a < b` in a min
    /// heap, `a > b` in a max heap.
    fn dominates(&self, a: &T, b: &T) -> (r: bool)
        requires
            total_order::<T>(),
        ensures
            r == dominates(self.discipline(), *a, *b),
    {
        proof {
            lemma_operators_follow_the_order::<T>();
        }
        match self.h_type {
            HeapType::Min => *a < *b,
            HeapType::Max => *a > *b,
        }
    }

    /// Exchanges the elements at positions `i` and `j`.
    fn swap(&mut self, i: usize, j: usize)
        requires
            i < old(self).storage().len(),
            j < old(self).storage().len(),
        ensures
            final(self).storage() == swapped(old(self).storage(), i as int, j as int),
            final(self).discipline() == old(self).discipline(),
    {
        let a: T = self.data[i];
        let b: T = self.data[j];
        self.data[i] = b;
        self.data[j] = a;
    }

    /// Sifts the element at position `from`, which is `node`, up towards the
    /// root.
    fn heapify_up(&mut self, node: T, from: usize)
        requires
            total_order::<T>(),
            from < old(self).storage().len(),
            old(self).storage()[from as int] == node,
        ensures
            final(self).storage() == sift_up(
                old(self).storage(),
                old(self).discipline(),
                from as int,
            ),
            final(self).discipline() == old(self).discipline(),
    {
        let ghost start = self.storage();
        let ghost kind = self.discipline();
        let mut index: usize = from;
        while index > 0
            invariant
                total_order::<T>(),
                index < self.storage().len(),
                self.storage()[index as int] == node,
                self.discipline() == kind,
                sift_up(self.storage(), kind, index as int) == sift_up(start, kind, from as int),
            ensures
                self.discipline() == kind,
                self.storage() == sift_up(start, kind, from as int),
            decreases index,
        {
            let p_node: T = *self.parent(index).expect("a position below the root has a parent");
            if self.dominates(&node, &p_node) {
                self.swap(index, (index - 1) / 2);
            } else {
                break;
            }
            index = (index - 1) / 2;
        }
    }

    /// Sifts the element at position `from` down towards the leaves.
    fn heapify_down(&mut self, from: usize)
        requires
            total_order::<T>(),
        ensures
            final(self).storage() == sift_down(
                old(self).storage(),
                old(self).discipline(),
                from as int,
            ),
            final(self).discipline() == old(self).discipline(),
    {
        let ghost start = self.storage();
        let ghost kind = self.discipline();
        let size = self.size();
        let mut index: usize = from;
        while index < size / 2
            invariant
                total_order::<T>(),
                size == self.storage().len(),
                self.discipline() == kind,
                sift_down(self.storage(), kind, index as int) == sift_down(start, kind, from as int),
            ensures
                self.discipline() == kind,
                self.storage() == sift_down(start, kind, from as int),
            decreases size - index,
        {
            let mut i_node: usize = index;
            if let Some(l_child) = self.l_child(index) {
                if self.dominates(l_child, &self.data[index]) {
                    i_node = 2 * index + 1;
                }
            }
            if let Some(r_child) = self.r_child(index) {
                if self.dominates(r_child, &self.data[i_node]) {
                    i_node = 2 * index + 2;
                }
            }
            assert(i_node == preferred(self.storage(), kind, index as int));
            if i_node == index {
                break;
            }
            self.swap(index, i_node);
            index = i_node;
        }
    }

    /// The parent of the element at position `of_child`: `None` for the root
    /// and where the parent's position lies outside the storage.
    fn parent(&self, of_child: usize) -> (p: Option<&T>)
        ensures
            0 <= parent_index(of_child as int) < self.storage().len() ==> p == Some(
                &self.storage()[parent_index(of_child as int)],
            ),
            !(0 <= parent_index(of_child as int) < self.storage().len()) ==> p is None,
    {
        if of_child > 0 && (of_child - 1) / 2 < self.data.len() {
            Some(&self.data[(of_child - 1) / 2])
        } else {
            None
        }
    }

    /// The left child of the element at position `of_parent`: `None` where the
    /// child's position lies outside the storage.
    fn l_child(&self, of_parent: usize) -> (child: Option<&T>)
        ensures
            left_index(of_parent as int) < self.storage().len() ==> child == Some(
                &self.storage()[left_index(of_parent as int)],
            ),
            left_index(of_parent as int) >= self.storage().len() ==> child is None,
    {
        if of_parent < self.data.len() / 2 {
            Some(&self.data[2 * of_parent + 1])
        } else {
            None
        }
    }

    /// The right child of the element at position `of_parent`: `None` where
    /// the child's position lies outside the storage.
    fn r_child(&self, of_parent: usize) -> (child: Option<&T>)
        ensures
            right_index(of_parent as int) < self.storage().len() ==> child == Some(
                &self.storage()[right_index(of_parent as int)],
            ),
            right_index(of_parent as int) >= self.storage().len() ==> child is None,
    {
        if self.data.len() > 0 && of_parent < (self.data.len() - 1) / 2 {
            Some(&self.data[2 * of_parent + 2])
        } else {
            None
        }
    }
}

} // verus!

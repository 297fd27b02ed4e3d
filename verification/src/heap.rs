//! The heap itself: a vector read as a complete binary tree.

use crate::layout::{
    heap_ordered, lemma_root_unbeaten, lemma_swapped_permutes, lemma_without_root_permutes, root,
    swapped, unbeaten,
};
use crate::order::{beats, lawful_order, obeys_comparison, HeapKind};
use crate::sift::{
    after_insert, after_pop, lemma_after_insert_orders, lemma_after_pop_orders, sift_down,
    sift_up,
};
use vstd::prelude::*;
use vstd::seq_lib::to_multiset_build;

verus! {

/// A binary heap whose polarity is fixed when it is made.
///
/// The view of a heap is the sequence of its elements in the order of the
/// backing vector, so that contracts can say exactly where each element
/// ends up. What the methods promise comes in three layers:
///
/// * for any element type, which elements the heap holds afterwards;
/// * where `<` and `>` compute what their specification says
///   (`obeys_comparison`), the exact arrangement;
/// * where that comparison is moreover a strict weak order
///   (`lawful_order`), heap order, and that the root is the extreme element.
pub struct Heap<V: PartialOrd> {
    kind: HeapKind,
    store: Vec<V>,
}

impl<V: PartialOrd> View for Heap<V> {
    type V = Seq<V>;

    /// The elements in the order in which the backing vector holds them.
    closed spec fn view(&self) -> Seq<V> {
        self.store@
    }
}

impl<V: PartialOrd> Heap<V> {
    /// The polarity the heap was made with.
    pub closed spec fn spec_kind(&self) -> HeapKind {
        self.kind
    }

    /// The invariant of the type: for an element type with a lawful order
    /// the arrangement is in heap order. `new` establishes it and every
    /// method keeps it.
    pub open spec fn wf(&self) -> bool {
        lawful_order::<V>() ==> heap_ordered(self.kind(), self@)
    }

    /// An empty heap of the given kind.
    pub fn new(kind: HeapKind) -> (heap: Self)
        ensures
            heap.kind() == kind,
            heap@ == Seq::<V>::empty(),
            heap.wf(),
    {
        Heap { kind, store: Vec::new() }
    }

    /// The polarity the heap was made with.
    #[verifier::when_used_as_spec(spec_kind)]
    pub fn kind(&self) -> (kind: HeapKind)
        ensures
            kind == self.kind(),
    {
        self.kind
    }

    /// The backing vector, root first.
    pub fn store(&self) -> (store: &Vec<V>)
        ensures
            store@ == self@,
    {
        &self.store
    }

    /// The root, left in place: the minimum of a min-heap, the maximum of a
    /// max-heap, `None` when the heap is empty.
    pub fn peek(&mut self) -> (top: Option<&V>)
        requires
            old(self).wf(),
        ensures
            *final(self) == *old(self),
            old(self)@.len() == 0 ==> top is None,
            old(self)@.len() > 0 ==> top == Some(&old(self)@[0]),
            lawful_order::<V>() && top is Some ==> unbeaten(
                old(self).kind(),
                old(self)@,
                *top.unwrap(),
            ),
    {
        proof {
            if lawful_order::<V>() && self@.len() > 0 {
                lemma_root_unbeaten(self.kind(), self@);
            }
        }
        if self.store.len() > 0 {
            return self.store.first();
        }
        return None;
    }

    /// Adds `v` to the heap: `v` is appended and then sifted up.
    pub fn insert(&mut self, v: V)
        requires
            old(self).wf(),
        ensures
            final(self).wf(),
            final(self).kind() == old(self).kind(),
            final(self)@.len() == old(self)@.len() + 1,
            final(self)@.to_multiset() == old(self)@.to_multiset().insert(v),
            obeys_comparison::<V>() ==> final(self)@ == after_insert(
                old(self).kind(),
                old(self)@,
                v,
            ),
    {
        self.store.push(v);
        self.sift_up();
        proof {
            to_multiset_build(old(self)@, v);
            if lawful_order::<V>() {
                lemma_after_insert_orders(self.kind(), old(self)@, v);
            }
        }
    }

    /// Takes the root out and returns it: the minimum of a min-heap, the
    /// maximum of a max-heap, `None` when the heap is empty. The last element
    /// takes the root's place and is then sifted down.
    pub fn pop(&mut self) -> (top: Option<V>)
        requires
            old(self).wf(),
        ensures
            final(self).wf(),
            final(self).kind() == old(self).kind(),
            top == root(old(self)@),
            old(self)@.len() == 0 ==> *final(self) == *old(self),
            old(self)@.len() > 0 ==> final(self)@.len() == old(self)@.len() - 1,
            old(self)@.len() > 0 ==> final(self)@.to_multiset() == old(self)@.to_multiset().remove(
                old(self)@[0],
            ),
            obeys_comparison::<V>() ==> final(self)@ == after_pop(old(self).kind(), old(self)@),
            lawful_order::<V>() && top is Some ==> unbeaten(
                old(self).kind(),
                old(self)@,
                top.unwrap(),
            ),
    {
        if self.store.len() > 0 {
            let last_index: usize = self.store.len() - 1;
            self.store.swap(0, last_index);
            let result = self.store.pop();
            self.sift_down();
            proof {
                lemma_without_root_permutes(old(self)@);
                if lawful_order::<V>() {
                    lemma_root_unbeaten(self.kind(), old(self)@);
                    lemma_after_pop_orders(self.kind(), old(self)@);
                }
            }
            return result;
        }
        return None;
    }

    /// Whether the element at `i` beats the one at `j`.
    fn beats_at(&self, i: usize, j: usize) -> (b: bool)
        requires
            i < self@.len(),
            j < self@.len(),
        ensures
            obeys_comparison::<V>() ==> b == beats(self.kind(), self@[i as int], self@[j as int]),
    {
        match self.kind {
            HeapKind::MinHeap => self.store[i] < self.store[j],
            HeapKind::MaxHeap => self.store[i] > self.store[j],
        }
    }

    /// Moves the last element toward the root until it no longer beats its
    /// parent.
    fn sift_up(&mut self)
        requires
            old(self)@.len() > 0,
        ensures
            final(self).kind() == old(self).kind(),
            final(self)@.len() == old(self)@.len(),
            final(self)@.to_multiset() == old(self)@.to_multiset(),
            obeys_comparison::<V>() ==> final(self)@ == sift_up(
                old(self).kind(),
                old(self)@,
                old(self)@.len() - 1,
            ),
    {
        let mut current_idx: usize = self.store.len() - 1;
        while current_idx > 0
            invariant
                self.kind == old(self).kind,
                self.store@.len() == old(self).store@.len(),
                current_idx < self.store@.len(),
                self.store@.to_multiset() == old(self).store@.to_multiset(),
                obeys_comparison::<V>() ==> sift_up(self.kind, self.store@, current_idx as int)
                    == sift_up(self.kind, old(self).store@, old(self).store@.len() - 1),
            ensures
                self.kind == old(self).kind,
                self.store@.len() == old(self).store@.len(),
                self.store@.to_multiset() == old(self).store@.to_multiset(),
                obeys_comparison::<V>() ==> self.store@ == sift_up(
                    self.kind,
                    old(self).store@,
                    old(self).store@.len() - 1,
                ),
            decreases current_idx,
        {
            let parent: usize = (current_idx - 1) / 2;
            if !self.beats_at(current_idx, parent) {
                break ;
            }
            proof {
                lemma_swapped_permutes(self.store@, current_idx as int, parent as int);
            }
            self.store.swap(current_idx, parent);
            current_idx = parent;
        }
    }

    /// Moves the root toward the leaves until neither child beats it.
    fn sift_down(&mut self)
        ensures
            final(self).kind() == old(self).kind(),
            final(self)@.len() == old(self)@.len(),
            final(self)@.to_multiset() == old(self)@.to_multiset(),
            obeys_comparison::<V>() ==> final(self)@ == sift_down(old(self).kind(), old(self)@, 0),
    {
        let len: usize = self.store.len();
        let mut current_idx: usize = 0;
        loop
            invariant
                self.kind == old(self).kind,
                self.store@.len() == len,
                old(self).store@.len() == len,
                self.store@.to_multiset() == old(self).store@.to_multiset(),
                obeys_comparison::<V>() ==> sift_down(self.kind, self.store@, current_idx as int)
                    == sift_down(self.kind, old(self).store@, 0),
            ensures
                self.kind == old(self).kind,
                self.store@.len() == old(self).store@.len(),
                self.store@.to_multiset() == old(self).store@.to_multiset(),
                obeys_comparison::<V>() ==> self.store@ == sift_down(
                    self.kind,
                    old(self).store@,
                    0,
                ),
            decreases len - current_idx,
        {
            // From len / 2 on a position has no child; stopping here also
            // keeps the child positions within usize.
            if current_idx >= len / 2 {
                break ;
            }
            let left_child: usize = current_idx * 2 + 1;
            let right_child: usize = left_child + 1;
            let mut winner: usize = current_idx;
            if self.beats_at(left_child, winner) {
                winner = left_child;
            }
            if right_child < len && self.beats_at(right_child, winner) {
                winner = right_child;
            }
            if winner == current_idx {
                break ;
            }
            proof {
                lemma_swapped_permutes(self.store@, winner as int, current_idx as int);
                assert(swapped(self.store@, winner as int, current_idx as int) == swapped(
                    self.store@,
                    current_idx as int,
                    winner as int,
                ));
            }
            self.store.swap(winner, current_idx);
            current_idx = winner;
        }
    }
}

} // verus!

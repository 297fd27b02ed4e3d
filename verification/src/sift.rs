//! The two walks that restore heap order, as functions on sequences, and
//! what they guarantee.

use crate::layout::{
    heap_ordered, left_child, lemma_swapped_permutes, lemma_without_root_permutes, parent,
    respects_parent, right_child, swapped, without_root,
};
use crate::order::{
    beats, lemma_beats_asymmetric, lemma_beats_transitive, lemma_not_beats_transitive,
    strict_weak_order, HeapKind,
};
use vstd::prelude::*;
use vstd::seq_lib::to_multiset_build;

verus! {

/// The walk from position `i` toward the root: while the element beats its
/// parent the two change places.
pub open spec fn sift_up<V: PartialOrd>(kind: HeapKind, s: Seq<V>, i: int) -> Seq<V>
    decreases i,
{
    if 0 < i < s.len() && beats(kind, s[i], s[parent(i)]) {
        sift_up(kind, swapped(s, i, parent(i)), parent(i))
    } else {
        s
    }
}

/// Among position `i` and its children, the position whose element beats the
/// other two. The left child is considered first; ties leave things in place.
pub open spec fn winner<V: PartialOrd>(kind: HeapKind, s: Seq<V>, i: int) -> int {
    let first: int = if left_child(i) < s.len() && beats(kind, s[left_child(i)], s[i]) {
        left_child(i)
    } else {
        i
    };
    if right_child(i) < s.len() && beats(kind, s[right_child(i)], s[first]) {
        right_child(i)
    } else {
        first
    }
}

/// The walk from position `i` toward the leaves: while a child wins, the
/// element changes places with the winning child.
pub open spec fn sift_down<V: PartialOrd>(kind: HeapKind, s: Seq<V>, i: int) -> Seq<V>
    decreases s.len() - i,
{
    if 0 <= i < s.len() && winner(kind, s, i) != i {
        sift_down(kind, swapped(s, i, winner(kind, s, i)), winner(kind, s, i))
    } else {
        s
    }
}

/// The arrangement after `v` is inserted into a heap arranged as `s`: `v`
/// goes to the end and is sifted up from there.
pub open spec fn after_insert<V: PartialOrd>(kind: HeapKind, s: Seq<V>, v: V) -> Seq<V> {
    sift_up(kind, s.push(v), s.len() as int)
}

/// The arrangement after the root is taken out of a heap arranged as `s`: the
/// last element takes the root's place and is sifted down from there. An
/// empty heap stays as it is.
pub open spec fn after_pop<V: PartialOrd>(kind: HeapKind, s: Seq<V>) -> Seq<V> {
    if s.len() == 0 {
        s
    } else {
        sift_down(kind, without_root(s), 0)
    }
}

/// The element at `i` does not beat the one two levels up.
pub open spec fn respects_grandparent<V: PartialOrd>(kind: HeapKind, s: Seq<V>, i: int) -> bool {
    !beats(kind, s[i], s[parent(parent(i))])
}

/// Heap order holds everywhere except, possibly, between position `i` and
/// its parent; the children of `i` already respect that parent.
pub open spec fn ordered_but_above<V: PartialOrd>(kind: HeapKind, s: Seq<V>, i: int) -> bool {
    &&& forall|j: int| 0 < j < s.len() && j != i ==> #[trigger] respects_parent(kind, s, j)
    &&& forall|j: int|
        0 < j < s.len() && parent(j) == i && 0 < i ==> #[trigger] respects_grandparent(kind, s, j)
}

/// Heap order holds everywhere except, possibly, between position `i` and
/// its children; those children already respect the parent of `i`.
pub open spec fn ordered_but_below<V: PartialOrd>(kind: HeapKind, s: Seq<V>, i: int) -> bool {
    &&& forall|j: int| 0 < j < s.len() && parent(j) != i ==> #[trigger] respects_parent(kind, s, j)
    &&& forall|j: int|
        0 < j < s.len() && parent(j) == i && 0 < i ==> #[trigger] respects_grandparent(kind, s, j)
}

/// Sifting up rearranges: same length, same elements.
pub proof fn lemma_sift_up_permutes<V: PartialOrd>(kind: HeapKind, s: Seq<V>, i: int)
    ensures
        sift_up(kind, s, i).len() == s.len(),
        sift_up(kind, s, i).to_multiset() == s.to_multiset(),
    decreases i,
{
    if 0 < i < s.len() && beats(kind, s[i], s[parent(i)]) {
        lemma_swapped_permutes(s, i, parent(i));
        lemma_sift_up_permutes(kind, swapped(s, i, parent(i)), parent(i));
    }
}

/// Sifting down rearranges: same length, same elements.
pub proof fn lemma_sift_down_permutes<V: PartialOrd>(kind: HeapKind, s: Seq<V>, i: int)
    ensures
        sift_down(kind, s, i).len() == s.len(),
        sift_down(kind, s, i).to_multiset() == s.to_multiset(),
    decreases s.len() - i,
{
    let w: int = winner(kind, s, i);
    if 0 <= i < s.len() && w != i {
        lemma_swapped_permutes(s, i, w);
        lemma_sift_down_permutes(kind, swapped(s, i, w), w);
    }
}

/// Sifting up from the one position that may beat its parent gives a heap.
pub proof fn lemma_sift_up_orders<V: PartialOrd>(kind: HeapKind, s: Seq<V>, i: int)
    requires
        strict_weak_order::<V>(),
        ordered_but_above(kind, s, i),
    ensures
        heap_ordered(kind, sift_up(kind, s, i)),
    decreases i,
{
    if 0 < i < s.len() && beats(kind, s[i], s[parent(i)]) {
        let p: int = parent(i);
        let t = swapped(s, i, p);
        lemma_beats_asymmetric(kind, s[i], s[p]);
        assert forall|j: int| 0 < j < t.len() && j != p implies #[trigger] respects_parent(
            kind,
            t,
            j,
        ) by {
            if j == i {
                // The old parent, now under the element that beat it.
            } else if parent(j) == i {
                // A child of `i`, now under the old parent of `i`.
                assert(respects_grandparent(kind, s, j));
            } else if parent(j) == p {
                // The sibling of `i`, now under the element that beat their parent.
                assert(respects_parent(kind, s, j));
                lemma_not_beats_transitive(kind, s[j], s[p], s[i]);
            } else {
                assert(respects_parent(kind, s, j));
            }
        }
        assert forall|j: int| 0 < j < t.len() && parent(j) == p && 0 < p implies
            #[trigger] respects_grandparent(kind, t, j) by {
            assert(respects_parent(kind, s, p));
            if j != i {
                assert(respects_parent(kind, s, j));
                lemma_not_beats_transitive(kind, s[j], s[p], s[parent(p)]);
            }
        }
        lemma_sift_up_orders(kind, t, p);
    } else {
        // The element at `i` does not beat its parent, so nothing is out of order.
        assert forall|j: int| 0 < j < s.len() implies #[trigger] respects_parent(kind, s, j) by {}
    }
}

/// Sifting down from the one position that its children may beat gives a heap.
pub proof fn lemma_sift_down_orders<V: PartialOrd>(kind: HeapKind, s: Seq<V>, i: int)
    requires
        strict_weak_order::<V>(),
        ordered_but_below(kind, s, i),
        0 <= i,
    ensures
        heap_ordered(kind, sift_down(kind, s, i)),
    decreases s.len() - i,
{
    let l: int = left_child(i);
    let r: int = right_child(i);
    let w: int = winner(kind, s, i);
    if 0 <= i < s.len() && w != i {
        let t = swapped(s, i, w);
        // The winner beats the element at `i` and is not beaten by its sibling.
        if w == r && beats(kind, s[l], s[i]) {
            lemma_beats_transitive(kind, s[r], s[l], s[i]);
        }
        lemma_beats_asymmetric(kind, s[w], s[i]);
        assert forall|j: int| 0 < j < t.len() && parent(j) != w implies #[trigger] respects_parent(
            kind,
            t,
            j,
        ) by {
            if j == w {
                // The element that was at `i`, now under the winner.
            } else if j == i {
                // The winner, now under the parent of `i`.
                assert(respects_grandparent(kind, s, w));
            } else if parent(j) == i {
                // The other child of `i`, now under the winner.
                if w == l {
                } else if beats(kind, s[l], s[i]) {
                    lemma_beats_asymmetric(kind, s[r], s[l]);
                } else {
                    lemma_not_beats_transitive(kind, s[l], s[i], s[r]);
                }
            } else {
                assert(respects_parent(kind, s, j));
            }
        }
        assert forall|j: int| 0 < j < t.len() && parent(j) == w && 0 < w implies
            #[trigger] respects_grandparent(kind, t, j) by {
            assert(respects_parent(kind, s, j));
        }
        lemma_sift_down_orders(kind, t, w);
    } else {
        // No child wins, so the children of `i` respect it as well.
        assert forall|j: int| 0 < j < s.len() implies #[trigger] respects_parent(kind, s, j) by {
            if parent(j) == i {
                assert(j == l || j == r);
            }
        }
    }
}

/// Inserting keeps the elements and adds the new one.
pub proof fn lemma_after_insert_permutes<V: PartialOrd>(kind: HeapKind, s: Seq<V>, v: V)
    ensures
        after_insert(kind, s, v).len() == s.len() + 1,
        after_insert(kind, s, v).to_multiset() == s.to_multiset().insert(v),
{
    to_multiset_build(s, v);
    lemma_sift_up_permutes(kind, s.push(v), s.len() as int);
}

/// Inserting into a heap gives a heap.
pub proof fn lemma_after_insert_orders<V: PartialOrd>(kind: HeapKind, s: Seq<V>, v: V)
    requires
        strict_weak_order::<V>(),
        heap_ordered(kind, s),
    ensures
        heap_ordered(kind, after_insert(kind, s, v)),
{
    let t = s.push(v);
    assert forall|j: int| 0 < j < t.len() && j != s.len() implies #[trigger] respects_parent(
        kind,
        t,
        j,
    ) by {
        assert(respects_parent(kind, s, j));
    }
    lemma_sift_up_orders(kind, t, s.len() as int);
}

/// Popping from a non-empty heap keeps the elements but for the root.
pub proof fn lemma_after_pop_permutes<V: PartialOrd>(kind: HeapKind, s: Seq<V>)
    requires
        s.len() > 0,
    ensures
        after_pop(kind, s).len() == s.len() - 1,
        after_pop(kind, s).to_multiset() == s.to_multiset().remove(s[0]),
{
    lemma_without_root_permutes(s);
    lemma_sift_down_permutes(kind, without_root(s), 0);
}

/// Popping from a heap gives a heap.
pub proof fn lemma_after_pop_orders<V: PartialOrd>(kind: HeapKind, s: Seq<V>)
    requires
        strict_weak_order::<V>(),
        heap_ordered(kind, s),
    ensures
        heap_ordered(kind, after_pop(kind, s)),
{
    if s.len() > 0 {
        let t = without_root(s);
        assert forall|j: int| 0 < j < t.len() && parent(j) != 0 implies #[trigger] respects_parent(
            kind,
            t,
            j,
        ) by {
            assert(respects_parent(kind, s, j));
        }
        lemma_sift_down_orders(kind, t, 0);
    }
}

} // verus!

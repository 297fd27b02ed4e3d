//! The complete binary tree that a sequence encodes, and heap order on it.

use crate::order::{
    beats, lemma_beats_asymmetric, lemma_not_beats_transitive, strict_weak_order, HeapKind,
};
use vstd::prelude::*;
use vstd::seq_lib::{to_multiset_contains, to_multiset_remove, to_multiset_update};

verus! {

/// The position above `i` in the tree.
pub open spec fn parent(i: int) -> int {
    (i - 1) / 2
}

/// The position below `i` on the left.
pub open spec fn left_child(i: int) -> int {
    2 * i + 1
}

/// The position below `i` on the right.
pub open spec fn right_child(i: int) -> int {
    2 * i + 2
}

/// The sequence with the elements at `i` and `j` exchanged.
pub open spec fn swapped<V>(s: Seq<V>, i: int, j: int) -> Seq<V> {
    s.update(i, s[j]).update(j, s[i])
}

/// A non-empty sequence after its first element has changed places with the
/// last and has been cut off.
pub open spec fn without_root<V>(s: Seq<V>) -> Seq<V> {
    swapped(s, 0, s.len() - 1).drop_last()
}

/// The element at `i` does not beat the one at its parent.
pub open spec fn respects_parent<V: PartialOrd>(kind: HeapKind, s: Seq<V>, i: int) -> bool {
    !beats(kind, s[i], s[parent(i)])
}

/// Heap order: no element below the root beats its parent.
pub open spec fn heap_ordered<V: PartialOrd>(kind: HeapKind, s: Seq<V>) -> bool {
    forall|i: int| 0 < i < s.len() ==> #[trigger] respects_parent(kind, s, i)
}

/// No element of `s` beats `v`: in a min-heap `v` is a lower bound of `s`, in
/// a max-heap an upper bound.
pub open spec fn unbeaten<V: PartialOrd>(kind: HeapKind, s: Seq<V>, v: V) -> bool {
    forall|i: int| 0 <= i < s.len() ==> !beats(kind, #[trigger] s[i], v)
}

/// The element at the root, if there is one.
pub open spec fn root<V>(s: Seq<V>) -> Option<V> {
    if s.len() == 0 {
        None
    } else {
        Some(s[0])
    }
}

/// Exchanging two elements keeps the length and the elements.
pub proof fn lemma_swapped_permutes<V>(s: Seq<V>, i: int, j: int)
    requires
        0 <= i < s.len(),
        0 <= j < s.len(),
    ensures
        swapped(s, i, j).len() == s.len(),
        swapped(s, i, j).to_multiset() == s.to_multiset(),
{
    broadcast use vstd::multiset::group_multiset_axioms;

    let t = s.update(i, s[j]);
    to_multiset_update(s, i, s[j]);
    to_multiset_update(t, j, s[i]);
    to_multiset_contains(s, s[i]);
    assert(s.contains(s[i]));
    assert(swapped(s, i, j).to_multiset() =~= s.to_multiset());
}

/// Cutting the root off keeps the other elements.
pub proof fn lemma_without_root_permutes<V>(s: Seq<V>)
    requires
        s.len() > 0,
    ensures
        without_root(s).len() == s.len() - 1,
        without_root(s).to_multiset() == s.to_multiset().remove(s[0]),
{
    let last: int = s.len() - 1;
    let t = swapped(s, 0, last);
    lemma_swapped_permutes(s, 0, last);
    assert(t.drop_last() == t.remove(last));
    to_multiset_remove(t, last);
}

/// In a heap the element at `i` does not beat the root.
pub proof fn lemma_root_unbeaten_by<V: PartialOrd>(kind: HeapKind, s: Seq<V>, i: int)
    requires
        strict_weak_order::<V>(),
        heap_ordered(kind, s),
        0 <= i < s.len(),
    ensures
        !beats(kind, s[i], s[0]),
    decreases i,
{
    if i == 0 {
        if beats(kind, s[0], s[0]) {
            lemma_beats_asymmetric(kind, s[0], s[0]);
        }
    } else {
        assert(respects_parent(kind, s, i));
        lemma_root_unbeaten_by(kind, s, parent(i));
        lemma_not_beats_transitive(kind, s[i], s[parent(i)], s[0]);
    }
}

/// In a heap nothing beats the root: it is the minimum of a min-heap and the
/// maximum of a max-heap.
pub proof fn lemma_root_unbeaten<V: PartialOrd>(kind: HeapKind, s: Seq<V>)
    requires
        strict_weak_order::<V>(),
        heap_ordered(kind, s),
        s.len() > 0,
    ensures
        unbeaten(kind, s, s[0]),
{
    assert forall|i: int| 0 <= i < s.len() implies !beats(kind, #[trigger] s[i], s[0]) by {
        lemma_root_unbeaten_by(kind, s, i);
    }
}

} // verus!

//! The polarity of a heap and the comparison it induces on elements.

use vstd::prelude::*;
use vstd::std_specs::cmp::PartialOrdIs;
use vstd::std_specs::cmp::PartialOrdSpec;

verus! {

/// Which end of the order leaves the heap first.
#[derive(Clone, Copy, Debug, PartialEq, Eq, Structural)]
pub enum HeapKind {
    /// The largest element is at the root.
    MaxHeap,
    /// The smallest element is at the root.
    MinHeap,
}

/// `a` beats `b` when `a` has to sit above `b` in a heap of the given kind:
/// strictly smaller in a min-heap, strictly greater in a max-heap.
pub open spec fn beats<V: PartialOrd>(kind: HeapKind, a: V, b: V) -> bool {
    match kind {
        HeapKind::MinHeap => a.is_lt(&b),
        HeapKind::MaxHeap => a.is_gt(&b),
    }
}

/// The executable operators `<` and `>` of `V` return what `beats` says.
pub open spec fn obeys_comparison<V: PartialOrd>() -> bool {
    V::obeys_partial_cmp_spec()
}

/// `beats` is a strict weak order for either kind: nothing beats what beats
/// it, and "does not beat" is transitive. Every total order qualifies; an
/// order with stray incomparable values (a float's NaN) does not.
pub open spec fn strict_weak_order<V: PartialOrd>() -> bool {
    &&& forall|kind: HeapKind, a: V, b: V| #[trigger] beats(kind, a, b) ==> !beats(kind, b, a)
    &&& forall|kind: HeapKind, a: V, b: V, c: V|
        !#[trigger] beats(kind, a, b) && !#[trigger] beats(kind, b, c) ==> !beats(kind, a, c)
}

/// What the heap asks of its element type before it promises any order:
/// the operators compute `beats`, and `beats` is a strict weak order.
pub open spec fn lawful_order<V: PartialOrd>() -> bool {
    obeys_comparison::<V>() && strict_weak_order::<V>()
}

/// The comparison of `V` is a total order: any two values compare, `<=` is
/// transitive, and `>` and `>=` are `<` and `<=` read from the other side.
pub open spec fn total_order<V: PartialOrd>() -> bool {
    &&& forall|a: V, b: V|
        #![trigger a.partial_cmp_spec(&b)]
        a.is_le(&b) || b.is_le(&a)
    &&& forall|a: V, b: V, c: V|
        #![trigger a.partial_cmp_spec(&b), b.partial_cmp_spec(&c)]
        a.is_le(&b) && b.is_le(&c) ==> a.is_le(&c)
    &&& forall|a: V, b: V|
        #![trigger a.partial_cmp_spec(&b)]
        (a.is_lt(&b) <==> b.is_gt(&a)) && (a.is_le(&b) <==> b.is_ge(&a))
}

/// A total order is a strict weak order, for a min-heap and for a max-heap.
pub proof fn total_order_is_strict_weak<V: PartialOrd>()
    requires
        total_order::<V>(),
    ensures
        strict_weak_order::<V>(),
{
}

/// Under a total order "is not beaten by" is the familiar comparison: in a
/// min-heap `a <= b`, in a max-heap `a >= b`.
pub proof fn unbeaten_is_at_most<V: PartialOrd>(kind: HeapKind, a: V, b: V)
    requires
        total_order::<V>(),
        !beats(kind, b, a),
    ensures
        match kind {
            HeapKind::MinHeap => a.is_le(&b),
            HeapKind::MaxHeap => a.is_ge(&b),
        },
{
}

/// The built-in integer types are lawfully ordered.
pub proof fn integers_are_lawful()
    ensures
        lawful_order::<u8>(),
        lawful_order::<u16>(),
        lawful_order::<u32>(),
        lawful_order::<u64>(),
        lawful_order::<u128>(),
        lawful_order::<usize>(),
        lawful_order::<i8>(),
        lawful_order::<i16>(),
        lawful_order::<i32>(),
        lawful_order::<i64>(),
        lawful_order::<i128>(),
        lawful_order::<isize>(),
{
}

/// Nothing beats what beats it; in particular nothing beats itself.
pub proof fn lemma_beats_asymmetric<V: PartialOrd>(kind: HeapKind, a: V, b: V)
    requires
        strict_weak_order::<V>(),
        beats(kind, a, b),
    ensures
        !beats(kind, b, a),
{
}

/// If `a` does not beat `b` and `b` does not beat `c`, then `a` does not beat `c`.
pub proof fn lemma_not_beats_transitive<V: PartialOrd>(kind: HeapKind, a: V, b: V, c: V)
    requires
        strict_weak_order::<V>(),
        !beats(kind, a, b),
        !beats(kind, b, c),
    ensures
        !beats(kind, a, c),
{
}

/// If `a` beats `b` and `b` beats `c`, then `a` beats `c`.
pub proof fn lemma_beats_transitive<V: PartialOrd>(kind: HeapKind, a: V, b: V, c: V)
    requires
        strict_weak_order::<V>(),
        beats(kind, a, b),
        beats(kind, b, c),
    ensures
        beats(kind, a, c),
{
    if !beats(kind, a, c) {
        lemma_beats_asymmetric(kind, b, c);
        lemma_not_beats_transitive(kind, a, c, b);
    }
}

} // verus!

//! What holds of a heap over whole runs of calls.
//!
//! A run is modelled by the arrangement it leaves behind: `replay` for
//! inserts and pops on a new heap, `after_pops` and `popped` for a series of
//! pops on a given one. All of them are built from `after_insert` and
//! `after_pop`, the functions in which `Heap::insert` and `Heap::pop` state
//! what they do.

use crate::layout::{heap_ordered, lemma_root_unbeaten, root};
use crate::order::{beats, strict_weak_order, HeapKind};
use crate::sift::{
    after_insert, after_pop, lemma_after_insert_orders, lemma_after_insert_permutes,
    lemma_after_pop_orders, lemma_after_pop_permutes,
};
use vstd::multiset::Multiset;
use vstd::prelude::*;
use vstd::seq_lib::{to_multiset_build, to_multiset_contains};

verus! {

/// One call that changes a heap.
pub enum Call<V> {
    /// `insert` of the given value.
    Insert(V),
    /// `pop`.
    Pop,
}

/// The arrangement of a heap that was made empty and then received `calls`,
/// first to last.
pub open spec fn replay<V: PartialOrd>(kind: HeapKind, calls: Seq<Call<V>>) -> Seq<V>
    decreases calls.len(),
{
    if calls.len() == 0 {
        Seq::empty()
    } else {
        let before = replay(kind, calls.drop_last());
        match calls.last() {
            Call::Insert(v) => after_insert(kind, before, v),
            Call::Pop => after_pop(kind, before),
        }
    }
}

/// How many of `calls` are inserts.
pub open spec fn insert_count<V>(calls: Seq<Call<V>>) -> nat
    decreases calls.len(),
{
    if calls.len() == 0 {
        0
    } else if calls.last() is Insert {
        insert_count(calls.drop_last()) + 1
    } else {
        insert_count(calls.drop_last())
    }
}

/// How many of `calls` are pops.
pub open spec fn pop_count<V>(calls: Seq<Call<V>>) -> nat
    decreases calls.len(),
{
    if calls.len() == 0 {
        0
    } else if calls.last() is Pop {
        pop_count(calls.drop_last()) + 1
    } else {
        pop_count(calls.drop_last())
    }
}

/// At no point have there been more pops than inserts, so that no pop found
/// the heap empty.
pub open spec fn pops_never_outrun_inserts<V>(calls: Seq<Call<V>>) -> bool {
    forall|n: int|
        0 <= n <= calls.len() ==> pop_count(#[trigger] calls.take(n)) <= insert_count(
            calls.take(n),
        )
}

/// The arrangement after `n` pops on a heap arranged as `s`.
pub open spec fn after_pops<V: PartialOrd>(kind: HeapKind, s: Seq<V>, n: nat) -> Seq<V>
    decreases n,
{
    if n == 0 {
        s
    } else {
        after_pop(kind, after_pops(kind, s, (n - 1) as nat))
    }
}

/// The values that the first `n` pops on a heap arranged as `s` return, in
/// the order in which they come out.
pub open spec fn popped<V: PartialOrd>(kind: HeapKind, s: Seq<V>, n: nat) -> Seq<V>
    recommends
        n <= s.len(),
{
    Seq::new(n, |i: int| after_pops(kind, s, i as nat)[0])
}

/// A new heap is empty: `peek` and `pop` find no root, and `pop` leaves it
/// empty.
pub proof fn new_heap_is_empty<V: PartialOrd>(kind: HeapKind)
    ensures
        replay(kind, Seq::<Call<V>>::empty()).len() == 0,
        root(replay(kind, Seq::<Call<V>>::empty())) is None,
        after_pop(kind, replay(kind, Seq::<Call<V>>::empty())) == Seq::<V>::empty(),
{
}

/// Heap order is invariant: after any run of inserts and pops on a new heap,
/// no element below the root beats its parent.
pub proof fn heap_order_is_invariant<V: PartialOrd>(kind: HeapKind, calls: Seq<Call<V>>)
    requires
        strict_weak_order::<V>(),
    ensures
        heap_ordered(kind, replay(kind, calls)),
    decreases calls.len(),
{
    if calls.len() > 0 {
        let before = replay(kind, calls.drop_last());
        heap_order_is_invariant(kind, calls.drop_last());
        match calls.last() {
            Call::Insert(v) => lemma_after_insert_orders(kind, before, v),
            Call::Pop => lemma_after_pop_orders(kind, before),
        }
    }
}

/// Size is conserved: as long as no pop found the heap empty, the heap holds
/// as many elements as were inserted less as many as were popped.
pub proof fn size_is_inserts_less_pops<V: PartialOrd>(kind: HeapKind, calls: Seq<Call<V>>)
    requires
        pops_never_outrun_inserts(calls),
    ensures
        replay(kind, calls).len() == insert_count(calls) - pop_count(calls),
    decreases calls.len(),
{
    if calls.len() > 0 {
        let earlier = calls.drop_last();
        let before = replay(kind, earlier);
        assert forall|n: int| 0 <= n <= earlier.len() implies pop_count(
            #[trigger] earlier.take(n),
        ) <= insert_count(earlier.take(n)) by {
            assert(earlier.take(n) == calls.take(n));
        }
        size_is_inserts_less_pops(kind, earlier);
        assert(calls.take(calls.len() as int) == calls);
        match calls.last() {
            Call::Insert(v) => lemma_after_insert_permutes(kind, before, v),
            Call::Pop => lemma_after_pop_permutes(kind, before),
        }
    }
}

/// Each pop takes one element until none is left; from then on the heap
/// stays empty and a pop finds no root.
pub proof fn pops_exhaust_the_heap<V: PartialOrd>(kind: HeapKind, s: Seq<V>, n: nat)
    ensures
        n <= s.len() ==> after_pops(kind, s, n).len() == s.len() - n,
        n < s.len() ==> root(after_pops(kind, s, n)) == Some(popped(kind, s, s.len())[n as int]),
        n >= s.len() ==> after_pops(kind, s, n).len() == 0,
        n >= s.len() ==> root(after_pops(kind, s, n)) is None,
    decreases n,
{
    if n > 0 {
        let before = after_pops(kind, s, (n - 1) as nat);
        pops_exhaust_the_heap(kind, s, (n - 1) as nat);
        if before.len() > 0 {
            lemma_after_pop_permutes(kind, before);
        }
    }
}

/// What the pops return is what the heap held: after `n` pops the values
/// that came out and the values still inside are the elements of `s`.
pub proof fn pops_return_the_elements<V: PartialOrd>(kind: HeapKind, s: Seq<V>, n: nat)
    requires
        n <= s.len(),
    ensures
        popped(kind, s, n).to_multiset().add(after_pops(kind, s, n).to_multiset())
            == s.to_multiset(),
        n == s.len() ==> popped(kind, s, n).to_multiset() == s.to_multiset(),
    decreases n,
{
    broadcast use vstd::multiset::group_multiset_axioms;

    if n > 0 {
        let m: nat = (n - 1) as nat;
        let before = after_pops(kind, s, m);
        pops_return_the_elements(kind, s, m);
        pops_exhaust_the_heap(kind, s, m);
        lemma_after_pop_permutes(kind, before);
        assert(popped(kind, s, n) == popped(kind, s, m).push(before[0]));
        to_multiset_build(popped(kind, s, m), before[0]);
        to_multiset_contains(before, before[0]);
        assert(before.contains(before[0]));
        assert(popped(kind, s, n).to_multiset().add(after_pops(kind, s, n).to_multiset())
            =~= popped(kind, s, m).to_multiset().add(before.to_multiset()));
    } else {
        lemma_empty_has_no_elements(popped(kind, s, 0));
        assert(popped(kind, s, 0).to_multiset().add(s.to_multiset()) =~= s.to_multiset());
    }
    if n == s.len() {
        pops_exhaust_the_heap(kind, s, n);
        lemma_empty_has_no_elements(after_pops(kind, s, n));
        assert(popped(kind, s, n).to_multiset().add(after_pops(kind, s, n).to_multiset())
            =~= popped(kind, s, n).to_multiset());
    }
}

/// Pops come out in order: what a later pop returns never beats what an
/// earlier pop returned. A min-heap thus yields its elements in
/// non-decreasing order, a max-heap in non-increasing order (under a total
/// order `unbeaten_is_at_most` turns "does not beat" into `<=` and
/// `>=`). The heap order asked of `s` holds of every heap that calls have
/// built, by `heap_order_is_invariant`.
pub proof fn pops_come_out_in_order<V: PartialOrd>(kind: HeapKind, s: Seq<V>, i: int, j: int)
    requires
        strict_weak_order::<V>(),
        heap_ordered(kind, s),
        0 <= i <= j < s.len(),
    ensures
        !beats(kind, popped(kind, s, s.len())[j], popped(kind, s, s.len())[i]),
{
    let earlier = after_pops(kind, s, i as nat);
    let later = after_pops(kind, s, j as nat);
    pops_exhaust_the_heap(kind, s, i as nat);
    pops_exhaust_the_heap(kind, s, j as nat);
    assert(later.contains(later[0]));
    lemma_after_pops_shrinks(kind, s, i as nat, j as nat, later[0]);
    let m: int = choose|m: int| 0 <= m < earlier.len() && earlier[m] == later[0];
    lemma_after_pops_orders(kind, s, i as nat);
    lemma_root_unbeaten(kind, earlier);
    assert(!beats(kind, earlier[m], earlier[0]));
}

/// A sequence without elements makes the empty multiset.
proof fn lemma_empty_has_no_elements<V>(s: Seq<V>)
    requires
        s.len() == 0,
    ensures
        s.to_multiset() == Multiset::<V>::empty(),
{
    broadcast use vstd::multiset::group_multiset_axioms;

    assert forall|v: V| s.to_multiset().count(v) == 0 by {
        to_multiset_contains(s, v);
    }
    assert(s.to_multiset() =~= Multiset::<V>::empty());
}

/// Popping keeps a heap a heap, however often.
proof fn lemma_after_pops_orders<V: PartialOrd>(kind: HeapKind, s: Seq<V>, n: nat)
    requires
        strict_weak_order::<V>(),
        heap_ordered(kind, s),
    ensures
        heap_ordered(kind, after_pops(kind, s, n)),
    decreases n,
{
    if n > 0 {
        lemma_after_pops_orders(kind, s, (n - 1) as nat);
        lemma_after_pop_orders(kind, after_pops(kind, s, (n - 1) as nat));
    }
}

/// What is in the heap after `j` pops was in it after `i <= j` pops.
proof fn lemma_after_pops_shrinks<V: PartialOrd>(kind: HeapKind, s: Seq<V>, i: nat, j: nat, v: V)
    requires
        i <= j,
        after_pops(kind, s, j).contains(v),
    ensures
        after_pops(kind, s, i).contains(v),
    decreases j,
{
    broadcast use vstd::multiset::group_multiset_axioms;

    if i < j {
        let before = after_pops(kind, s, (j - 1) as nat);
        if before.len() > 0 {
            lemma_after_pop_permutes(kind, before);
            to_multiset_contains(after_pop(kind, before), v);
            to_multiset_contains(before, v);
        }
        lemma_after_pops_shrinks(kind, s, i, (j - 1) as nat, v);
    }
}

} // verus!

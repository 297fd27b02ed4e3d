//! A binary heap over a growable vector, usable as a min-heap or a max-heap.
//!
//! A [`Heap`] is made with a [`HeapKind`] that never changes afterwards. Its
//! view is the sequence of its elements as the backing vector holds them,
//! read as a complete binary tree: the children of position `i` are at
//! `2 * i + 1` and `2 * i + 2`.
//!
//! * [`order`] says when one element beats another and what the heap asks of
//!   an element type.
//! * [`layout`] defines the tree positions and heap order.
//! * [`sift`] defines the two rebalancing walks on sequences and proves that
//!   they permute the elements and restore heap order.
//! * [`heap`] holds the executable heap, whose contracts are stated over the
//!   functions of `sift`.
//! * [`laws`] proves what holds over whole runs of calls.
//! * [`std_specs`] holds the one assumption made of the standard library.

pub mod heap;
pub mod laws;
pub mod layout;
pub mod order;
pub mod sift;
pub mod std_specs;

pub use heap::Heap;
pub use order::HeapKind;

use heap::Heap;
use heap::HeapKind;
use heap::HeapKind::{MaxHeap, MinHeap};
use rand::RngCore;

/// A value ordered by its key alone; the tag tells equal keys apart.
#[derive(Debug, Clone, Copy)]
struct Keyed {
    key: u32,
    tag: char,
}

impl PartialEq for Keyed {
    fn eq(&self, other: &Self) -> bool {
        self.key == other.key
    }
}

impl PartialOrd for Keyed {
    fn partial_cmp(&self, other: &Self) -> Option<std::cmp::Ordering> {
        self.key.partial_cmp(&other.key)
    }
}

fn filled(kind: HeapKind, values: &[i64]) -> Heap<i64> {
    let mut heap = Heap::new(kind);
    for v in values {
        heap.insert(*v);
    }
    heap
}

fn drained(heap: &mut Heap<i64>) -> Vec<i64> {
    let mut out = Vec::new();
    while let Some(v) = heap.pop() {
        out.push(v);
    }
    out
}

fn in_heap_order(kind: HeapKind, store: &[i64]) -> bool {
    (1..store.len()).all(|i| {
        let parent = store[(i - 1) / 2];
        match kind {
            MinHeap => parent <= store[i],
            MaxHeap => parent >= store[i],
        }
    })
}

#[test]
fn new_heap_has_empty_store() {
    let heap: Heap<i64> = Heap::new(MinHeap);
    assert!(heap.store().is_empty());
    let heap: Heap<i64> = Heap::new(MaxHeap);
    assert!(heap.store().is_empty());
}

#[test]
fn empty_heap_yields_nothing() {
    for kind in [MinHeap, MaxHeap] {
        let mut heap: Heap<i64> = Heap::new(kind);
        assert_eq!(heap.peek(), None);
        assert_eq!(heap.pop(), None);
        assert_eq!(heap.peek(), None);
        assert_eq!(heap.pop(), None);
        assert!(heap.store().is_empty());
        assert!(heap.kind() == kind);
    }
}

#[test]
fn single_element_round_trip() {
    let mut heap: Heap<i64> = Heap::new(MaxHeap);
    heap.insert(-7);
    assert_eq!(*heap.store(), vec![-7]);
    assert_eq!(heap.peek(), Some(&-7));
    assert_eq!(heap.pop(), Some(-7));
    assert!(heap.store().is_empty());
    assert_eq!(heap.pop(), None);
}

#[test]
fn peek_is_idempotent() {
    let mut heap = filled(MinHeap, &[4, 2, 9]);
    let before = heap.store().clone();
    assert_eq!(heap.peek(), Some(&2));
    assert_eq!(heap.peek(), Some(&2));
    assert_eq!(heap.peek(), Some(&2));
    assert_eq!(*heap.store(), before);
    assert_eq!(heap.store().len(), 3);

    let mut heap = filled(MaxHeap, &[4, 2, 9]);
    assert_eq!(heap.peek(), Some(&9));
    assert_eq!(heap.peek(), Some(&9));
    assert_eq!(*heap.store(), vec![9, 2, 4]);
}

#[test]
fn peek_shows_what_pop_returns() {
    let mut heap = filled(MinHeap, &[8, 3, 5, 1]);
    while heap.store().len() > 0 {
        let seen = *heap.peek().unwrap();
        assert_eq!(heap.pop(), Some(seen));
    }
    assert_eq!(heap.peek(), None);
}

#[test]
fn min_heap_arrangement_of_ten() {
    let heap = filled(MinHeap, &[9, 4, 7, 1, 8, 2, 6, 3, 5, 0]);
    assert_eq!(*heap.store(), vec![0, 1, 2, 4, 3, 7, 6, 9, 5, 8]);
}

#[test]
fn max_heap_arrangement_of_ten() {
    let heap = filled(MaxHeap, &[9, 4, 7, 1, 8, 2, 6, 3, 5, 0]);
    assert_eq!(*heap.store(), vec![9, 8, 7, 5, 4, 2, 6, 1, 3, 0]);
}

#[test]
fn min_heap_arrangement_after_each_pop() {
    let mut heap = filled(MinHeap, &[9, 4, 7, 1, 8, 2, 6, 3, 5, 0]);
    assert_eq!(heap.pop(), Some(0));
    assert_eq!(*heap.store(), vec![1, 3, 2, 4, 8, 7, 6, 9, 5]);
    assert_eq!(heap.pop(), Some(1));
    assert_eq!(*heap.store(), vec![2, 3, 5, 4, 8, 7, 6, 9]);
    assert_eq!(heap.pop(), Some(2));
    assert_eq!(*heap.store(), vec![3, 4, 5, 9, 8, 7, 6]);
    assert_eq!(heap.pop(), Some(3));
    assert_eq!(*heap.store(), vec![4, 6, 5, 9, 8, 7]);
}

#[test]
fn max_heap_arrangement_after_each_pop() {
    let mut heap = filled(MaxHeap, &[9, 4, 7, 1, 8, 2, 6, 3, 5, 0]);
    assert_eq!(heap.pop(), Some(9));
    assert_eq!(*heap.store(), vec![8, 5, 7, 3, 4, 2, 6, 1, 0]);
    assert_eq!(heap.pop(), Some(8));
    assert_eq!(*heap.store(), vec![7, 5, 6, 3, 4, 2, 0, 1]);
    assert_eq!(heap.pop(), Some(7));
    assert_eq!(*heap.store(), vec![6, 5, 2, 3, 4, 1, 0]);
    assert_eq!(heap.pop(), Some(6));
    assert_eq!(*heap.store(), vec![5, 4, 2, 3, 0, 1]);
}

#[test]
fn sift_up_stops_below_the_root() {
    // 3 climbs past 5 and stops under 1.
    let heap = filled(MinHeap, &[1, 5, 2, 3]);
    assert_eq!(*heap.store(), vec![1, 3, 2, 5]);
    // 0 climbs all the way.
    let heap = filled(MinHeap, &[1, 5, 2, 3, 0]);
    assert_eq!(*heap.store(), vec![0, 1, 2, 5, 3]);
    // 6 does not move at all.
    let heap = filled(MinHeap, &[1, 5, 2, 6]);
    assert_eq!(*heap.store(), vec![1, 5, 2, 6]);
}

#[test]
fn sift_down_picks_the_winning_child() {
    // The right child wins over the left one.
    let mut heap = filled(MinHeap, &[1, 4, 2, 9]);
    assert_eq!(heap.pop(), Some(1));
    assert_eq!(*heap.store(), vec![2, 4, 9]);
    // The left child wins; the walk goes on one level down.
    let mut heap = filled(MaxHeap, &[9, 8, 3, 7, 6, 1]);
    assert_eq!(heap.pop(), Some(9));
    assert_eq!(*heap.store(), vec![8, 7, 3, 1, 6]);
    // A lone left child.
    let mut heap = filled(MinHeap, &[1, 2, 3]);
    assert_eq!(heap.pop(), Some(1));
    assert_eq!(*heap.store(), vec![2, 3]);
    assert_eq!(heap.pop(), Some(2));
    assert_eq!(*heap.store(), vec![3]);
}

#[test]
fn duplicates_are_kept() {
    let mut heap = filled(MinHeap, &[3, 1, 3, 1, 2, 2]);
    assert_eq!(*heap.store(), vec![1, 1, 2, 3, 2, 3]);
    assert_eq!(heap.pop(), Some(1));
    assert_eq!(*heap.store(), vec![1, 2, 2, 3, 3]);
    assert_eq!(drained(&mut heap), vec![1, 2, 2, 3, 3]);

    let mut heap = filled(MaxHeap, &[3, 1, 3, 1, 2, 2]);
    assert_eq!(*heap.store(), vec![3, 2, 3, 1, 1, 2]);
    assert_eq!(heap.pop(), Some(3));
    assert_eq!(*heap.store(), vec![3, 2, 2, 1, 1]);
    assert_eq!(drained(&mut heap), vec![3, 2, 2, 1, 1]);
}

#[test]
fn equal_keys_do_not_change_places() {
    for kind in [MinHeap, MaxHeap] {
        let mut heap: Heap<Keyed> = Heap::new(kind);
        heap.insert(Keyed { key: 1, tag: 'a' });
        heap.insert(Keyed { key: 1, tag: 'b' });
        heap.insert(Keyed { key: 1, tag: 'c' });
        let tags: Vec<char> = heap.store().iter().map(|k| k.tag).collect();
        assert_eq!(tags, vec!['a', 'b', 'c']);

        // The last element takes the root's place and stays there.
        assert_eq!(heap.pop().unwrap().tag, 'a');
        let tags: Vec<char> = heap.store().iter().map(|k| k.tag).collect();
        assert_eq!(tags, vec!['c', 'b']);
        assert_eq!(heap.pop().unwrap().tag, 'c');
        assert_eq!(heap.pop().unwrap().tag, 'b');
        assert!(heap.pop().is_none());
    }
}

#[test]
fn heap_order_holds_after_every_call() {
    for kind in [MinHeap, MaxHeap] {
        let mut heap: Heap<i64> = Heap::new(kind);
        let values = [5, -3, 12, 0, 7, 7, -8, 4, 1, 30, -1, 2];
        for (n, v) in values.iter().enumerate() {
            heap.insert(*v);
            assert!(in_heap_order(kind, heap.store()));
            if n % 3 == 2 {
                heap.pop();
                assert!(in_heap_order(kind, heap.store()));
            }
        }
        while heap.pop().is_some() {
            assert!(in_heap_order(kind, heap.store()));
        }
    }
}

#[test]
fn min_heap_pops_ascend() {
    let mut heap = filled(MinHeap, &[9, 4, 7, 1, 8, 2, 6, 3, 5, 0]);
    assert_eq!(drained(&mut heap), vec![0, 1, 2, 3, 4, 5, 6, 7, 8, 9]);
    assert_eq!(heap.pop(), None);
}

#[test]
fn max_heap_pops_descend() {
    let mut heap = filled(MaxHeap, &[9, 4, 7, 1, 8, 2, 6, 3, 5, 0]);
    assert_eq!(drained(&mut heap), vec![9, 8, 7, 6, 5, 4, 3, 2, 1, 0]);
    assert_eq!(heap.pop(), None);
}

#[test]
fn size_is_inserts_less_pops() {
    let mut heap: Heap<i64> = Heap::new(MinHeap);
    for v in 0..7 {
        heap.insert(10 - v);
    }
    assert_eq!(heap.store().len(), 7);
    for _ in 0..3 {
        assert!(heap.pop().is_some());
    }
    assert_eq!(heap.store().len(), 4);
    heap.insert(100);
    assert_eq!(heap.store().len(), 5);
    for _ in 0..5 {
        assert!(heap.pop().is_some());
    }
    assert_eq!(heap.store().len(), 0);
    assert_eq!(heap.pop(), None);
}

#[test]
fn pop_on_empty_does_not_count() {
    let mut heap: Heap<i64> = Heap::new(MaxHeap);
    assert_eq!(heap.pop(), None);
    heap.insert(1);
    assert_eq!(heap.store().len(), 1);
    assert_eq!(heap.pop(), Some(1));
    assert_eq!(heap.pop(), None);
}

#[test]
fn kind_never_changes() {
    let mut heap = filled(MaxHeap, &[1, 2, 3]);
    assert!(heap.kind() == MaxHeap);
    heap.pop();
    heap.peek();
    heap.insert(9);
    assert!(heap.kind() == MaxHeap);
}

#[test]
fn extreme_values_are_ordered() {
    let mut heap = filled(MinHeap, &[i64::MAX, 0, i64::MIN, -1, 1]);
    assert_eq!(drained(&mut heap), vec![i64::MIN, -1, 0, 1, i64::MAX]);
}

#[test]
fn floats_without_nan_are_ordered() {
    let mut heap: Heap<f64> = Heap::new(MinHeap);
    for v in [2.5, -1.0, 3.25, 0.0] {
        heap.insert(v);
    }
    assert_eq!(heap.pop(), Some(-1.0));
    assert_eq!(heap.pop(), Some(0.0));
    assert_eq!(heap.pop(), Some(2.5));
    assert_eq!(heap.pop(), Some(3.25));
    assert_eq!(heap.pop(), None);
}

#[test]
fn incomparable_values_are_not_lost() {
    let mut heap: Heap<f64> = Heap::new(MinHeap);
    heap.insert(1.0);
    heap.insert(f64::NAN);
    heap.insert(0.5);
    assert_eq!(heap.store().len(), 3);
    assert_eq!(heap.store()[0], 0.5);
    assert!(heap.store()[1].is_nan());
    assert_eq!(heap.store()[2], 1.0);

    assert_eq!(heap.pop(), Some(0.5));
    assert_eq!(heap.pop(), Some(1.0));
    assert!(heap.pop().unwrap().is_nan());
    assert_eq!(heap.pop(), None);
}

#[test]
fn strings_are_ordered() {
    let mut heap: Heap<String> = Heap::new(MaxHeap);
    for word in ["pear", "apple", "quince", "fig"] {
        heap.insert(word.to_string());
    }
    assert_eq!(heap.peek().map(|s| s.as_str()), Some("quince"));
    assert_eq!(heap.pop().as_deref(), Some("quince"));
    assert_eq!(heap.pop().as_deref(), Some("pear"));
    assert_eq!(heap.pop().as_deref(), Some("fig"));
    assert_eq!(heap.pop().as_deref(), Some("apple"));
    assert_eq!(heap.pop(), None);
}

#[test]
fn random_values_come_out_sorted() {
    let mut rng = rand::thread_rng();
    let values: Vec<u32> = (0..10_000).map(|_| rng.next_u32() % 1000).collect();

    let mut ascending = values.clone();
    ascending.sort();
    let mut heap: Heap<u32> = Heap::new(MinHeap);
    for v in &values {
        heap.insert(*v);
    }
    let mut out = Vec::new();
    while let Some(v) = heap.pop() {
        out.push(v);
    }
    assert_eq!(out, ascending);

    let mut descending = ascending.clone();
    descending.reverse();
    let mut heap: Heap<u32> = Heap::new(MaxHeap);
    for v in &values {
        heap.insert(*v);
    }
    let mut out = Vec::new();
    while let Some(v) = heap.pop() {
        out.push(v);
    }
    assert_eq!(out, descending);
}

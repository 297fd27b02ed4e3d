use heap::Heap;
use heap::HeapKind::{MaxHeap, MinHeap};
use rand::RngCore;

#[test]
fn heap_new() {
    let min_heap: Heap<i64> = Heap::new(MinHeap);
    assert!(min_heap.kind() == MinHeap);

    let max_heap: Heap<i64> = Heap::new(MaxHeap);
    assert!(max_heap.kind() == MaxHeap);
}

#[test]
fn heap_insert() {
    let mut min_heap: Heap<i64> = Heap::new(MinHeap);
    min_heap.insert(1);
    min_heap.insert(5);
    min_heap.insert(2);
    min_heap.insert(3);

    assert!(*min_heap.store() == vec![1, 3, 2, 5]);

    let mut max_heap: Heap<i64> = Heap::new(MaxHeap);
    max_heap.insert(1);
    max_heap.insert(5);
    max_heap.insert(2);
    max_heap.insert(3);

    assert!(*max_heap.store() == vec![5, 3, 2, 1]);
}

#[test]
fn heap_pop() {
    let mut min_heap: Heap<i64> = Heap::new(MinHeap);
    min_heap.insert(1);
    min_heap.insert(5);
    min_heap.insert(2);
    min_heap.insert(3);

    assert_eq!(min_heap.pop().unwrap(), 1);
    assert_eq!(min_heap.pop().unwrap(), 2);
    assert_eq!(min_heap.pop().unwrap(), 3);
    assert_eq!(min_heap.pop().unwrap(), 5);
    assert!(min_heap.pop() == None);

    let mut max_heap: Heap<i64> = Heap::new(MaxHeap);
    max_heap.insert(1);
    max_heap.insert(5);
    max_heap.insert(2);
    max_heap.insert(3);

    assert_eq!(max_heap.pop().unwrap(), 5);
    assert_eq!(max_heap.pop().unwrap(), 3);
    assert_eq!(max_heap.pop().unwrap(), 2);
    assert_eq!(max_heap.pop().unwrap(), 1);
    assert!(max_heap.pop() == None);
}

#[test]
fn random_pop() {
    let mut min_heap = Heap::new(MinHeap);
    let mut r = rand::thread_rng();
    for _ in 1..10000 {
        min_heap.insert(r.next_u32());
    }

    let mut prev = min_heap.pop().unwrap();
    for _ in 1..9999 {
        let current = min_heap.pop();
        assert!(current != None);
        assert!(current.unwrap() >= prev);
        prev = current.unwrap();
    }

    let mut max_heap = Heap::new(MaxHeap);
    let mut r = rand::thread_rng();
    for _ in 1..10000 {
        max_heap.insert(r.next_u32());
    }

    let mut prev = max_heap.pop().unwrap();
    for _ in 1..9999 {
        let current = max_heap.pop();
        assert!(current != None);
        assert!(current.unwrap() <= prev);
        prev = current.unwrap();
    }
}

//! The vector queue and packet helpers around it.

use lxr::address::{Address, ObjectReference};
use lxr::closure::EdgeIterator;
use lxr::queue::{VectorQueue, BUFFER_CAPACITY};
use lxr::rcwork::ObjectLayout;

#[test]
fn queue_basics() {
    let mut q: VectorQueue<usize> = VectorQueue::new();
    assert!(q.is_empty());
    assert!(!q.is_full());
    q.push(4);
    q.push(9);
    assert_eq!(q.len(), 2);
    let taken = q.take();
    assert_eq!(taken, vec![4, 9]);
    assert!(q.is_empty());
    q.push(7);
    let mut other = vec![1, 2, 3];
    q.swap(&mut other);
    assert_eq!(other, vec![7]);
    assert_eq!(q.clone_buffer(), vec![1, 2, 3]);
    assert_eq!(q.into_vec(), vec![1, 2, 3]);
}

#[test]
fn queue_capacity() {
    let mut q: VectorQueue<usize> = VectorQueue::new();
    for k in 0..BUFFER_CAPACITY {
        assert!(!q.is_full());
        q.push(k);
    }
    assert!(q.is_full());
    q.clear();
    assert!(q.is_empty());
}

#[test]
fn edge_iteration_reports_field_addresses() {
    let o = Address::from_usize(0x2000_0000).to_object_reference();
    let layout = ObjectLayout { start: o, size_words: 6, field_offsets: vec![2, 3, 5] };
    let edges = EdgeIterator::iterate(&layout);
    let raw: Vec<usize> = edges.iter().map(|e| e.as_usize()).collect();
    assert_eq!(
        raw,
        vec![0x2000_0000 + 16, 0x2000_0000 + 24, 0x2000_0000 + 40]
    );
    let _ = ObjectReference::null();
}

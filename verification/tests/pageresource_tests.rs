//! The block page resource: growing by chunks, worker rings, and the
//! global overflow.

use lxr::address::Address;
use lxr::pageresource::{BlockArray, BlockPageResource, BlockQueue, LOCAL_BUFFER_SIZE};
use lxr::{BLOCKS_IN_CHUNK, BYTES_IN_BLOCK, BYTES_IN_CHUNK};

const BASE: usize = 0x1000_0000;

#[test]
fn block_array_is_a_bounded_stack() {
    let mut a = BlockArray::new();
    assert!(a.is_empty());
    for k in 0..LOCAL_BUFFER_SIZE {
        assert!(a.push_relaxed(Address::from_usize(BASE + k * BYTES_IN_BLOCK)).is_ok());
    }
    assert_eq!(a.len(), LOCAL_BUFFER_SIZE);
    assert!(a.push_relaxed(Address::from_usize(BASE)).is_err());
    assert_eq!(
        a.pop(),
        Some(Address::from_usize(BASE + (LOCAL_BUFFER_SIZE - 1) * BYTES_IN_BLOCK))
    );
    assert_eq!(a.len(), LOCAL_BUFFER_SIZE - 1);
}

#[test]
fn growing_carves_one_chunk_into_blocks() {
    let mut pr = BlockPageResource::new_contiguous(
        Address::from_usize(BASE),
        2 * BYTES_IN_CHUNK,
        2,
    );
    // The first allocation grows the space: the chunk's first block
    // comes back, the rest go to the global overflow.
    let first = pr.alloc_pages_no_lock().unwrap();
    assert_eq!(first.as_usize(), BASE);
    let mut seen = 1;
    while let Some(b) = pr.alloc_pages_no_lock() {
        assert!(b.as_usize() % BYTES_IN_BLOCK == 0);
        seen += 1;
        if seen == BLOCKS_IN_CHUNK {
            break;
        }
    }
    assert_eq!(seen, BLOCKS_IN_CHUNK);
}

#[test]
fn release_and_flush_feed_the_pool() {
    let mut q = BlockQueue::new(2);
    // A released block sits in the worker ring, invisible to pop until
    // the ring is flushed.
    q.push(0, Address::from_usize(BASE));
    assert!(q.pop().is_none());
    q.flush(0);
    assert_eq!(q.pop(), Some(Address::from_usize(BASE)));
    assert!(q.pop().is_none());
    // An overflowing ring moves to the global pool by itself.
    for k in 0..LOCAL_BUFFER_SIZE + 1 {
        q.push(1, Address::from_usize(BASE + k * BYTES_IN_BLOCK));
    }
    assert!(q.pop().is_some());
    // The exhausted reservation reports nothing left.
    let mut pr = BlockPageResource::new_contiguous(Address::from_usize(BASE), 0, 1);
    assert!(pr.alloc_pages_no_lock().is_none());
}

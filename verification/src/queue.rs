//! Buffers used during tracing and by the write barriers: a vector
//! queue with a flush capacity.

use vstd::prelude::*;

verus! {

use crate::address::ObjectReference;

/// How many entries a buffer holds before its owner flushes it.
pub const BUFFER_CAPACITY: usize = 1024;

/// An object queue that tracing enqueues into.
pub trait ObjectQueue {
    /// The queued objects.
    spec fn spec_queued(&self) -> Seq<ObjectReference>;

    /// Enqueue an object.
    fn enqueue(&mut self, object: ObjectReference)
        ensures
            final(self).spec_queued() == old(self).spec_queued().push(object),
    ;
}

/// A queue backed by a vector; also the mark stack and the write
/// barrier's buffers.
pub struct VectorQueue<T> {
    buffer: Vec<T>,
}

impl<T> VectorQueue<T> {
    /// The buffered entries.
    pub closed spec fn view(&self) -> Seq<T> {
        self.buffer@
    }

    /// An empty queue.
    pub fn new() -> (r: VectorQueue<T>)
        ensures
            r@ == Seq::<T>::empty(),
    {
        VectorQueue { buffer: Vec::new() }
    }

    /// Whether the queue holds nothing.
    pub fn is_empty(&self) -> (r: bool)
        ensures
            r == (self@.len() == 0),
    {
        self.buffer.len() == 0
    }

    /// Hand out the contents and leave the queue empty.
    pub fn take(&mut self) -> (r: Vec<T>)
        ensures
            r@ == old(self)@,
            final(self)@ == Seq::<T>::empty(),
    {
        let mut out: Vec<T> = Vec::new();
        core::mem::swap(&mut out, &mut self.buffer);
        out
    }

    /// Consume the queue and return its vector.
    pub fn into_vec(self) -> (r: Vec<T>)
        ensures
            r@ == self@,
    {
        self.buffer
    }

    /// Whether the queue reached the flush capacity.
    pub fn is_full(&self) -> (r: bool)
        ensures
            r == (self@.len() >= BUFFER_CAPACITY),
    {
        self.buffer.len() >= BUFFER_CAPACITY
    }

    /// Append one entry.
    pub fn push(&mut self, v: T)
        ensures
            final(self)@ == old(self)@.push(v),
    {
        self.buffer.push(v);
    }

    /// Exchange the contents with another vector.
    pub fn swap(&mut self, new_buffer: &mut Vec<T>)
        ensures
            final(self)@ == old(new_buffer)@,
            final(new_buffer)@ == old(self)@,
    {
        core::mem::swap(&mut self.buffer, new_buffer);
    }

    /// Drop the contents.
    pub fn clear(&mut self)
        ensures
            final(self)@ == Seq::<T>::empty(),
    {
        self.buffer.clear();
    }

    /// How many entries are buffered.
    pub fn len(&self) -> (r: usize)
        ensures
            r == self@.len(),
    {
        self.buffer.len()
    }
}

impl<T: Copy> VectorQueue<T> {
    /// A copy of the contents, leaving the queue as it is.
    pub fn clone_buffer(&self) -> (r: Vec<T>)
        ensures
            r@ == self@,
    {
        let mut out: Vec<T> = Vec::new();
        let mut i: usize = 0;
        while i < self.buffer.len()
            invariant
                i <= self.buffer@.len(),
                out@ == self.buffer@.subrange(0, i as int),
            decreases self.buffer@.len() - i,
        {
            out.push(self.buffer[i]);
            proof {
                assert(out@ =~= self.buffer@.subrange(0, i + 1));
            }
            i = i + 1;
        }
        proof {
            assert(out@ =~= self.buffer@);
        }
        out
    }
}

impl ObjectQueue for VectorQueue<ObjectReference> {
    open spec fn spec_queued(&self) -> Seq<ObjectReference> {
        self@
    }

    fn enqueue(&mut self, object: ObjectReference) {
        self.push(object);
    }
}

} // verus!

//! The malloc-backed mark-sweep policy's bookkeeping: which chunks
//! have their metadata mapped, and how much of the heap budget the
//! allocator has used.

use vstd::prelude::*;

verus! {

use crate::BYTES_IN_CHUNK;
use crate::address::Address;

broadcast use crate::address::lemma_address_bounds;

/// The policy's shared bookkeeping.
pub struct MallocSpace {
    /// The heap budget in bytes.
    pub heap_size: usize,
    /// How many bytes the allocator has handed out.
    pub heap_used: usize,
    /// The chunk-start addresses whose metadata is mapped.
    pub mapped_chunks: Vec<Address>,
}

impl MallocSpace {
    /// A fresh policy with the given budget.
    pub fn new(heap_size: usize) -> (r: MallocSpace)
        ensures
            r.heap_size == heap_size,
            r.heap_used == 0,
            r.mapped_chunks@.len() == 0,
    {
        MallocSpace { heap_size, heap_used: 0, mapped_chunks: Vec::new() }
    }

    /// Whether the budget is exhausted: the trigger for a collection.
    pub fn heap_full(&self) -> (r: bool)
        ensures
            r == (self.heap_used >= self.heap_size),
    {
        self.heap_used >= self.heap_size
    }

    /// Record bytes handed out, saturating at the budget's type.
    pub fn record_alloc(&mut self, bytes: usize)
        ensures
            final(self).heap_used == (if old(self).heap_used + bytes <= usize::MAX {
                old(self).heap_used + bytes
            } else {
                usize::MAX as int
            }),
            final(self).heap_size == old(self).heap_size,
            final(self).mapped_chunks == old(self).mapped_chunks,
    {
        if bytes <= usize::MAX - self.heap_used {
            self.heap_used = self.heap_used + bytes;
        } else {
            self.heap_used = usize::MAX;
        }
    }

    /// Record that a chunk's metadata was mapped.
    pub fn map_meta_space_for_chunk(&mut self, chunk_start: Address)
        requires
            chunk_start.spec_usize() % (BYTES_IN_CHUNK as int) == 0,
        ensures
            final(self).mapped_chunks@ == old(self).mapped_chunks@.push(chunk_start),
            final(self).heap_used == old(self).heap_used,
            final(self).heap_size == old(self).heap_size,
    {
        self.mapped_chunks.push(chunk_start);
    }
}

/// Whether the metadata for an address's chunk is mapped: the chunk's
/// start is among the mapped chunks.
pub fn meta_space_mapped(space: &MallocSpace, address: Address) -> (r: bool)
    ensures
        r == (exists|i: int|
            0 <= i < space.mapped_chunks@.len() && (
            #[trigger] space.mapped_chunks@[i]).spec_usize() == address.spec_usize() / (
            BYTES_IN_CHUNK as int) * (BYTES_IN_CHUNK as int)),
{
    let chunk_start = address.align_down(BYTES_IN_CHUNK);
    let n = space.mapped_chunks.len();
    let mut i: usize = 0;
    while i < n
        invariant
            i <= n,
            n == space.mapped_chunks@.len(),
            chunk_start.spec_usize() == address.spec_usize() / (BYTES_IN_CHUNK as int) * (
            BYTES_IN_CHUNK as int),
            forall|j: int|
                0 <= j < i ==> (#[trigger] space.mapped_chunks@[j]).spec_usize()
                    != chunk_start.spec_usize(),
        decreases n - i,
    {
        if space.mapped_chunks[i].as_usize() == chunk_start.as_usize() {
            return true;
        }
        i = i + 1;
    }
    false
}

} // verus!

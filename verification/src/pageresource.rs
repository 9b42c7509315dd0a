//! The block page resource: hands out whole blocks from a contiguous
//! reservation, through lock-free worker-local rings of free blocks
//! with a global overflow pool.

use vstd::prelude::*;

verus! {

use crate::BLOCKS_IN_CHUNK;
use crate::BYTES_IN_BLOCK;
use crate::BYTES_IN_CHUNK;
use crate::address::Address;

broadcast use crate::address::lemma_address_bounds;

/// How many blocks one worker-local ring holds.
pub const LOCAL_BUFFER_SIZE: usize = 256;

/// A bounded array of free blocks with a cursor.
pub struct BlockArray {
    cursor: usize,
    data: Vec<Address>,
}

impl BlockArray {
    /// The blocks currently held.
    pub closed spec fn view(&self) -> Seq<Address> {
        self.data@.subrange(0, self.cursor as int)
    }

    /// Well-formed: the cursor stays inside the backing store, which
    /// has the fixed local-buffer capacity, and every held block is
    /// block aligned.
    pub closed spec fn wf(&self) -> bool {
        &&& self.data@.len() == LOCAL_BUFFER_SIZE
        &&& self.cursor <= LOCAL_BUFFER_SIZE
        &&& forall|i: int|
            0 <= i < self.cursor ==> (#[trigger] self.data@[i]).spec_usize() % (
            BYTES_IN_BLOCK as int) == 0
    }

    /// An empty array.
    pub fn new() -> (r: BlockArray)
        ensures
            r.wf(),
            r@ == Seq::<Address>::empty(),
    {
        let mut data: Vec<Address> = Vec::new();
        let mut i: usize = 0;
        while i < LOCAL_BUFFER_SIZE
            invariant
                i <= LOCAL_BUFFER_SIZE,
                data@.len() == i,
            decreases LOCAL_BUFFER_SIZE - i,
        {
            data.push(Address::zero());
            i = i + 1;
        }
        let r = BlockArray { cursor: 0, data };
        proof {
            assert(r@ =~= Seq::<Address>::empty());
        }
        r
    }

    /// Append a block, or give it back when the array is full.
    pub fn push_relaxed(&mut self, block: Address) -> (r: Result<(), Address>)
        requires
            old(self).wf(),
            block.spec_usize() % (BYTES_IN_BLOCK as int) == 0,
        ensures
            final(self).wf(),
            old(self)@.len() < LOCAL_BUFFER_SIZE ==> r == Ok::<(), Address>(()) && final(self)@
                == old(self)@.push(block),
            old(self)@.len() == LOCAL_BUFFER_SIZE ==> r == Err::<(), Address>(block) && final(self)@ == old(self)@,
    {
        if self.cursor < LOCAL_BUFFER_SIZE {
            let i = self.cursor;
            self.data.set(i, block);
            self.cursor = self.cursor + 1;
            proof {
                assert(final(self)@ =~= old(self)@.push(block));
            }
            Ok(())
        } else {
            Err(block)
        }
    }

    /// Take the most recently pushed block, if any.
    pub fn pop(&mut self) -> (r: Option<Address>)
        requires
            old(self).wf(),
        ensures
            final(self).wf(),
            old(self)@.len() == 0 ==> r is None && final(self)@ == old(self)@,
            old(self)@.len() > 0 ==> r == Some(old(self)@.last()) && final(self)@ == old(self)@.drop_last(),
            r is Some ==> r.unwrap().spec_usize() % (BYTES_IN_BLOCK as int) == 0,
    {
        if self.cursor > 0 {
            self.cursor = self.cursor - 1;
            let b = self.data[self.cursor];
            proof {
                assert(final(self)@ =~= old(self)@.drop_last());
            }
            Some(b)
        } else {
            None
        }
    }

    /// How many blocks are held.
    pub fn len(&self) -> (r: usize)
        requires
            self.wf(),
        ensures
            r == self@.len(),
    {
        self.cursor
    }

    /// Whether the array holds nothing.
    pub fn is_empty(&self) -> (r: bool)
        requires
            self.wf(),
        ensures
            r == (self@.len() == 0),
    {
        self.cursor == 0
    }
}

/// The free-block pool: one local ring per worker and a global
/// overflow of whole arrays, with a promoted head array served first.
pub struct BlockQueue {
    /// The global array pops are served from.
    pub head_global_freed_blocks: Option<BlockArray>,
    /// Whole arrays overflowed from the workers.
    pub global_freed_blocks: Vec<BlockArray>,
    /// One ring per worker.
    pub worker_local_freed_blocks: Vec<BlockArray>,
}

impl BlockQueue {
    /// Well-formed: every array is.
    pub open spec fn wf(&self) -> bool {
        &&& (self.head_global_freed_blocks matches Some(a) ==> a.wf())
        &&& forall|i: int|
            0 <= i < self.global_freed_blocks@.len() ==> (
            #[trigger] self.global_freed_blocks@[i]).wf()
        &&& forall|i: int|
            0 <= i < self.worker_local_freed_blocks@.len() ==> (
            #[trigger] self.worker_local_freed_blocks@[i]).wf()
    }

    /// An empty pool for `workers` workers.
    pub fn new(workers: usize) -> (r: BlockQueue)
        ensures
            r.wf(),
            r.head_global_freed_blocks is None,
            r.global_freed_blocks@.len() == 0,
            r.worker_local_freed_blocks@.len() == workers,
            forall|i: int|
                0 <= i < workers ==> (#[trigger] r.worker_local_freed_blocks@[i])@.len() == 0,
    {
        let mut locals: Vec<BlockArray> = Vec::new();
        let mut i: usize = 0;
        while i < workers
            invariant
                i <= workers,
                locals@.len() == i,
                forall|j: int| 0 <= j < i ==> (#[trigger] locals@[j]).wf(),
                forall|j: int| 0 <= j < i ==> (#[trigger] locals@[j])@.len() == 0,
            decreases workers - i,
        {
            locals.push(BlockArray::new());
            i = i + 1;
        }
        BlockQueue {
            head_global_freed_blocks: None,
            global_freed_blocks: Vec::new(),
            worker_local_freed_blocks: locals,
        }
    }

    /// Hand a whole array to the global overflow.
    pub fn add_global_array(&mut self, array: BlockArray)
        requires
            old(self).wf(),
            array.wf(),
        ensures
            final(self).wf(),
            *final(self) == (BlockQueue {
                global_freed_blocks: final(self).global_freed_blocks,
                ..*old(self)
            }),
            final(self).global_freed_blocks@ == old(self).global_freed_blocks@.push(array),
    {
        self.global_freed_blocks.push(array);
    }

    /// Return one block through a worker's local ring; a full ring is
    /// moved whole to the global overflow and a fresh ring keeps the
    /// block.
    pub fn push(&mut self, id: usize, block: Address)
        requires
            old(self).wf(),
            id < old(self).worker_local_freed_blocks@.len(),
            block.spec_usize() % (BYTES_IN_BLOCK as int) == 0,
        ensures
            final(self).wf(),
            final(self).worker_local_freed_blocks@.len() == old(self).worker_local_freed_blocks@.len(),
            final(self).head_global_freed_blocks == old(self).head_global_freed_blocks,
            old(self).worker_local_freed_blocks@[id as int]@.len() < LOCAL_BUFFER_SIZE ==> {
                &&& final(self).worker_local_freed_blocks@[id as int]@ == old(self).worker_local_freed_blocks@[id as int]@.push(block)
                &&& final(self).global_freed_blocks@ == old(self).global_freed_blocks@
            },
            old(self).worker_local_freed_blocks@[id as int]@.len() == LOCAL_BUFFER_SIZE ==> {
                &&& final(self).worker_local_freed_blocks@[id as int]@ == seq![block]
                &&& final(self).global_freed_blocks@.len() == old(self).global_freed_blocks@.len() + 1
                &&& final(self).global_freed_blocks@.last()@ == old(self).worker_local_freed_blocks@[id as int]@
            },
            forall|j: int|
                0 <= j < old(self).worker_local_freed_blocks@.len() && j != id ==> #[trigger] final(self).worker_local_freed_blocks@[j] == old(self).worker_local_freed_blocks@[j],
    {
        let local = &mut self.worker_local_freed_blocks[id];
        let pushed = local.push_relaxed(block);
        match pushed {
            Ok(()) => {},
            Err(b) => {
                let mut queue = BlockArray::new();
                let local2 = &mut self.worker_local_freed_blocks[id];
                core::mem::swap(&mut queue, local2);
                let local3 = &mut self.worker_local_freed_blocks[id];
                let second = local3.push_relaxed(b);
                proof {
                    assert(second == Ok::<(), Address>(()));
                    assert(self.worker_local_freed_blocks@[id as int]@ =~= seq![block]);
                }
                self.global_freed_blocks.push(queue);
            },
        }
    }

    /// Take one block: from the promoted head array first, else promote
    /// a global array and take its newest block. Nothing comes out when
    /// both are empty, even if worker rings still hold blocks.
    pub fn pop(&mut self) -> (r: Option<Address>)
        requires
            old(self).wf(),
        ensures
            final(self).wf(),
            final(self).worker_local_freed_blocks == old(self).worker_local_freed_blocks,
            ({
                let head_len = match old(self).head_global_freed_blocks {
                    Some(a) => a@.len(),
                    None => 0,
                };
                &&& (head_len > 0 ==> r == Some(
                    old(self).head_global_freed_blocks.unwrap()@.last(),
                ) && final(self).global_freed_blocks@ == old(self).global_freed_blocks@)
                &&& (head_len == 0 && old(self).global_freed_blocks@.len() == 0 ==> r is None
                    && final(self).global_freed_blocks@ == old(self).global_freed_blocks@)
                &&& (head_len == 0 && old(self).global_freed_blocks@.len() > 0 ==> {
                    &&& final(self).global_freed_blocks@ == old(self).global_freed_blocks@.drop_last()
                    &&& (old(self).global_freed_blocks@.last()@.len() > 0 ==> r == Some(
                        old(self).global_freed_blocks@.last()@.last(),
                    ))
                    &&& (old(self).global_freed_blocks@.last()@.len() == 0 ==> r is None)
                })
                &&& (r is Some ==> r.unwrap().spec_usize() % (BYTES_IN_BLOCK as int) == 0)
            }),
    {
        let mut popped: Option<Address> = None;
        let mut have_head = false;
        match &mut self.head_global_freed_blocks {
            Some(a) => {
                popped = a.pop();
                have_head = true;
            },
            None => {},
        }
        if popped.is_some() {
            return popped;
        }
        let taken = self.global_freed_blocks.pop();
        match taken {
            Some(mut blocks) => {
                let b = blocks.pop();
                if !blocks.is_empty() {
                    self.head_global_freed_blocks = Some(blocks);
                }
                b
            },
            None => None,
        }
    }

    /// Drain one worker's ring into the global overflow, as the end of
    /// a pause and worker shutdown do.
    pub fn flush(&mut self, id: usize)
        requires
            old(self).wf(),
            id < old(self).worker_local_freed_blocks@.len(),
        ensures
            final(self).wf(),
            final(self).worker_local_freed_blocks@.len() == old(self).worker_local_freed_blocks@.len(),
            final(self).head_global_freed_blocks == old(self).head_global_freed_blocks,
            final(self).worker_local_freed_blocks@[id as int]@.len() == 0,
            old(self).worker_local_freed_blocks@[id as int]@.len() == 0 ==> final(self).global_freed_blocks@ == old(self).global_freed_blocks@,
            old(self).worker_local_freed_blocks@[id as int]@.len() > 0 ==> {
                &&& final(self).global_freed_blocks@.len() == old(self).global_freed_blocks@.len() + 1
                &&& final(self).global_freed_blocks@.last()@ == old(self).worker_local_freed_blocks@[id as int]@
            },
            forall|j: int|
                0 <= j < old(self).worker_local_freed_blocks@.len() && j != id ==> #[trigger] final(self).worker_local_freed_blocks@[j] == old(self).worker_local_freed_blocks@[j],
    {
        let local = &self.worker_local_freed_blocks[id];
        if !local.is_empty() {
            let mut queue = BlockArray::new();
            let local2 = &mut self.worker_local_freed_blocks[id];
            core::mem::swap(&mut queue, local2);
            self.global_freed_blocks.push(queue);
        }
    }

    /// Drain every worker's ring into the global overflow.
    pub fn flush_all(&mut self)
        requires
            old(self).wf(),
        ensures
            final(self).wf(),
            final(self).worker_local_freed_blocks@.len() == old(self).worker_local_freed_blocks@.len(),
            forall|j: int|
                0 <= j < final(self).worker_local_freed_blocks@.len() ==> (#[trigger] final(self).worker_local_freed_blocks@[j])@.len() == 0,
    {
        let mut i: usize = 0;
        let n = self.worker_local_freed_blocks.len();
        while i < n
            invariant
                i <= n,
                self.wf(),
                self.worker_local_freed_blocks@.len() == n,
                forall|j: int|
                    0 <= j < i ==> (#[trigger] self.worker_local_freed_blocks@[j])@.len() == 0,
            decreases n - i,
        {
            self.flush(i);
            i = i + 1;
        }
    }
}

/// Whether the pool has nothing a pop could return: the promoted head
/// is exhausted and the global overflow offers no block.
pub open spec fn spec_pool_empty(q: BlockQueue) -> bool {
    &&& (match q.head_global_freed_blocks {
        Some(a) => a@.len() == 0,
        None => true,
    })
    &&& (q.global_freed_blocks@.len() == 0 || q.global_freed_blocks@.last()@.len() == 0)
}

/// The page resource over a contiguous reservation: free blocks come
/// from the pool, and an empty pool grows the space by one chunk.
pub struct BlockPageResource {
    /// The free-block pool.
    pub block_queue: BlockQueue,
    /// The lowest address never yet carved into blocks.
    pub highwater: Address,
    /// The end of the reservation.
    pub limit: Address,
}

impl BlockPageResource {
    /// Well-formed: the pool is, and the unmapped region is a whole
    /// number of chunks.
    pub open spec fn wf(&self) -> bool {
        &&& self.block_queue.wf()
        &&& self.highwater.spec_usize() % (BYTES_IN_CHUNK as int) == 0
        &&& self.limit.spec_usize() % (BYTES_IN_CHUNK as int) == 0
        &&& self.highwater.spec_usize() <= self.limit.spec_usize()
        &&& self.highwater.spec_usize() > 0
    }

    /// A fresh resource over the reservation `[start, start + bytes)`.
    pub fn new_contiguous(start: Address, bytes: usize, workers: usize) -> (r: BlockPageResource)
        requires
            start.spec_usize() % (BYTES_IN_CHUNK as int) == 0,
            start.spec_usize() > 0,
            bytes % BYTES_IN_CHUNK == 0,
            start.spec_usize() + bytes <= usize::MAX,
        ensures
            r.wf(),
            r.highwater.spec_usize() == start.spec_usize(),
            r.limit.spec_usize() == start.spec_usize() + bytes,
    {
        proof {
            vstd::arithmetic::div_mod::lemma_add_mod_noop(
                start.spec_usize(),
                bytes as int,
                BYTES_IN_CHUNK as int,
            );
        }
        BlockPageResource {
            block_queue: BlockQueue::new(workers),
            highwater: start,
            limit: start.add(bytes),
        }
    }

    /// Hand out one block: from the pool if it has one; otherwise grow
    /// the space by a chunk, keep its first block, and publish the rest
    /// to the global overflow. A reservation exhausted on both counts
    /// yields nothing: the plan then escalates to a collection.
    #[verifier::rlimit(100)]
    #[verifier::spinoff_prover]
    pub fn alloc_pages_no_lock(&mut self) -> (r: Option<Address>)
        requires
            old(self).wf(),
        ensures
            final(self).wf(),
            final(self).limit == old(self).limit,
            final(self).block_queue.worker_local_freed_blocks == old(self).block_queue.worker_local_freed_blocks,
            r is None ==> old(self).highwater.spec_usize() == old(self).limit.spec_usize()
                && spec_pool_empty(old(self).block_queue),
            r is Some ==> r.unwrap().spec_usize() % (BYTES_IN_BLOCK as int) == 0,
            ({
                let q0 = old(self).block_queue;
                let head_len = match q0.head_global_freed_blocks {
                    Some(a) => a@.len(),
                    None => 0,
                };
                &&& (head_len > 0 ==> {
                    &&& r == Some(q0.head_global_freed_blocks.unwrap()@.last())
                    &&& final(self).highwater == old(self).highwater
                    &&& final(self).block_queue.global_freed_blocks@ == q0.global_freed_blocks@
                })
                &&& (head_len == 0 && q0.global_freed_blocks@.len() > 0
                    && q0.global_freed_blocks@.last()@.len() > 0 ==> {
                    &&& r == Some(q0.global_freed_blocks@.last()@.last())
                    &&& final(self).highwater == old(self).highwater
                    &&& final(self).block_queue.global_freed_blocks@
                        == q0.global_freed_blocks@.drop_last()
                })
                &&& (spec_pool_empty(q0) && old(self).highwater.spec_usize() < old(self).limit.spec_usize() ==> {
                    &&& r is Some
                    &&& r.unwrap().spec_usize() == old(self).highwater.spec_usize()
                    &&& final(self).highwater.spec_usize() == old(self).highwater.spec_usize()
                        + BYTES_IN_CHUNK
                    &&& final(self).block_queue.global_freed_blocks@.len() > 0
                    &&& final(self).block_queue.global_freed_blocks@.last()@.len()
                        == BLOCKS_IN_CHUNK - 1
                    &&& (forall|j: int|
                        0 <= j < BLOCKS_IN_CHUNK - 1 ==> (#[trigger] final(self).block_queue.global_freed_blocks@.last()@[j]).spec_usize() == old(self).highwater.spec_usize() + (j + 1) * BYTES_IN_BLOCK)
                })
                &&& (spec_pool_empty(q0) && old(self).highwater.spec_usize() == old(self).limit.spec_usize() ==> r is None && *final(self) == (BlockPageResource {
                    block_queue: final(self).block_queue,
                    ..*old(self)
                }))
            }),
    {
        let popped = self.block_queue.pop();
        match popped {
            Some(block) => Some(block),
            None => {
                if self.highwater.as_usize() >= self.limit.as_usize() {
                    return None;
                }
                proof {
                    let c = BYTES_IN_CHUNK as int;
                    let d = self.limit.spec_usize() - self.highwater.spec_usize();
                    assert(d % c == 0) by {
                        vstd::arithmetic::div_mod::lemma_sub_mod_noop(
                            self.limit.spec_usize(),
                            self.highwater.spec_usize(),
                            c,
                        );
                        vstd::arithmetic::div_mod::lemma_small_mod(0nat, c as nat);
                    }
                    assert(d >= c) by {
                        vstd::arithmetic::div_mod::lemma_fundamental_div_mod(d, c);
                        vstd::arithmetic::div_mod::lemma_div_pos_is_pos(d, c);
                        if d / c >= 1 {
                            vstd::arithmetic::mul::lemma_mul_inequality(1, d / c, c);
                            vstd::arithmetic::mul::lemma_mul_is_commutative(d / c, c);
                        }
                    }
                    lemma_chunk_aligned_is_block_aligned(self.highwater.spec_usize());
                }
                let start = self.highwater;
                self.highwater = self.highwater.add(BYTES_IN_CHUNK);
                proof {
                    vstd::arithmetic::div_mod::lemma_mod_multiples_vanish(
                        1,
                        start.spec_usize(),
                        BYTES_IN_CHUNK as int,
                    );
                }
                let mut array = BlockArray::new();
                let mut k: usize = 1;
                while k < BLOCKS_IN_CHUNK
                    invariant
                        1 <= k <= BLOCKS_IN_CHUNK,
                        array.wf(),
                        array@.len() == k - 1,
                        start.spec_usize() + BYTES_IN_CHUNK <= usize::MAX,
                        start.spec_usize() % (BYTES_IN_BLOCK as int) == 0,
                        forall|j: int|
                            0 <= j < k - 1 ==> (#[trigger] array@[j]).spec_usize()
                                == start.spec_usize() + (j + 1) * BYTES_IN_BLOCK,
                    decreases BLOCKS_IN_CHUNK - k,
                {
                    proof {
                        vstd::arithmetic::div_mod::lemma_mod_multiples_vanish(
                            k as int,
                            start.spec_usize(),
                            BYTES_IN_BLOCK as int,
                        );
                        vstd::arithmetic::mul::lemma_mul_is_commutative(
                            k as int,
                            BYTES_IN_BLOCK as int,
                        );
                    }
                    let b = start.add(k * BYTES_IN_BLOCK);
                    let pushed = array.push_relaxed(b);
                    proof {
                        assert(pushed is Ok);
                    }
                    k = k + 1;
                }
                self.block_queue.add_global_array(array);
                Some(start)
            },
        }
    }

    /// Return a block's pages to the pool through a worker's ring.
    pub fn release_pages(&mut self, id: usize, first: Address)
        requires
            old(self).wf(),
            id < old(self).block_queue.worker_local_freed_blocks@.len(),
            first.spec_usize() % (BYTES_IN_BLOCK as int) == 0,
        ensures
            final(self).wf(),
            final(self).highwater == old(self).highwater,
            final(self).limit == old(self).limit,
    {
        self.block_queue.push(id, first);
    }

    /// Drain one worker's ring into the global overflow.
    pub fn flush_worker(&mut self, id: usize)
        requires
            old(self).wf(),
            id < old(self).block_queue.worker_local_freed_blocks@.len(),
        ensures
            final(self).wf(),
            final(self).block_queue.worker_local_freed_blocks@[id as int]@.len() == 0,
    {
        self.block_queue.flush(id);
    }

    /// Drain every worker's ring into the global overflow.
    pub fn flush_all(&mut self)
        requires
            old(self).wf(),
        ensures
            final(self).wf(),
            forall|j: int|
                0 <= j < final(self).block_queue.worker_local_freed_blocks@.len() ==> (
                #[trigger] final(self).block_queue.worker_local_freed_blocks@[j])@.len() == 0,
    {
        self.block_queue.flush_all();
    }
}

/// A chunk-aligned address is block aligned.
pub proof fn lemma_chunk_aligned_is_block_aligned(pos: int)
    requires
        pos >= 0,
        pos % (BYTES_IN_CHUNK as int) == 0,
    ensures
        pos % (BYTES_IN_BLOCK as int) == 0,
{
    crate::space::lemma_aligned_coarser(pos, BYTES_IN_BLOCK as int, BLOCKS_IN_CHUNK as int);
}

} // verus!

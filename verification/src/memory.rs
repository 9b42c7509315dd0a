//! The heap's words: the payload that objects occupy, addressed at
//! word granularity. Evacuation copies these words; the write barrier
//! and the increment workers read and overwrite single slots.

use vstd::prelude::*;

verus! {

use crate::address::Address;
use crate::address::ObjectReference;

broadcast use crate::address::lemma_address_bounds;

/// The words of a heap starting at `base`.
pub struct HeapMemory {
    base: Address,
    words: Vec<usize>,
}

impl HeapMemory {
    /// The heap start.
    pub closed spec fn spec_base(self) -> int {
        self.base.spec_usize()
    }

    /// The words, by index from the heap start.
    pub closed spec fn spec_words(self) -> Seq<usize> {
        self.words@
    }

    /// Well-formed: a word-aligned, non-null base and a span that fits
    /// the address space.
    pub open spec fn wf(self) -> bool {
        &&& self.spec_base() % 8 == 0
        &&& self.spec_base() > 0
        &&& self.spec_base() + self.spec_words().len() * 8 <= usize::MAX
    }

    /// The word index of a heap position.
    pub open spec fn spec_index_of(self, pos: int) -> int {
        (pos - self.spec_base()) / 8
    }

    /// Whether a position falls on a word of this heap.
    pub open spec fn in_heap(self, pos: int) -> bool {
        &&& self.spec_base() <= pos
        &&& pos < self.spec_base() + self.spec_words().len() * 8
        &&& pos % 8 == 0
    }

    /// The word at a position.
    pub open spec fn spec_at(self, pos: int) -> usize {
        self.spec_words()[self.spec_index_of(pos)]
    }

    /// An in-heap position indexes inside the word vector.
    pub proof fn lemma_in_bounds(self, pos: int)
        requires
            self.wf(),
            self.in_heap(pos),
        ensures
            0 <= self.spec_index_of(pos) < self.spec_words().len(),
    {
        crate::meta::lemma_index_bounds(pos, self.spec_base(), 8, self.spec_words().len() as int);
    }

    /// A fresh all-zero heap of `num_words` words.
    pub fn new(base: Address, num_words: usize) -> (r: HeapMemory)
        requires
            base.spec_usize() % 8 == 0,
            base.spec_usize() > 0,
            base.spec_usize() + num_words * 8 <= usize::MAX,
        ensures
            r.wf(),
            r.spec_base() == base.spec_usize(),
            r.spec_words().len() == num_words,
            forall|i: int| 0 <= i < num_words ==> r.spec_words()[i] == 0,
    {
        let mut words: Vec<usize> = Vec::new();
        let mut i: usize = 0;
        while i < num_words
            invariant
                i <= num_words,
                words@.len() == i,
                forall|j: int| 0 <= j < i ==> words@[j] == 0,
            decreases num_words - i,
        {
            words.push(0);
            i = i + 1;
        }
        HeapMemory { base, words }
    }

    /// Read the word at an address.
    pub fn load(&self, a: Address) -> (r: usize)
        requires
            self.wf(),
            self.in_heap(a.spec_usize()),
        ensures
            r == self.spec_at(a.spec_usize()),
    {
        proof {
            self.lemma_in_bounds(a.spec_usize());
        }
        let i: usize = a.get_extent(self.base) / 8;
        self.words[i]
    }

    /// Read the word at an address as an object reference.
    pub fn load_reference(&self, a: Address) -> (r: ObjectReference)
        requires
            self.wf(),
            self.in_heap(a.spec_usize()),
        ensures
            r.spec_value() == self.spec_at(a.spec_usize()),
    {
        Address::from_usize(self.load(a)).to_object_reference()
    }

    /// Write the word at an address.
    pub fn store(&mut self, a: Address, v: usize)
        requires
            old(self).wf(),
            old(self).in_heap(a.spec_usize()),
        ensures
            final(self).wf(),
            final(self).spec_base() == old(self).spec_base(),
            final(self).spec_words() == old(self).spec_words().update(
                old(self).spec_index_of(a.spec_usize()),
                v,
            ),
    {
        proof {
            self.lemma_in_bounds(a.spec_usize());
        }
        let i: usize = a.get_extent(self.base) / 8;
        self.words.set(i, v);
    }

    /// Copy `n` words from `src` to `dst`. The regions must not overlap,
    /// with the destination above the source or disjoint below it.
    pub fn copy_words(&mut self, src: Address, dst: Address, n: usize)
        requires
            old(self).wf(),
            old(self).in_heap(src.spec_usize()),
            old(self).in_heap(dst.spec_usize()),
            old(self).spec_index_of(src.spec_usize()) + n <= old(self).spec_words().len(),
            old(self).spec_index_of(dst.spec_usize()) + n <= old(self).spec_words().len(),
            old(self).spec_index_of(src.spec_usize()) + n <= old(self).spec_index_of(
                dst.spec_usize(),
            ) || old(self).spec_index_of(dst.spec_usize()) + n <= old(self).spec_index_of(
                src.spec_usize(),
            ),
        ensures
            final(self).wf(),
            final(self).spec_base() == old(self).spec_base(),
            final(self).spec_words().len() == old(self).spec_words().len(),
            forall|k: int|
                0 <= k < n ==> #[trigger] final(self).spec_words()[old(self).spec_index_of(
                    dst.spec_usize(),
                ) + k] == old(self).spec_words()[old(self).spec_index_of(src.spec_usize()) + k],
            forall|j: int|
                0 <= j < old(self).spec_words().len() && !(old(self).spec_index_of(
                    dst.spec_usize(),
                ) <= j < old(self).spec_index_of(dst.spec_usize()) + n) ==> final(self).spec_words()[j] == old(self).spec_words()[j],
    {
        proof {
            self.lemma_in_bounds(src.spec_usize());
            self.lemma_in_bounds(dst.spec_usize());
        }
        let si: usize = src.get_extent(self.base) / 8;
        let di: usize = dst.get_extent(self.base) / 8;
        let cap: usize = self.words.len();
        let mut k: usize = 0;
        while k < n
            invariant
                k <= n,
                self.words@.len() == cap,
                self.base == old(self).base,
                si == old(self).spec_index_of(src.spec_usize()),
                di == old(self).spec_index_of(dst.spec_usize()),
                si + n <= cap,
                di + n <= cap,
                si + n <= di || di + n <= si,
                forall|j: int|
                    0 <= j < k ==> #[trigger] self.words@[di + j] == old(self).spec_words()[si
                        + j],
                forall|j: int|
                    0 <= j < cap && !(di <= j < di + k) ==> self.words@[j] == old(self).spec_words()[j],
            decreases n - k,
        {
            let v = self.words[si + k];
            let idx: usize = di + k;
            self.words.set(idx, v);
            k = k + 1;
        }
    }
}

} // verus!

//! The metadata plane: side tables indexed by heap address.
//!
//! A `ByteTable` keeps one byte per `unit` bytes of heap, starting at a
//! `unit`-aligned base. Block states, line marks, defrag bytes, per-edge
//! log and lock bits and object mark bits are all instances of it at
//! different granularities.

use vstd::prelude::*;

verus! {

use crate::address::Address;

/// Indices of unit-aligned positions inside a table's span stay in bounds.
pub proof fn lemma_index_bounds(pos: int, base: int, unit: int, len: int)
    requires
        unit >= 1,
        base % unit == 0,
        pos % unit == 0,
        base <= pos,
        pos < base + len * unit,
    ensures
        0 <= (pos - base) / unit < len,
        (pos - base) % unit == 0,
        base + ((pos - base) / unit) * unit == pos,
{
    let d = pos - base;
    assert(d % unit == 0) by {
        vstd::arithmetic::div_mod::lemma_sub_mod_noop(pos, base, unit);
        vstd::arithmetic::div_mod::lemma_small_mod(0nat, unit as nat);
    }
    vstd::arithmetic::div_mod::lemma_fundamental_div_mod(d, unit);
    vstd::arithmetic::div_mod::lemma_div_is_ordered(0, d, unit);
    vstd::arithmetic::div_mod::lemma_mod_bound(d, unit);
    vstd::arithmetic::mul::lemma_mul_is_commutative(unit, d / unit);
    assert(d / unit < len) by {
        if d / unit >= len {
            vstd::arithmetic::mul::lemma_mul_inequality(len, d / unit, unit);
            vstd::arithmetic::mul::lemma_mul_is_commutative(d / unit, unit);
            assert(false);
        }
    }
}

/// The index of the position `k` units above the base is `k`.
pub proof fn lemma_index_of_multiple(base: int, unit: int, k: int)
    requires
        unit >= 1,
        k >= 0,
    ensures
        (base + k * unit - base) / unit == k,
{
    vstd::arithmetic::mul::lemma_mul_is_commutative(k, unit);
    vstd::arithmetic::div_mod::lemma_div_multiples_vanish(k, unit);
}

/// A side table holding one byte per `unit` bytes of heap.
pub struct ByteTable {
    base: Address,
    unit: usize,
    bytes: Vec<u8>,
}

impl ByteTable {
    /// The heap start this table covers.
    pub closed spec fn spec_base(self) -> int {
        self.base.spec_usize()
    }

    /// The bytes of heap that one table byte stands for.
    pub closed spec fn spec_unit(self) -> int {
        self.unit as int
    }

    /// The table contents, by unit index from the base.
    pub closed spec fn spec_bytes(self) -> Seq<u8> {
        self.bytes@
    }

    /// Well-formed: a non-null base aligned to the unit, and a span that
    /// fits in the address space.
    pub open spec fn wf(self) -> bool {
        &&& self.spec_unit() >= 1
        &&& self.spec_base() % self.spec_unit() == 0
        &&& self.spec_base() > 0
        &&& self.spec_base() + self.spec_bytes().len() * self.spec_unit() <= usize::MAX
    }

    /// The unit index of a heap position.
    pub open spec fn spec_index_of(self, pos: int) -> int {
        (pos - self.spec_base()) / self.spec_unit()
    }

    /// Whether a heap position falls on a unit of this table's span.
    pub open spec fn in_range(self, pos: int) -> bool {
        &&& self.spec_base() <= pos
        &&& pos < self.spec_base() + self.spec_bytes().len() * self.spec_unit()
        &&& pos % self.spec_unit() == 0
    }

    /// The byte recorded for a heap position.
    pub open spec fn spec_at(self, pos: int) -> u8 {
        self.spec_bytes()[self.spec_index_of(pos)]
    }

    /// An in-range position indexes inside the table.
    pub proof fn lemma_in_bounds(self, pos: int)
        requires
            self.wf(),
            self.in_range(pos),
        ensures
            0 <= self.spec_index_of(pos) < self.spec_bytes().len(),
    {
        lemma_index_bounds(
            pos,
            self.spec_base(),
            self.spec_unit(),
            self.spec_bytes().len() as int,
        );
    }

    /// A fresh all-zero table of `len` units.
    pub fn new(base: Address, unit: usize, len: usize) -> (r: ByteTable)
        requires
            unit >= 1,
            base.spec_usize() % (unit as int) == 0,
            base.spec_usize() > 0,
            base.spec_usize() + len * unit <= usize::MAX,
        ensures
            r.wf(),
            r.spec_base() == base.spec_usize(),
            r.spec_unit() == unit,
            r.spec_bytes().len() == len,
            forall|i: int| 0 <= i < len ==> r.spec_bytes()[i] == 0,
    {
        let mut bytes: Vec<u8> = Vec::new();
        let mut i: usize = 0;
        while i < len
            invariant
                i <= len,
                bytes@.len() == i,
                forall|j: int| 0 <= j < i ==> bytes@[j] == 0,
            decreases len - i,
        {
            bytes.push(0);
            i = i + 1;
        }
        ByteTable { base, unit, bytes }
    }

    /// The exec unit index of an in-range address.
    pub fn index_of(&self, a: Address) -> (r: usize)
        requires
            self.wf(),
            self.in_range(a.spec_usize()),
        ensures
            r == self.spec_index_of(a.spec_usize()),
            r < self.spec_bytes().len(),
    {
        proof {
            self.lemma_in_bounds(a.spec_usize());
        }
        a.get_extent(self.base) / self.unit
    }

    /// How many units the table covers.
    pub fn len(&self) -> (r: usize)
        ensures
            r == self.spec_bytes().len(),
    {
        self.bytes.len()
    }

    /// Read the byte at a unit index.
    pub fn load_at(&self, i: usize) -> (r: u8)
        requires
            i < self.spec_bytes().len(),
        ensures
            r == self.spec_bytes()[i as int],
    {
        self.bytes[i]
    }

    /// Read the byte for an address.
    pub fn load(&self, a: Address) -> (r: u8)
        requires
            self.wf(),
            self.in_range(a.spec_usize()),
        ensures
            r == self.spec_at(a.spec_usize()),
    {
        let i = self.index_of(a);
        self.bytes[i]
    }

    /// Write the byte for an address.
    pub fn store(&mut self, a: Address, v: u8)
        requires
            old(self).wf(),
            old(self).in_range(a.spec_usize()),
        ensures
            final(self).wf(),
            final(self).spec_base() == old(self).spec_base(),
            final(self).spec_unit() == old(self).spec_unit(),
            final(self).spec_bytes() == old(self).spec_bytes().update(
                old(self).spec_index_of(a.spec_usize()),
                v,
            ),
    {
        let i = self.index_of(a);
        self.bytes.set(i, v);
    }

    /// Replace the byte for an address only if it still holds `expected`;
    /// `Ok` and `Err` both carry the previous byte.
    pub fn compare_exchange(&mut self, a: Address, expected: u8, new: u8) -> (r: Result<u8, u8>)
        requires
            old(self).wf(),
            old(self).in_range(a.spec_usize()),
        ensures
            final(self).wf(),
            final(self).spec_base() == old(self).spec_base(),
            final(self).spec_unit() == old(self).spec_unit(),
            old(self).spec_at(a.spec_usize()) == expected ==> {
                &&& r == Ok::<u8, u8>(expected)
                &&& final(self).spec_bytes() == old(self).spec_bytes().update(
                    old(self).spec_index_of(a.spec_usize()),
                    new,
                )
            },
            old(self).spec_at(a.spec_usize()) != expected ==> {
                &&& r == Err::<u8, u8>(old(self).spec_at(a.spec_usize()))
                &&& final(self).spec_bytes() == old(self).spec_bytes()
            },
    {
        let i = self.index_of(a);
        let v = self.bytes[i];
        if v == expected {
            self.bytes.set(i, new);
            Ok(v)
        } else {
            Err(v)
        }
    }

    /// Write `v` into the `n` units starting at `start`; block reset uses
    /// this for byte-granular zeroing of ranges.
    pub fn store_range(&mut self, start: Address, n: usize, v: u8)
        requires
            old(self).wf(),
            old(self).in_range(start.spec_usize()),
            old(self).spec_index_of(start.spec_usize()) + n <= old(self).spec_bytes().len(),
        ensures
            final(self).wf(),
            final(self).spec_base() == old(self).spec_base(),
            final(self).spec_unit() == old(self).spec_unit(),
            final(self).spec_bytes().len() == old(self).spec_bytes().len(),
            forall|j: int|
                old(self).spec_index_of(start.spec_usize()) <= j < old(self).spec_index_of(start.spec_usize()) + n
                    ==> final(self).spec_bytes()[j] == v,
            forall|j: int|
                0 <= j < old(self).spec_bytes().len() && !(old(self).spec_index_of(start.spec_usize()) <= j
                    < old(self).spec_index_of(start.spec_usize()) + n) ==> final(self).spec_bytes()[j] == old(
                    self,
                ).spec_bytes()[j],
    {
        let i0 = self.index_of(start);
        let cap: usize = self.bytes.len();
        let mut k: usize = 0;
        while k < n
            invariant
                k <= n,
                self.bytes@.len() == cap,
                i0 + n <= self.bytes@.len(),
                self.bytes@.len() == old(self).spec_bytes().len(),
                self.base == old(self).base,
                self.unit == old(self).unit,
                i0 == old(self).spec_index_of(start.spec_usize()),
                forall|j: int| i0 <= j < i0 + k ==> self.bytes@[j] == v,
                forall|j: int|
                    0 <= j < self.bytes@.len() && !(i0 <= j < i0 + k) ==> self.bytes@[j] == old(
                        self,
                    ).spec_bytes()[j],
            decreases n - k,
        {
            let idx: usize = i0 + k;
            self.bytes.set(idx, v);
            k = k + 1;
        }
    }
}

} // verus!

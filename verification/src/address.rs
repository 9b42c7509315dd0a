//! Raw heap addresses and object references.
//!
//! An `Address` is a machine word on which explicit, checked arithmetic
//! is allowed. An `ObjectReference` points at the header of an object;
//! no arithmetic is allowed on it beyond the explicit conversions here.

use vstd::prelude::*;

verus! {

use crate::LOG_BYTES_IN_CHUNK;

/// An arbitrary heap address.
#[derive(Copy, Clone, Debug, PartialEq, Eq, Structural, Hash)]
pub struct Address {
    raw: usize,
}

impl Address {
    /// The view of an address: its numeric value.
    pub closed spec fn spec_usize(self) -> int {
        self.raw as int
    }

    /// The null address.
    pub fn zero() -> (r: Address)
        ensures
            r.spec_usize() == 0,
    {
        Address { raw: 0 }
    }

    /// The largest representable address, used as a sentinel.
    pub fn max() -> (r: Address)
        ensures
            r.spec_usize() == usize::MAX,
    {
        Address { raw: usize::MAX }
    }

    /// An address with the given numeric value.
    pub fn from_usize(raw: usize) -> (r: Address)
        ensures
            r.spec_usize() == raw,
    {
        Address { raw }
    }

    /// The distance from `other` up to `self`, which must not be below `other`.
    pub fn get_extent(self, other: Address) -> (r: usize)
        requires
            other.spec_usize() <= self.spec_usize(),
        ensures
            r == self.spec_usize() - other.spec_usize(),
    {
        self.raw - other.raw
    }

    /// The signed offset from `other` to `self`.
    pub fn get_offset(self, other: Address) -> (r: isize)
        requires
            isize::MIN < self.spec_usize() - other.spec_usize() <= isize::MAX,
        ensures
            r == self.spec_usize() - other.spec_usize(),
    {
        if self.raw >= other.raw {
            let diff: usize = self.raw - other.raw;
            assert(diff <= isize::MAX);
            diff as isize
        } else {
            let diff: usize = other.raw - self.raw;
            assert(diff < isize::MAX + 1);
            let d: isize = diff as isize;
            -d
        }
    }

    /// The address `size` bytes above `self`.
    pub fn add(self, size: usize) -> (r: Address)
        requires
            self.spec_usize() + size <= usize::MAX,
        ensures
            r.spec_usize() == self.spec_usize() + size,
    {
        Address { raw: self.raw + size }
    }

    /// The address `size` bytes below `self`, which must be at least `size`.
    pub fn sub(self, size: usize) -> (r: Address)
        requires
            size <= self.spec_usize(),
        ensures
            r.spec_usize() == self.spec_usize() - size,
    {
        Address { raw: self.raw - size }
    }

    /// Bitwise conjunction with a word-sized mask.
    pub fn and(self, mask: usize) -> (r: usize)
        ensures
            r == self.spec_usize() as usize & mask,
    {
        self.raw & mask
    }

    /// Bitwise disjunction with a word-sized mask.
    pub fn or(self, mask: usize) -> (r: usize)
        ensures
            r == self.spec_usize() as usize | mask,
    {
        self.raw | mask
    }

    /// Bitwise conjunction with a byte mask; only the low byte takes part.
    pub fn and_byte(self, mask: u8) -> (r: u8)
        ensures
            r == (self.spec_usize() as usize as u8) & mask,
    {
        (self.raw as u8) & mask
    }

    /// Bitwise disjunction with a byte mask, widened to a word.
    pub fn or_byte(self, mask: u8) -> (r: usize)
        ensures
            r == self.spec_usize() as usize | (mask as usize),
    {
        self.raw | (mask as usize)
    }

    /// The address `size` bytes below `self`, or the null address if that
    /// would fall below zero.
    pub fn saturating_sub(self, size: usize) -> (r: Address)
        ensures
            self.spec_usize() >= size ==> r.spec_usize() == self.spec_usize() - size,
            self.spec_usize() < size ==> r.spec_usize() == 0,
    {
        if self.raw >= size {
            Address { raw: self.raw - size }
        } else {
            Address { raw: 0 }
        }
    }

    /// Whether this is the null address.
    pub fn is_zero(self) -> (r: bool)
        ensures
            r == (self.spec_usize() == 0),
    {
        self.raw == 0
    }

    /// The smallest multiple of `align` at or above `self`.
    pub fn align_up(self, align: usize) -> (r: Address)
        requires
            align >= 1,
            self.spec_usize() + align - 1 <= usize::MAX,
        ensures
            r.spec_usize() % (align as int) == 0,
            self.spec_usize() <= r.spec_usize() < self.spec_usize() + align,
    {
        proof {
            lemma_align_up_bounds(self.raw as int, align as int);
        }
        let rounded: usize = (self.raw + (align - 1)) / align * align;
        Address { raw: rounded }
    }

    /// The largest multiple of `align` at or below `self`.
    pub fn align_down(self, align: usize) -> (r: Address)
        requires
            align >= 1,
        ensures
            r.spec_usize() % (align as int) == 0,
            self.spec_usize() - align < r.spec_usize() <= self.spec_usize(),
            r.spec_usize() == self.spec_usize() / (align as int) * (align as int),
    {
        proof {
            lemma_align_down_bounds(self.raw as int, align as int);
        }
        let rounded: usize = self.raw / align * align;
        Address { raw: rounded }
    }

    /// Whether `self` is a multiple of `align`.
    pub fn is_aligned_to(self, align: usize) -> (r: bool)
        requires
            align >= 1,
        ensures
            r == (self.spec_usize() % (align as int) == 0),
    {
        self.raw % align == 0
    }

    /// The numeric value of the address.
    pub fn as_usize(self) -> (r: usize)
        ensures
            r == self.spec_usize(),
    {
        self.raw
    }

    /// The index of the chunk holding this address.
    pub fn chunk_index(self) -> (r: usize)
        ensures
            r == self.spec_usize() / 4194304,
    {
        proof {
            let x = self.raw;
            assert(x >> 22usize == x / 4194304) by (bit_vector);
        }
        self.raw >> LOG_BYTES_IN_CHUNK
    }

    /// Reinterpret the address as an object reference.
    pub fn to_object_reference(self) -> (r: ObjectReference)
        ensures
            r.spec_value() == self.spec_usize(),
    {
        ObjectReference { raw: self.raw }
    }
}

/// How far below a multiple of `align` an aligned-down value can fall.
proof fn lemma_align_down_bounds(x: int, align: int)
    requires
        align >= 1,
        x >= 0,
    ensures
        (x / align * align) % align == 0,
        x - align < x / align * align <= x,
{
    vstd::arithmetic::div_mod::lemma_fundamental_div_mod(x, align);
    vstd::arithmetic::div_mod::lemma_mod_multiples_basic(x / align, align);
    vstd::arithmetic::div_mod::lemma_mod_bound(x, align);
    vstd::arithmetic::mul::lemma_mul_is_commutative(align, x / align);
    assert(x / align * align == x - x % align);
}

/// Bounds for rounding up to a multiple of `align`.
proof fn lemma_align_up_bounds(x: int, align: int)
    requires
        align >= 1,
        x >= 0,
    ensures
        ((x + align - 1) / align * align) % align == 0,
        x <= (x + align - 1) / align * align < x + align,
{
    let y = x + align - 1;
    vstd::arithmetic::div_mod::lemma_fundamental_div_mod(y, align);
    vstd::arithmetic::div_mod::lemma_mod_multiples_basic(y / align, align);
    vstd::arithmetic::div_mod::lemma_mod_bound(y, align);
    vstd::arithmetic::mul::lemma_mul_is_commutative(align, y / align);
    assert(y / align * align == y - y % align);
}

/// The address with the given value, for specifications.
pub closed spec fn spec_address(v: int) -> Address {
    Address { raw: v as usize }
}

/// The specification constructor returns the value it was given, for
/// any value a machine word can hold.
pub broadcast proof fn lemma_spec_address(v: int)
    requires
        0 <= v <= usize::MAX,
    ensures
        (#[trigger] spec_address(v)).spec_usize() == v,
{
}

/// Two addresses with one value are the same address.
pub proof fn lemma_address_injective(a: Address, b: Address)
    requires
        a.spec_usize() == b.spec_usize(),
    ensures
        a == b,
{
}

/// The object reference with the given value, for specifications.
pub closed spec fn spec_object_reference(v: int) -> ObjectReference {
    ObjectReference { raw: v as usize }
}

/// The specification constructor returns the value it was given, for
/// any value a machine word can hold.
pub broadcast proof fn lemma_spec_object_reference(v: int)
    requires
        0 <= v <= usize::MAX,
    ensures
        (#[trigger] spec_object_reference(v)).spec_value() == v,
{
}

/// Two object references with one value are the same reference.
pub proof fn lemma_object_reference_injective(a: ObjectReference, b: ObjectReference)
    requires
        a.spec_value() == b.spec_value(),
    ensures
        a == b,
{
}

/// An address is a machine word: its value fits the word's range.
pub broadcast proof fn lemma_address_bounds(a: Address)
    ensures
        0 <= #[trigger] a.spec_usize() <= usize::MAX,
{
}

/// An object reference is a machine word: its value fits the word's range.
pub broadcast proof fn lemma_object_reference_bounds(o: ObjectReference)
    ensures
        0 <= #[trigger] o.spec_value() <= usize::MAX,
{
}

/// A reference to the header of a heap object.
#[derive(Copy, Clone, Debug, PartialEq, Eq, Structural, Hash)]
pub struct ObjectReference {
    raw: usize,
}

impl ObjectReference {
    /// The view of an object reference: its numeric value.
    pub closed spec fn spec_value(self) -> int {
        self.raw as int
    }

    /// The null reference.
    pub fn null() -> (r: ObjectReference)
        ensures
            r.spec_value() == 0,
    {
        ObjectReference { raw: 0 }
    }

    /// The address of the object's header.
    pub fn to_address(self) -> (r: Address)
        ensures
            r.spec_usize() == self.spec_value(),
    {
        Address { raw: self.raw }
    }

    /// Whether this is the null reference.
    pub fn is_null(self) -> (r: bool)
        ensures
            r == (self.spec_value() == 0),
    {
        self.raw == 0
    }

    /// The numeric value of the reference.
    pub fn value(self) -> (r: usize)
        ensures
            r == self.spec_value(),
    {
        self.raw
    }

    /// Whether a class pointer read from an object header looks valid:
    /// it must sit in the class region and be word aligned.
    pub fn class_is_valid(self, klass: u64) -> (r: bool)
        ensures
            r == ((klass & 0xff00000000000u64 == 0x700000000000u64) && klass % 8 == 0),
    {
        (klass & 0xff00000000000u64 == 0x700000000000u64) && klass % 8 == 0
    }
}

} // verus!

//! Address arithmetic and alignment.

use lxr::address::Address;

#[test]
fn align_up() {
    assert_eq!(
        Address::from_usize(0x10).align_up(0x10),
        Address::from_usize(0x10)
    );
    assert_eq!(
        Address::from_usize(0x11).align_up(0x10),
        Address::from_usize(0x20)
    );
    assert_eq!(
        Address::from_usize(0x20).align_up(0x10),
        Address::from_usize(0x20)
    );
}

#[test]
fn align_down() {
    assert_eq!(
        Address::from_usize(0x10).align_down(0x10),
        Address::from_usize(0x10)
    );
    assert_eq!(
        Address::from_usize(0x11).align_down(0x10),
        Address::from_usize(0x10)
    );
    assert_eq!(
        Address::from_usize(0x20).align_down(0x10),
        Address::from_usize(0x20)
    );
}

#[test]
fn is_aligned_to() {
    assert!(Address::from_usize(0x10).is_aligned_to(0x10));
    assert!(!Address::from_usize(0x11).is_aligned_to(0x10));
    assert!(Address::from_usize(0x10).is_aligned_to(0x8));
    assert!(!Address::from_usize(0x10).is_aligned_to(0x20));
}

#[test]
fn bit_and() {
    assert_eq!(
        Address::from_usize(0b1111_1111_1100usize).and_byte(0b1010u8),
        0b1000u8
    );
    assert_eq!(
        Address::from_usize(0b1111_1111_1100usize).and(0b1000_0000_1010usize),
        0b1000_0000_1000usize
    );
}

#[test]
fn bit_or() {
    assert_eq!(
        Address::from_usize(0b1111_1111_1100usize).or_byte(0b1010u8),
        0b1111_1111_1110usize
    );
    assert_eq!(
        Address::from_usize(0b1111_1111_1100usize).or(0b1000_0000_1010usize),
        0b1111_1111_1110usize
    );
}

#[test]
fn arithmetic_and_conversions() {
    let a = Address::from_usize(0x1000);
    assert_eq!(a.add(0x20).as_usize(), 0x1020);
    assert_eq!(a.sub(0x20).as_usize(), 0xfe0);
    assert_eq!(a.get_extent(Address::from_usize(0x800)), 0x800);
    assert_eq!(a.get_offset(Address::from_usize(0x1100)), -0x100);
    assert_eq!(Address::from_usize(5).saturating_sub(9).as_usize(), 0);
    assert!(Address::zero().is_zero());
    assert_eq!(Address::from_usize(4194304 * 3 + 17).chunk_index(), 3);
    let o = a.to_object_reference();
    assert!(!o.is_null());
    assert_eq!(o.value(), 0x1000);
    assert_eq!(o.to_address(), a);
}

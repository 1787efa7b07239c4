use address_space::address::{round_down, round_up};
use address_space::{AddressRange, GuestAddress};

#[test]
fn test_round_up_and_down() {
    assert_eq!(round_up(0, 4096), Some(0));
    assert_eq!(round_up(1, 4096), Some(4096));
    assert_eq!(round_up(4096, 4096), Some(4096));
    assert_eq!(round_up(4097, 4096), Some(8192));
    assert_eq!(round_up(u64::MAX, 4096), None);
    assert_eq!(round_up(10, 0), None);
    assert_eq!(round_down(0, 4096), Some(0));
    assert_eq!(round_down(4095, 4096), Some(0));
    assert_eq!(round_down(8200, 4096), Some(8192));
    assert_eq!(round_down(u64::MAX, 4096), Some(u64::MAX - 4095));
    assert_eq!(round_down(10, 0), None);
}

#[test]
fn test_guest_address_arithmetic() {
    let addr = GuestAddress(0x1000);
    assert_eq!(addr.raw_value(), 0x1000);
    assert_eq!(addr.offset_from(GuestAddress(0x800)), 0x800);
    assert_eq!(addr.checked_add(0x10), Some(GuestAddress(0x1010)));
    assert_eq!(GuestAddress(u64::MAX).checked_add(1), None);
    assert_eq!(addr.checked_sub(0x1000), Some(GuestAddress(0)));
    assert_eq!(addr.checked_sub(0x1001), None);
    assert_eq!(addr.unchecked_add(1), GuestAddress(0x1001));
    assert_eq!(addr.unchecked_sub(1), GuestAddress(0xfff));
    assert!(GuestAddress(1) < GuestAddress(2));
}

#[test]
fn test_guest_address_alignment() {
    assert_eq!(GuestAddress(0x1001).align_up(0x1000), Some(GuestAddress(0x2000)));
    assert_eq!(GuestAddress(0x1000).align_up(0x1000), Some(GuestAddress(0x1000)));
    assert_eq!(GuestAddress(u64::MAX - 1).align_up(0x1000), None);
    assert_eq!(GuestAddress(0x1fff).align_down(0x1000), Some(GuestAddress(0x1000)));
    assert_eq!(GuestAddress(0x1fff).align_down(0), None);
}

#[test]
fn test_address_range_intersects() {
    let range1 = AddressRange::new(GuestAddress(0), 8);
    let range2 = AddressRange::new(GuestAddress(5), 5);
    assert_eq!(
        range1.find_intersection(range2),
        Some(AddressRange::new(GuestAddress(5), 3))
    );
    assert_eq!(
        range2.find_intersection(range1),
        Some(AddressRange::new(GuestAddress(5), 3))
    );
    // ranges that only touch share no address
    let range3 = AddressRange::new(GuestAddress(8), 4);
    assert_eq!(range1.find_intersection(range3), None);
    // an empty range shares no address with any range
    let empty = AddressRange::new(GuestAddress(3), 0);
    assert_eq!(range1.find_intersection(empty), None);
    // a range that ends past the 64-bit space
    let high = AddressRange::new(GuestAddress(u64::MAX - 3), 8);
    let top = AddressRange::new(GuestAddress(u64::MAX - 1), 1);
    assert_eq!(high.find_intersection(top), Some(top));
    // one range inside the other
    let inner = AddressRange::new(GuestAddress(2), 3);
    assert_eq!(range1.find_intersection(inner), Some(inner));
}

#[test]
fn test_address_range_from_and_end() {
    let range = AddressRange::from((1000, 4u64));
    assert_eq!(range.base, GuestAddress(1000));
    assert_eq!(range.size, 4);
    assert_eq!(range.end_addr(), GuestAddress(1004));
    assert_eq!(range, AddressRange::new(GuestAddress(1000), 4));
}

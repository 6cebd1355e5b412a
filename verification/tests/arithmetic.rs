use columned::layout::{align_offset, align_up, is_power_of_two, max};
use columned::{AllocError, AllocLayout, SingleAllocation};

#[test]
fn from_size_align_accepts_exactly_valid_layouts() {
    assert_eq!(AllocLayout::from_size_align(0, 1), Some(AllocLayout { size: 0, align: 1 }));
    assert_eq!(AllocLayout::from_size_align(24, 8), Some(AllocLayout { size: 24, align: 8 }));
    assert_eq!(AllocLayout::from_size_align(10, 0), None);
    assert_eq!(AllocLayout::from_size_align(10, 3), None);
    assert_eq!(AllocLayout::from_size_align(10, 12), None);
    let max_size = isize::MAX as usize;
    assert!(AllocLayout::from_size_align(max_size, 1).is_some());
    assert_eq!(AllocLayout::from_size_align(max_size, 2), None);
    assert!(AllocLayout::from_size_align(max_size - 1, 2).is_some());
    assert_eq!(AllocLayout::from_size_align(max_size + 1, 1), None);
    assert_eq!(AllocLayout::from_size_align(usize::MAX, 1), None);
}

#[test]
fn power_of_two_detection() {
    assert!(!is_power_of_two(0));
    assert!(is_power_of_two(1));
    assert!(is_power_of_two(2));
    assert!(!is_power_of_two(6));
    assert!(is_power_of_two(1 << 40));
    assert!(!is_power_of_two(usize::MAX));
    assert!(is_power_of_two(1usize << (usize::BITS - 1)));
}

#[test]
fn rounding_up_and_offsets() {
    assert_eq!(align_up(0, 8), 0);
    assert_eq!(align_up(10, 4), 12);
    assert_eq!(align_up(12, 4), 12);
    assert_eq!(align_up(7, 3), 9);
    assert_eq!(align_offset(10, 4), 2);
    assert_eq!(align_offset(16, 8), 0);
    assert_eq!(align_offset(usize::MAX, 8), 1);
    assert_eq!(max(3, 9), 9);
    assert_eq!(max(9, 3), 9);
    assert_eq!(max(4, 4), 4);
}

#[test]
fn single_allocation_places_at_first_aligned_address() {
    let mut a = SingleAllocation::from_raw_parts(1001, 100);
    assert!(!a.is_allocated());
    let layout = AllocLayout::from_size_align(16, 8).unwrap();
    assert_eq!(a.allocate(layout), Ok(1008));
    assert!(a.is_allocated());
}

#[test]
fn single_allocation_serves_one_at_a_time() {
    let mut a = SingleAllocation::from_raw_parts(0x1000, 64);
    let layout = AllocLayout::from_size_align(8, 8).unwrap();
    assert_eq!(a.allocate(layout), Ok(0x1000));
    assert_eq!(a.allocate(layout), Err(AllocError));
    a.deallocate(0x1000, layout);
    assert!(!a.is_allocated());
    assert_eq!(a.allocate(layout), Ok(0x1000));
}

#[test]
fn single_allocation_refuses_blocks_that_do_not_fit() {
    let mut a = SingleAllocation::from_raw_parts(0x1004, 32);
    // Offset 4 plus 29 bytes passes the end of the region: refused.
    let larger = AllocLayout::from_size_align(29, 8).unwrap();
    assert_eq!(a.allocate(larger), Err(AllocError));
    assert!(!a.is_allocated());
    // Offset 4 plus 28 bytes ends exactly at the end of the region: served.
    let exact = AllocLayout::from_size_align(28, 8).unwrap();
    assert_eq!(a.allocate(exact), Ok(0x1008));
    a.deallocate(0x1008, exact);
    assert_eq!(a.allocate(exact), Ok(0x1008));
    let mut empty = SingleAllocation::from_raw_parts(0x2000, 0);
    assert_eq!(empty.allocate(AllocLayout::from_size_align(0, 1).unwrap()), Ok(0x2000));
    assert!(empty.is_allocated());
    let mut none_left = SingleAllocation::from_raw_parts(0x2001, 0);
    assert_eq!(none_left.allocate(AllocLayout::from_size_align(0, 2).unwrap()), Err(AllocError));
}

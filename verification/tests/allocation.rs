use columned::{AllocError, AllocLayout, Allocation, Global, Guard, GuardedBuilder, SingleAllocation};

/// A byte region suitably aligned for the arrays of the tests, backed by a vector of `u64`.
fn region(words: usize) -> (Vec<u64>, usize, usize) {
    let buf: Vec<u64> = vec![0; words];
    let start = buf.as_ptr() as usize;
    (buf, start, words * 8)
}

#[test]
fn test() {
    let (_buf, start, len) = region(64);
    let mut backing = SingleAllocation::from_raw_parts(start, len);
    let mut guard = Guard::new();

    let subscriber = guard.subscriber();

    let mut x: GuardedBuilder<[u8]> = GuardedBuilder::new_slice(10);
    let mut y: GuardedBuilder<[u32]> = GuardedBuilder::new_slice(10);
    let mut z: GuardedBuilder<[u16]> = GuardedBuilder::new_slice(10);

    let subscriber = subscriber.subscribe(&mut x).subscribe(&mut y).subscribe(&mut z);
    let layout = subscriber.layout().unwrap();
    let granted = backing.allocate(layout);
    subscriber.allocate(granted).unwrap();

    let x = x.allocated_at().unwrap();
    let y = y.allocated_at().unwrap();
    let z = z.allocated_at().unwrap();

    println!("ptrs2: {:?} {:?} {:?}", y..y + 40, z..z + 20, x..x + 10);
}

#[test]
fn subscribe_lays_out_in_order_with_padding() {
    let mut guard = Guard::new();
    let mut x: GuardedBuilder<[u8]> = GuardedBuilder::new_slice(10);
    let mut y: GuardedBuilder<[u32]> = GuardedBuilder::new_slice(10);
    let mut z: GuardedBuilder<[u16]> = GuardedBuilder::new_slice(10);
    let subscriber = guard.subscriber().subscribe(&mut x).subscribe(&mut y).subscribe(&mut z);
    // 10 bytes, padding to 12, 40 bytes, then 20 bytes.
    assert_eq!(subscriber.layout(), Some(AllocLayout { size: 72, align: 4 }));
    subscriber.allocate(Ok(4096)).unwrap();
    assert_eq!(x.allocated_at(), Some(4096));
    assert_eq!(y.allocated_at(), Some(4096 + 12));
    assert_eq!(z.allocated_at(), Some(4096 + 52));
    assert_eq!(
        guard.allocation(),
        Some(Allocation { addr: 4096, layout: AllocLayout { size: 72, align: 4 } })
    );
    assert_eq!(guard.as_ptr(), 4096);
    assert_eq!(guard.as_ptr_range(), 4096..4168);
}

#[test]
fn placements_are_aligned_disjoint_and_inside() {
    let (_buf, start, len) = region(128);
    let mut backing = SingleAllocation::from_raw_parts(start, len);
    let mut guard = Guard::new();
    let mut a: GuardedBuilder<[u8]> = GuardedBuilder::new_slice(3);
    let mut b: GuardedBuilder<[u64]> = GuardedBuilder::new_slice(5);
    let mut c: GuardedBuilder<u16> = GuardedBuilder::new();
    let mut d: GuardedBuilder<[u32]> = GuardedBuilder::new_slice(7);
    let sub = guard.subscriber().subscribe(&mut a).subscribe(&mut b).subscribe(&mut c).subscribe(&mut d);
    let layout = sub.layout().unwrap();
    let granted = backing.allocate(layout);
    sub.allocate(granted).unwrap();
    let slots = [
        (a.allocated_at().unwrap(), a.byte_len(), std::mem::align_of::<u8>()),
        (b.allocated_at().unwrap(), b.byte_len(), std::mem::align_of::<u64>()),
        (c.allocated_at().unwrap(), c.byte_len(), std::mem::align_of::<u16>()),
        (d.allocated_at().unwrap(), d.byte_len(), std::mem::align_of::<u32>()),
    ];
    let range = guard.as_ptr_range();
    for (i, &(addr, size, align)) in slots.iter().enumerate() {
        assert_eq!(addr % align, 0);
        assert!(range.start <= addr && addr + size <= range.end);
        if i + 1 < slots.len() {
            assert!(addr + size <= slots[i + 1].0);
        }
    }
    assert_eq!(guard.as_ptr() % std::mem::align_of::<u64>(), 0);
}

#[test]
fn empty_subscriber_allocates_nothing() {
    let mut guard = Guard::new();
    let sub = guard.subscriber();
    assert!(sub.is_empty());
    assert_eq!(sub.allocate(Err(AllocError)), Ok(()));
    assert_eq!(guard.allocation(), None);
    assert_eq!(guard.as_ptr(), 0);
    assert_eq!(guard.as_ptr_range(), 0..0);
}

#[test]
fn failed_allocation_changes_nothing() {
    let mut guard = Guard::new();
    let mut x: GuardedBuilder<[u16]> = GuardedBuilder::new_slice(4);
    let sub = guard.subscriber().subscribe(&mut x);
    assert!(!sub.is_empty());
    assert_eq!(sub.allocate(Err(AllocError)), Err(AllocError));
    assert_eq!(x.allocated_at(), None);
    assert_eq!(guard.allocation(), None);
}

#[test]
fn release_hands_back_the_allocation() {
    let mut guard = Guard::default();
    let mut x: GuardedBuilder<[u8]> = GuardedBuilder::new_slice(16);
    guard.subscriber().subscribe(&mut x).allocate(Ok(64)).unwrap();
    let released = guard.release();
    assert_eq!(released, Some(Allocation { addr: 64, layout: AllocLayout { size: 16, align: 1 } }));
    assert_eq!(guard.allocation(), None);
    assert_eq!(guard.as_ptr(), 0);
    assert_eq!(guard.release(), None);
}

#[test]
fn guard_carries_its_allocator() {
    let guard = Guard::new_in(7u32);
    assert_eq!(*guard.allocator(), 7);
    let global = Guard::new();
    assert_eq!(*global.allocator(), Global);
}

#[test]
fn subscriber_layout_reports_invalid_totals() {
    let mut guard = Guard::new();
    let mut x: GuardedBuilder<[u8]> = GuardedBuilder::new_slice(usize::MAX);
    let sub = guard.subscriber().subscribe(&mut x);
    assert_eq!(sub.layout(), None);
}

#[test]
fn builders_record_their_request() {
    let x: GuardedBuilder<[u32]> = GuardedBuilder::new_slice(6);
    assert_eq!(x.len(), 6);
    assert_eq!(x.byte_len(), 24);
    assert_eq!(x.allocated_at(), None);
    let y: GuardedBuilder<u64> = GuardedBuilder::new();
    assert_eq!(y.len(), 1);
    assert_eq!(y.byte_len(), 8);
    let z: GuardedBuilder<[u8]> = GuardedBuilder::new_slice(0);
    assert_eq!(z.byte_len(), 0);
}

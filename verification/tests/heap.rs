use slab_heap::allocator::{Heap, Layout, MIN_SIZE};
use slab_heap::errors::ErrorCode;

const BASE: usize = 0x1000_0000;
const CLASSES: [usize; 8] = [8, 16, 32, 64, 128, 256, 512, 1024];

#[test]
fn minimum_size_has_the_documented_value() {
    // 8 slab sizes x 8 pools x (2 blocks of the largest, 1024-byte, size)
    assert_eq!(MIN_SIZE, 8 * 8 * 2 * 1024);
}

#[test]
fn region_below_minimum_is_rejected() {
    let e = Heap::from_region(BASE, MIN_SIZE - 1).unwrap_err();
    assert_eq!(e.code, ErrorCode::InvalidArgument);
    assert_eq!(e.reason, "heap size is less than minimum heap size");
}

#[test]
fn empty_region_is_rejected() {
    let e = Heap::from_region(BASE, 0).unwrap_err();
    assert_eq!(e.code, ErrorCode::InvalidArgument);
}

#[test]
fn region_not_a_multiple_is_rejected() {
    let e = Heap::from_region(BASE, MIN_SIZE * 3 / 2).unwrap_err();
    assert_eq!(e.code, ErrorCode::InvalidArgument);
    assert_eq!(e.reason, "size is not a multiple of minimum heap size");
}

#[test]
fn valid_region_builds_a_heap() {
    assert!(Heap::from_region(BASE, MIN_SIZE).is_ok());
    assert!(Heap::from_region(BASE, 2 * MIN_SIZE).is_ok());
    assert!(Heap::from_region(BASE, 10 * MIN_SIZE).is_ok());
}

#[test]
fn pools_partition_the_region_in_ascending_class_order() {
    let mut heap = Heap::from_region(BASE, MIN_SIZE).unwrap();
    let slice = MIN_SIZE / 8;
    for (k, &class) in CLASSES.iter().enumerate() {
        // The first block of each class sits at the very start of that
        // class's slice: the slices are contiguous, equal in length,
        // and assigned to classes in ascending size order.
        let p = heap.allocate(Layout::new(class, 1)).unwrap();
        assert_eq!(p, BASE + k * slice);
    }
}

#[test]
fn allocation_comes_from_the_matching_class() {
    let mut heap = Heap::from_region(BASE, MIN_SIZE).unwrap();
    let slice = MIN_SIZE / 8;

    // 9 bytes -> a block of the 16-byte class (slice index 1).
    let p = heap.allocate(Layout::new(9, 1)).unwrap();
    assert!(BASE + slice <= p && p < BASE + 2 * slice);

    // 1024 bytes -> a block of the 1024-byte class (slice index 7).
    let p = heap.allocate(Layout::new(1024, 1)).unwrap();
    assert!(BASE + 7 * slice <= p && p < BASE + 8 * slice);

    // 1025 bytes -> no class holds it.
    let e = heap.allocate(Layout::new(1025, 1)).unwrap_err();
    assert_eq!(e.code, ErrorCode::InvalidArgument);
}

#[test]
fn exhaustion_is_isolated_to_one_class() {
    let mut heap = Heap::from_region(BASE, MIN_SIZE).unwrap();
    let capacity = (MIN_SIZE / 8) / 8;  // blocks in the 8-byte pool

    for _ in 0..capacity {
        assert!(heap.allocate(Layout::new(8, 1)).is_ok());
    }
    // One more request of the exhausted class fails...
    let e = heap.allocate(Layout::new(8, 1)).unwrap_err();
    assert_eq!(e.code, ErrorCode::OutOfMemory);
    // ...while every other class still serves requests.
    for &class in &CLASSES[1..] {
        assert!(heap.allocate(Layout::new(class, 1)).is_ok());
    }
}

#[test]
fn no_fallback_to_an_idle_larger_pool() {
    let mut heap = Heap::from_region(BASE, MIN_SIZE).unwrap();
    let capacity = (MIN_SIZE / 8) / 1024;  // blocks in the 1024-byte pool

    for _ in 0..capacity {
        assert!(heap.allocate(Layout::new(1024, 1)).is_ok());
    }
    let e = heap.allocate(Layout::new(513, 1)).unwrap_err();
    assert_eq!(e.code, ErrorCode::OutOfMemory);
}

#[test]
fn round_trip_makes_the_freed_block_available_again() {
    let mut heap = Heap::from_region(BASE, MIN_SIZE).unwrap();
    for &class in &CLASSES {
        let layout = Layout::new(class, 1);
        let p1 = heap.allocate(layout).unwrap();
        assert!(heap.deallocate(p1, layout).is_ok());
        let p2 = heap.allocate(layout).unwrap();
        assert_eq!(p2, p1);
    }
}

#[test]
fn double_free_is_rejected() {
    let mut heap = Heap::from_region(BASE, MIN_SIZE).unwrap();
    let layout = Layout::new(64, 1);
    let p = heap.allocate(layout).unwrap();
    assert!(heap.deallocate(p, layout).is_ok());
    let e = heap.deallocate(p, layout).unwrap_err();
    assert_eq!(e.code, ErrorCode::InvalidArgument);
}

#[test]
fn foreign_and_misaligned_pointers_are_rejected_on_free() {
    let mut heap = Heap::from_region(BASE, MIN_SIZE).unwrap();
    let layout = Layout::new(8, 1);

    // Below the pool's range.
    let e = heap.deallocate(BASE - 8, layout).unwrap_err();
    assert_eq!(e.code, ErrorCode::InvalidArgument);
    // Not on a block boundary.
    let e = heap.deallocate(BASE + 3, layout).unwrap_err();
    assert_eq!(e.code, ErrorCode::InvalidArgument);
    // A block of the pool that was never allocated.
    let e = heap.deallocate(BASE, layout).unwrap_err();
    assert_eq!(e.code, ErrorCode::InvalidArgument);
    // A size that maps to no class.
    let e = heap.deallocate(BASE, Layout::new(1025, 1)).unwrap_err();
    assert_eq!(e.code, ErrorCode::InvalidArgument);
}

use slab_heap::allocator::{Heap, HeapHandle, Layout, MIN_SIZE};
use slab_heap::errors::ErrorCode;

const BASE: usize = 0x2000_0000;

#[test]
fn init_succeeds_once_then_reports_resource_busy() {
    let mut handle = HeapHandle::new();
    assert!(Heap::init(&mut handle, BASE, MIN_SIZE).is_ok());

    // A second call fails, with the same arguments...
    let e = Heap::init(&mut handle, BASE, MIN_SIZE).unwrap_err();
    assert_eq!(e.code, ErrorCode::ResourceBusy);
    // ...and regardless of the arguments.
    let e = Heap::init(&mut handle, BASE + MIN_SIZE, 2 * MIN_SIZE).unwrap_err();
    assert_eq!(e.code, ErrorCode::ResourceBusy);
    let e = Heap::init(&mut handle, BASE, MIN_SIZE - 1).unwrap_err();
    assert_eq!(e.code, ErrorCode::ResourceBusy);
}

#[test]
fn rejected_configuration_leaves_the_handle_usable() {
    let mut handle = HeapHandle::new();

    let e = Heap::init(&mut handle, BASE, MIN_SIZE - 1).unwrap_err();
    assert_eq!(e.code, ErrorCode::InvalidArgument);
    let e = Heap::init(&mut handle, BASE, MIN_SIZE * 3 / 2).unwrap_err();
    assert_eq!(e.code, ErrorCode::InvalidArgument);

    // The failed attempts did not initialize anything: a later valid
    // call still succeeds.
    assert!(Heap::init(&mut handle, BASE, MIN_SIZE).is_ok());
}

#[test]
fn alloc_ptr_returns_null_before_initialization() {
    let mut handle = HeapHandle::new();
    assert_eq!(handle.alloc_ptr(Layout::new(8, 1)), 0);
}

#[test]
fn dealloc_ptr_is_a_silent_no_op_before_initialization() {
    let mut handle = HeapHandle::new();
    handle.dealloc_ptr(BASE, Layout::new(8, 1));
    // Initialization is still possible afterwards.
    assert!(Heap::init(&mut handle, BASE, MIN_SIZE).is_ok());
}

#[test]
fn alloc_ptr_hands_out_blocks_once_initialized() {
    let mut handle = HeapHandle::new();
    assert!(Heap::init(&mut handle, BASE, MIN_SIZE).is_ok());

    let slice = MIN_SIZE / 8;
    let p = handle.alloc_ptr(Layout::new(9, 1));
    assert!(BASE + slice <= p && p < BASE + 2 * slice);
}

#[test]
fn alloc_ptr_returns_null_for_an_oversized_request() {
    let mut handle = HeapHandle::new();
    assert!(Heap::init(&mut handle, BASE, MIN_SIZE).is_ok());
    assert_eq!(handle.alloc_ptr(Layout::new(1025, 1)), 0);
}

#[test]
fn alloc_ptr_returns_null_on_exhaustion() {
    let mut handle = HeapHandle::new();
    assert!(Heap::init(&mut handle, BASE, MIN_SIZE).is_ok());

    let capacity = (MIN_SIZE / 8) / 1024;  // blocks in the 1024-byte pool
    for _ in 0..capacity {
        assert_ne!(handle.alloc_ptr(Layout::new(1024, 1)), 0);
    }
    assert_eq!(handle.alloc_ptr(Layout::new(1024, 1)), 0);
    // Other classes are unaffected.
    assert_ne!(handle.alloc_ptr(Layout::new(8, 1)), 0);
}

#[test]
fn dealloc_ptr_round_trip_through_the_adapter() {
    let mut handle = HeapHandle::new();
    assert!(Heap::init(&mut handle, BASE, MIN_SIZE).is_ok());

    let layout = Layout::new(100, 4);
    let p1 = handle.alloc_ptr(layout);
    assert_ne!(p1, 0);
    handle.dealloc_ptr(p1, layout);
    let p2 = handle.alloc_ptr(layout);
    assert_eq!(p2, p1);
}

#[test]
fn dealloc_ptr_discards_failures_silently() {
    let mut handle = HeapHandle::new();
    assert!(Heap::init(&mut handle, BASE, MIN_SIZE).is_ok());

    // A foreign pointer and an oversized layout are both discarded
    // without observable effect.
    handle.dealloc_ptr(BASE + 3, Layout::new(8, 1));
    handle.dealloc_ptr(BASE, Layout::new(1025, 1));
    assert_ne!(handle.alloc_ptr(Layout::new(8, 1)), 0);
}

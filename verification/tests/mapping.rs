use slab_heap::allocator::{Heap, Layout};
use slab_heap::errors::ErrorCode;

const CLASSES: [usize; 8] = [8, 16, 32, 64, 128, 256, 512, 1024];

fn smallest_class_at_least(s: usize) -> usize {
    for c in CLASSES {
        if c >= s {
            return c;
        }
    }
    panic!("no class holds {} bytes", s);
}

#[test]
fn smallest_class_for_every_size() {
    for s in 1..=1024usize {
        let class = Heap::layout_to_allocator(&Layout::new(s, 1)).unwrap();
        assert_eq!(class.size_in_bytes(), smallest_class_at_least(s));
    }
}

#[test]
fn zero_size_maps_to_smallest_class() {
    let class = Heap::layout_to_allocator(&Layout::new(0, 1)).unwrap();
    assert_eq!(class.size_in_bytes(), 8);
}

#[test]
fn class_boundaries_are_half_open() {
    let cases: [(usize, usize); 16] = [
        (1, 8),
        (8, 8),
        (9, 16),
        (16, 16),
        (17, 32),
        (32, 32),
        (33, 64),
        (64, 64),
        (65, 128),
        (128, 128),
        (129, 256),
        (256, 256),
        (257, 512),
        (512, 512),
        (513, 1024),
        (1024, 1024),
    ];
    for (size, expected) in cases {
        let class = Heap::layout_to_allocator(&Layout::new(size, 1)).unwrap();
        assert_eq!(class.size_in_bytes(), expected);
    }
}

#[test]
fn oversized_request_is_refused() {
    let e = Heap::layout_to_allocator(&Layout::new(1025, 1)).unwrap_err();
    assert_eq!(e.code, ErrorCode::InvalidArgument);
    let e = Heap::layout_to_allocator(&Layout::new(usize::MAX, 1)).unwrap_err();
    assert_eq!(e.code, ErrorCode::InvalidArgument);
}

#[test]
fn alignment_does_not_steer_classification() {
    for align in [1usize, 2, 4, 8, 16, 4096] {
        let class = Heap::layout_to_allocator(&Layout::new(9, align)).unwrap();
        assert_eq!(class.size_in_bytes(), 16);
    }
}

//! A slab-class heap allocator for a freestanding runtime.
//!
//! A caller-supplied contiguous memory region is carved into eight
//! fixed-block pools, one per supported size class (8 to 1024 bytes).
//! Allocation requests are routed by size to the matching pool; the
//! partition is fixed at construction time and never changes.
//!
//! The allocator itself never touches the backing memory: it manages
//! block addresses as plain integers, so ownership of the region stays
//! with the caller. The thin process-wide adapter that hands blocks out
//! through the ambient allocation interface lives outside this crate.

pub mod errors;
pub mod slab;
pub mod allocator;

//! The slab-class heap: eight fixed-block pools over one caller-supplied
//! region, a size-to-class router, and the process-wide handle with its
//! one-time initialization and null-collapsing adapter entry points.

use vstd::prelude::*;
use vstd::arithmetic::div_mod::{
    lemma_div_multiples_vanish,
    lemma_fundamental_div_mod,
    lemma_mod_multiples_basic,
};
use vstd::arithmetic::mul::{
    lemma_mul_inequality,
    lemma_mul_is_associative,
    lemma_mul_is_commutative,
    lemma_mul_nonnegative,
};
use crate::errors::{Error, ErrorCode};
use crate::slab::Slab;

verus! {

/// Number of supported slab sizes.
pub const SLAB_SIZE_COUNT: usize = 8;

/// Largest supported slab size, in bytes.
pub const MAX_SLAB_SIZE: usize = 1024;

/// Number of pools a heap owns, one per slab size.
pub const NUM_OF_SLABS: usize = 8;

/// Minimum number of blocks each pool must hold.
pub const SLAB_COUNT: usize = 2;

/// Minimum space each pool needs: room for `SLAB_COUNT` blocks of the
/// largest slab size.
pub const MIN_SLAB_SIZE: usize = SLAB_COUNT * MAX_SLAB_SIZE;

/// Minimum heap size, the unit in which heap sizes are measured.
pub const MIN_SIZE: usize = SLAB_SIZE_COUNT * NUM_OF_SLABS * MIN_SLAB_SIZE;

/// Sizes of slab supported by the allocator.
#[derive(Copy, Clone, Debug, PartialEq, Eq, Structural)]
pub enum SlabSize {
    /// 8 bytes slab.
    Slab8,
    /// 16 bytes slab.
    Slab16,
    /// 32 bytes slab.
    Slab32,
    /// 64 bytes slab.
    Slab64,
    /// 128 bytes slab.
    Slab128,
    /// 256 bytes slab.
    Slab256,
    /// 512 bytes slab.
    Slab512,
    /// 1024 bytes slab.
    Slab1024,
}

/// Size in bytes of the slab size class with index `i` (0 to 7, in
/// ascending order of size).
pub open spec fn class_size(i: int) -> int {
    if i == 0 {
        8
    } else if i == 1 {
        16
    } else if i == 2 {
        32
    } else if i == 3 {
        64
    } else if i == 4 {
        128
    } else if i == 5 {
        256
    } else if i == 6 {
        512
    } else {
        1024
    }
}

/// True when `n` is one of the eight supported slab sizes.
pub open spec fn is_class(n: int) -> bool {
    ||| n == 8
    ||| n == 16
    ||| n == 32
    ||| n == 64
    ||| n == 128
    ||| n == 256
    ||| n == 512
    ||| n == 1024
}

/// Index of the smallest slab size that can hold `s` bytes; 8 (one
/// past the last class) when `s` exceeds the largest slab size.
pub open spec fn class_index_of_size(s: int) -> int {
    if s <= 8 {
        0
    } else if s <= 16 {
        1
    } else if s <= 32 {
        2
    } else if s <= 64 {
        3
    } else if s <= 128 {
        4
    } else if s <= 256 {
        5
    } else if s <= 512 {
        6
    } else if s <= 1024 {
        7
    } else {
        8
    }
}

impl SlabSize {
    /// Size in bytes of this slab size class.
    pub open spec fn spec_size(self) -> int {
        match self {
            SlabSize::Slab8 => 8,
            SlabSize::Slab16 => 16,
            SlabSize::Slab32 => 32,
            SlabSize::Slab64 => 64,
            SlabSize::Slab128 => 128,
            SlabSize::Slab256 => 256,
            SlabSize::Slab512 => 512,
            SlabSize::Slab1024 => 1024,
        }
    }

    /// Index of this class among the eight, in ascending size order.
    pub open spec fn spec_index(self) -> int {
        match self {
            SlabSize::Slab8 => 0,
            SlabSize::Slab16 => 1,
            SlabSize::Slab32 => 2,
            SlabSize::Slab64 => 3,
            SlabSize::Slab128 => 4,
            SlabSize::Slab256 => 5,
            SlabSize::Slab512 => 6,
            SlabSize::Slab1024 => 7,
        }
    }

    /// Size in bytes of this slab size class.
    pub fn size_in_bytes(self) -> (r: usize)
        ensures
            r as int == self.spec_size(),
    {
        match self {
            SlabSize::Slab8 => 8,
            SlabSize::Slab16 => 16,
            SlabSize::Slab32 => 32,
            SlabSize::Slab64 => 64,
            SlabSize::Slab128 => 128,
            SlabSize::Slab256 => 256,
            SlabSize::Slab512 => 512,
            SlabSize::Slab1024 => 1024,
        }
    }
}

/// The heap: eight fixed-block pools, one per slab size, covering one
/// caller-supplied memory region with eight equal contiguous slices in
/// ascending class order (the smallest class gets the lowest
/// addresses).
#[derive(Debug)]
pub struct Heap {
    slab_8_bytes: Slab,
    slab_16_bytes: Slab,
    slab_32_bytes: Slab,
    slab_64_bytes: Slab,
    slab_128_bytes: Slab,
    slab_256_bytes: Slab,
    slab_512_bytes: Slab,
    slab_1024_bytes: Slab,
}

impl Heap {
    /// The heap's pools, indexed by class in ascending size order.
    pub closed spec fn slabs(self) -> Seq<Slab> {
        seq![
            self.slab_8_bytes,
            self.slab_16_bytes,
            self.slab_32_bytes,
            self.slab_64_bytes,
            self.slab_128_bytes,
            self.slab_256_bytes,
            self.slab_512_bytes,
            self.slab_1024_bytes,
        ]
    }

    /// Length in bytes of each pool's slice of the region.
    pub open spec fn slice_len(self) -> int {
        self.slabs()[0].spec_num_blocks() * 8
    }

    /// Lowest address of the region the heap was built over.
    pub open spec fn region_base(self) -> int {
        self.slabs()[0].spec_base()
    }

    /// Total size in bytes of the region the heap was built over.
    pub open spec fn region_size(self) -> int {
        NUM_OF_SLABS * self.slice_len()
    }

    /// Structural invariant: eight well-formed pools, one per class in
    /// ascending size order, whose equal-length slices are contiguous
    /// and together cover exactly the region
    /// `[region_base(), region_base() + region_size())`.
    pub open spec fn wf(self) -> bool {
        &&& forall|i: int| 0 <= i < 8 ==> (#[trigger] self.slabs()[i]).wf()
        &&& forall|i: int|
            0 <= i < 8 ==> (#[trigger] self.slabs()[i]).spec_block_size() == class_size(i)
        &&& forall|i: int|
            0 <= i < 8 ==> (#[trigger] self.slabs()[i]).spec_num_blocks() * class_size(i)
                == self.slice_len()
        &&& forall|i: int|
            0 <= i < 8 ==> (#[trigger] self.slabs()[i]).spec_base() == self.region_base() + i
                * self.slice_len()
    }

    /// Every block of every pool is free.
    pub open spec fn all_free(self) -> bool {
        forall|i: int, j: int|
            0 <= i < 8 && 0 <= j < self.slabs()[i].spec_num_blocks()
                ==> (#[trigger] self.slabs()[i].spec_free()[j])
    }

    /// The two heaps have the same partition: pool for pool, the same
    /// range and block geometry.
    pub open spec fn same_geometry(self, other: Heap) -> bool {
        forall|i: int|
            0 <= i < 8 ==> (#[trigger] self.slabs()[i]).same_geometry(other.slabs()[i])
    }

    /// Every pool except the one with index `c` is unchanged from
    /// `pre` to `post`.
    pub open spec fn pools_unchanged_except(pre: Heap, post: Heap, c: int) -> bool {
        forall|j: int| 0 <= j < 8 && j != c ==> (#[trigger] post.slabs()[j]) == pre.slabs()[j]
    }

    /// A successful heap allocation step: the pool of class `c` hands
    /// out its block at address `p`; every other pool is untouched.
    pub open spec fn alloc_ok(pre: Heap, post: Heap, c: int, p: int) -> bool {
        &&& Heap::pools_unchanged_except(pre, post, c)
        &&& Slab::alloc_ok_transition(pre.slabs()[c], post.slabs()[c], p)
    }

    /// A successful heap deallocation step: the pool of class `c`
    /// takes back its block at address `p`; every other pool is
    /// untouched.
    pub open spec fn dealloc_ok(pre: Heap, post: Heap, c: int, p: int) -> bool {
        &&& Heap::pools_unchanged_except(pre, post, c)
        &&& Slab::dealloc_ok_transition(pre.slabs()[c], post.slabs()[c], p)
    }
}

/// A (size, alignment) descriptor accompanying every allocation and
/// deallocation request. The alignment is accepted as part of the
/// request but is not used to steer classification or placement — a
/// documented limitation of this allocator.
#[derive(Copy, Clone, Debug)]
pub struct Layout {
    pub size: usize,
    pub align: usize,
}

impl Layout {
    /// Builds a layout from a size and an alignment.
    pub fn new(size: usize, align: usize) -> (r: Layout)
        ensures
            r.size == size,
            r.align == align,
    {
        Layout { size, align }
    }
}

/// Splitting a slice of `16384 * k` bytes into blocks of `c` bytes,
/// where `c * m == 16384`, wastes nothing and yields `m * k >= 2`
/// blocks.
proof fn lemma_slice_class_facts(slab_size: int, k: int, c: int, m: int)
    requires
        k >= 1,
        c >= 1,
        m >= 2,
        c * m == 16384,
        slab_size == 16384 * k,
    ensures
        slab_size % c == 0,
        slab_size / c == m * k,
        slab_size / c >= 2,
        (slab_size / c) * c == slab_size,
{
    lemma_mul_is_associative(c, m, k);
    assert(slab_size == c * (m * k));
    lemma_div_multiples_vanish(m * k, c);
    assert(slab_size / c == m * k);
    lemma_mul_is_commutative(m * k, c);
    lemma_mod_multiples_basic(m * k, c);
    assert(slab_size % c == 0);
    assert(m * k >= 2) by (nonlinear_arith)
        requires
            m >= 2,
            k >= 1,
    ;
}

/// Names each element of `h.slabs()` by the pool field it comes from.
proof fn lemma_slabs_elems(h: Heap)
    ensures
        h.slabs().len() == 8,
        h.slabs()[0] == h.slab_8_bytes,
        h.slabs()[1] == h.slab_16_bytes,
        h.slabs()[2] == h.slab_32_bytes,
        h.slabs()[3] == h.slab_64_bytes,
        h.slabs()[4] == h.slab_128_bytes,
        h.slabs()[5] == h.slab_256_bytes,
        h.slabs()[6] == h.slab_512_bytes,
        h.slabs()[7] == h.slab_1024_bytes,
{
}

impl Heap {
    /// Maps a requested layout to the smallest slab size that can hold
    /// it. A request of zero bytes falls into the smallest class. A
    /// request larger than the largest slab size is refused with
    /// `InvalidArgument`: no larger class exists and no multi-pool
    /// fallback is attempted.
    pub fn layout_to_allocator(layout: &Layout) -> (r: Result<SlabSize, Error>)
        ensures
            r is Ok <==> layout.size <= MAX_SLAB_SIZE,
            r matches Ok(c) ==> {
                &&& c.spec_index() == class_index_of_size(layout.size as int)
                &&& c.spec_size() == class_size(c.spec_index())
                &&& c.spec_size() >= layout.size
                &&& forall|m: int| is_class(m) && m >= layout.size ==> c.spec_size() <= m
            },
            r matches Err(e) ==> e.code == ErrorCode::InvalidArgument,
    {
        if layout.size <= 8 {
            Ok(SlabSize::Slab8)
        } else if layout.size <= 16 {
            Ok(SlabSize::Slab16)
        } else if layout.size <= 32 {
            Ok(SlabSize::Slab32)
        } else if layout.size <= 64 {
            Ok(SlabSize::Slab64)
        } else if layout.size <= 128 {
            Ok(SlabSize::Slab128)
        } else if layout.size <= 256 {
            Ok(SlabSize::Slab256)
        } else if layout.size <= 512 {
            Ok(SlabSize::Slab512)
        } else if layout.size <= 1024 {
            Ok(SlabSize::Slab1024)
        } else {
            Err(Error::new(
                ErrorCode::InvalidArgument,
                "requested size exceeds the largest slab size",
            ))
        }
    }

    /// Builds a heap over the region `[addr, addr + size)`: rejects a
    /// size below `MIN_SIZE` or not a multiple of `MIN_SIZE` with
    /// `InvalidArgument`, then divides the region into eight equal
    /// contiguous slices in ascending address order and builds one
    /// pool per slab size over them, smallest class first.
    /// Construction is all-or-nothing: on failure no heap exists. The
    /// region must be non-null and must not wrap around the address
    /// space; the caller keeps ownership of the backing memory, which
    /// must outlive the heap.
    pub fn from_region(addr: usize, size: usize) -> (r: Result<Heap, Error>)
        requires
            addr >= 1,
            addr + size <= usize::MAX,
        ensures
            r is Ok <==> size >= MIN_SIZE && size as int % MIN_SIZE as int == 0,
            r matches Ok(h) ==> {
                &&& h.wf()
                &&& h.region_base() == addr
                &&& h.region_size() == size
                &&& h.slice_len() == size as int / NUM_OF_SLABS as int
                &&& h.all_free()
            },
            r matches Err(e) ==> e.code == ErrorCode::InvalidArgument,
    {
        if size < MIN_SIZE {
            return Err(Error::new(
                ErrorCode::InvalidArgument,
                "heap size is less than minimum heap size",
            ));
        }
        if size % MIN_SIZE != 0 {
            return Err(Error::new(
                ErrorCode::InvalidArgument,
                "size is not a multiple of minimum heap size",
            ));
        }
        let slab_size: usize = size / NUM_OF_SLABS;
        proof {
            let k = size as int / MIN_SIZE as int;
            lemma_fundamental_div_mod(size as int, MIN_SIZE as int);
            assert(size as int == 131072 * k);
            assert(k >= 1) by (nonlinear_arith)
                requires
                    size as int == 131072 * k,
                    size as int >= 131072,
            ;
            lemma_mul_is_associative(8, 16384, k);
            assert(size as int == 8 * (16384 * k));
            lemma_div_multiples_vanish(16384 * k, 8);
            assert(slab_size as int == 16384 * k);
            lemma_slice_class_facts(slab_size as int, k, 8, 2048);
            lemma_slice_class_facts(slab_size as int, k, 16, 1024);
            lemma_slice_class_facts(slab_size as int, k, 32, 512);
            lemma_slice_class_facts(slab_size as int, k, 64, 256);
            lemma_slice_class_facts(slab_size as int, k, 128, 128);
            lemma_slice_class_facts(slab_size as int, k, 256, 64);
            lemma_slice_class_facts(slab_size as int, k, 512, 32);
            lemma_slice_class_facts(slab_size as int, k, 1024, 16);
        }
        let slab_8_bytes = match Slab::from_raw_parts(addr, slab_size, 8) {
            Ok(s) => s,
            Err(e) => return Err(e),
        };
        let slab_16_bytes = match Slab::from_raw_parts(addr + slab_size, slab_size, 16) {
            Ok(s) => s,
            Err(e) => return Err(e),
        };
        let slab_32_bytes = match Slab::from_raw_parts(addr + 2 * slab_size, slab_size, 32) {
            Ok(s) => s,
            Err(e) => return Err(e),
        };
        let slab_64_bytes = match Slab::from_raw_parts(addr + 3 * slab_size, slab_size, 64) {
            Ok(s) => s,
            Err(e) => return Err(e),
        };
        let slab_128_bytes = match Slab::from_raw_parts(addr + 4 * slab_size, slab_size, 128) {
            Ok(s) => s,
            Err(e) => return Err(e),
        };
        let slab_256_bytes = match Slab::from_raw_parts(addr + 5 * slab_size, slab_size, 256) {
            Ok(s) => s,
            Err(e) => return Err(e),
        };
        let slab_512_bytes = match Slab::from_raw_parts(addr + 6 * slab_size, slab_size, 512) {
            Ok(s) => s,
            Err(e) => return Err(e),
        };
        let slab_1024_bytes = match Slab::from_raw_parts(addr + 7 * slab_size, slab_size, 1024) {
            Ok(s) => s,
            Err(e) => return Err(e),
        };
        let h = Heap {
            slab_8_bytes,
            slab_16_bytes,
            slab_32_bytes,
            slab_64_bytes,
            slab_128_bytes,
            slab_256_bytes,
            slab_512_bytes,
            slab_1024_bytes,
        };
        proof {
            assert(h.slabs()[0] == slab_8_bytes);
            assert(h.slabs()[1] == slab_16_bytes);
            assert(h.slabs()[2] == slab_32_bytes);
            assert(h.slabs()[3] == slab_64_bytes);
            assert(h.slabs()[4] == slab_128_bytes);
            assert(h.slabs()[5] == slab_256_bytes);
            assert(h.slabs()[6] == slab_512_bytes);
            assert(h.slabs()[7] == slab_1024_bytes);
            assert(h.slice_len() == slab_size as int);
            assert forall|i: int| 0 <= i < 8 implies {
                &&& (#[trigger] h.slabs()[i]).wf()
                &&& h.slabs()[i].spec_block_size() == class_size(i)
                &&& h.slabs()[i].spec_num_blocks() * class_size(i) == h.slice_len()
                &&& h.slabs()[i].spec_base() == h.region_base() + i * h.slice_len()
            } by {
                if i == 0 {
                } else if i == 1 {
                } else if i == 2 {
                } else if i == 3 {
                } else if i == 4 {
                } else if i == 5 {
                } else if i == 6 {
                } else {
                    assert(i == 7);
                }
            }
            assert(h.wf());
        }
        Ok(h)
    }

    /// Allocates one block for `layout`: maps the requested size to
    /// its slab size and hands out a block from that class's pool,
    /// lowest address first. A
    /// request larger than the largest slab size is refused with
    /// `InvalidArgument`; an exhausted pool fails the whole request
    /// with `OutOfMemory` — there is no fallback to another pool even
    /// if it has free capacity, so one class can starve while others
    /// are idle (a deliberate fixed-partition design). The alignment
    /// is not used.
    pub fn allocate(&mut self, layout: Layout) -> (r: Result<usize, Error>)
        requires
            old(self).wf(),
        ensures
            final(self).wf(),
            old(self).same_geometry(*final(self)),
            layout.size > MAX_SLAB_SIZE ==> {
                &&& *final(self) == *old(self)
                &&& r matches Err(e) && e.code == ErrorCode::InvalidArgument
            },
            layout.size <= MAX_SLAB_SIZE ==> {
                let c = class_index_of_size(layout.size as int);
                &&& (r is Ok <==> old(self).slabs()[c].has_free())
                &&& (r matches Ok(p) ==> Heap::alloc_ok(*old(self), *final(self), c, p as int))
                &&& (r matches Ok(p) ==> forall|k: int|
                    0 <= k < old(self).slabs()[c].index_of(p as int)
                        ==> !old(self).slabs()[c].spec_free()[k])
                &&& (r matches Err(e) ==> {
                    &&& *final(self) == *old(self)
                    &&& e.code == ErrorCode::OutOfMemory
                })
            },
    {
        let class = match Heap::layout_to_allocator(&layout) {
            Ok(c) => c,
            Err(e) => return Err(e),
        };
        proof {
            lemma_slabs_elems(*self);
        }
        match class {
            SlabSize::Slab8 => {
                let r = self.slab_8_bytes.allocate();
                proof {
                    lemma_slabs_elems(*self);
                }
                r
            },
            SlabSize::Slab16 => {
                let r = self.slab_16_bytes.allocate();
                proof {
                    lemma_slabs_elems(*self);
                }
                r
            },
            SlabSize::Slab32 => {
                let r = self.slab_32_bytes.allocate();
                proof {
                    lemma_slabs_elems(*self);
                }
                r
            },
            SlabSize::Slab64 => {
                let r = self.slab_64_bytes.allocate();
                proof {
                    lemma_slabs_elems(*self);
                }
                r
            },
            SlabSize::Slab128 => {
                let r = self.slab_128_bytes.allocate();
                proof {
                    lemma_slabs_elems(*self);
                }
                r
            },
            SlabSize::Slab256 => {
                let r = self.slab_256_bytes.allocate();
                proof {
                    lemma_slabs_elems(*self);
                }
                r
            },
            SlabSize::Slab512 => {
                let r = self.slab_512_bytes.allocate();
                proof {
                    lemma_slabs_elems(*self);
                }
                r
            },
            SlabSize::Slab1024 => {
                let r = self.slab_1024_bytes.allocate();
                proof {
                    lemma_slabs_elems(*self);
                }
                r
            },
        }
    }

    /// Frees the block at `ptr`: re-derives the slab size from
    /// `layout` — which must be the exact layout used at allocation
    /// time, a caller obligation this allocator cannot check — and
    /// returns the block to that class's pool. Fails with
    /// `InvalidArgument` when the size maps to no class or when `ptr`
    /// is not a block of that pool currently in use.
    pub fn deallocate(&mut self, ptr: usize, layout: Layout) -> (r: Result<(), Error>)
        requires
            old(self).wf(),
        ensures
            final(self).wf(),
            old(self).same_geometry(*final(self)),
            layout.size > MAX_SLAB_SIZE ==> {
                &&& *final(self) == *old(self)
                &&& r matches Err(e) && e.code == ErrorCode::InvalidArgument
            },
            layout.size <= MAX_SLAB_SIZE ==> {
                let c = class_index_of_size(layout.size as int);
                &&& (r is Ok <==> old(self).slabs()[c].valid_used_block(ptr as int))
                &&& (r is Ok ==> Heap::dealloc_ok(*old(self), *final(self), c, ptr as int))
                &&& (r matches Err(e) ==> {
                    &&& *final(self) == *old(self)
                    &&& e.code == ErrorCode::InvalidArgument
                })
            },
    {
        let class = match Heap::layout_to_allocator(&layout) {
            Ok(c) => c,
            Err(e) => return Err(e),
        };
        proof {
            lemma_slabs_elems(*self);
        }
        match class {
            SlabSize::Slab8 => {
                let r = self.slab_8_bytes.deallocate(ptr);
                proof {
                    lemma_slabs_elems(*self);
                }
                r
            },
            SlabSize::Slab16 => {
                let r = self.slab_16_bytes.deallocate(ptr);
                proof {
                    lemma_slabs_elems(*self);
                }
                r
            },
            SlabSize::Slab32 => {
                let r = self.slab_32_bytes.deallocate(ptr);
                proof {
                    lemma_slabs_elems(*self);
                }
                r
            },
            SlabSize::Slab64 => {
                let r = self.slab_64_bytes.deallocate(ptr);
                proof {
                    lemma_slabs_elems(*self);
                }
                r
            },
            SlabSize::Slab128 => {
                let r = self.slab_128_bytes.deallocate(ptr);
                proof {
                    lemma_slabs_elems(*self);
                }
                r
            },
            SlabSize::Slab256 => {
                let r = self.slab_256_bytes.deallocate(ptr);
                proof {
                    lemma_slabs_elems(*self);
                }
                r
            },
            SlabSize::Slab512 => {
                let r = self.slab_512_bytes.deallocate(ptr);
                proof {
                    lemma_slabs_elems(*self);
                }
                r
            },
            SlabSize::Slab1024 => {
                let r = self.slab_1024_bytes.deallocate(ptr);
                proof {
                    lemma_slabs_elems(*self);
                }
                r
            },
        }
    }

    /// One-time initialization of the process-wide heap handle: builds
    /// the heap over `[addr, addr + size)` and stores it in `handle`.
    /// Fails with `ResourceBusy`, changing nothing, on every call
    /// after the first successful one; a rejected configuration (see
    /// `from_region`) also changes nothing, so a later call with a
    /// valid region can still succeed. Callers must serialize calls:
    /// the handle itself carries no lock.
    pub fn init(handle: &mut HeapHandle, addr: usize, size: usize) -> (r: Result<(), Error>)
        requires
            old(handle).wf(),
            addr >= 1,
            addr + size <= usize::MAX,
        ensures
            final(handle).wf(),
            old(handle).is_initialized() ==> {
                &&& r matches Err(e) && e.code == ErrorCode::ResourceBusy
                &&& *final(handle) == *old(handle)
            },
            !old(handle).is_initialized() ==> {
                &&& (r is Ok <==> size >= MIN_SIZE && size as int % MIN_SIZE as int == 0)
                &&& (r is Ok <==> final(handle).is_initialized())
                &&& (r is Ok ==> {
                    let h = final(handle).heap_of();
                    &&& h.wf()
                    &&& h.region_base() == addr
                    &&& h.region_size() == size
                    &&& h.all_free()
                })
                &&& (r matches Err(e) ==> {
                    &&& e.code == ErrorCode::InvalidArgument
                    &&& *final(handle) == *old(handle)
                })
            },
    {
        if handle.is_initialized_check() {
            return Err(Error::new(ErrorCode::ResourceBusy, "heap already initialized"));
        }
        let h = match Heap::from_region(addr, size) {
            Ok(h) => h,
            Err(e) => return Err(e),
        };
        handle.store(h);
        Ok(())
    }
}

/// The process-wide heap handle: holds no heap until the one-time
/// initialization call succeeds, then holds the single heap for the
/// remainder of the process's lifetime. There is no teardown path.
pub struct HeapHandle {
    heap: Option<Heap>,
}

impl HeapHandle {
    /// The heap the handle holds, if initialization has succeeded.
    pub closed spec fn spec_heap(self) -> Option<Heap> {
        self.heap
    }

    /// True once the one-time initialization has succeeded.
    pub open spec fn is_initialized(self) -> bool {
        self.spec_heap() is Some
    }

    /// The held heap (meaningful only when initialized).
    pub open spec fn heap_of(self) -> Heap {
        self.spec_heap()->Some_0
    }

    /// Structural invariant: whatever heap the handle holds is
    /// well-formed.
    pub open spec fn wf(self) -> bool {
        self.is_initialized() ==> self.heap_of().wf()
    }

    /// An empty handle, not yet initialized.
    pub fn new() -> (r: HeapHandle)
        ensures
            !r.is_initialized(),
            r.wf(),
    {
        HeapHandle { heap: None }
    }

    /// True once the one-time initialization has succeeded.
    pub fn is_initialized_check(&self) -> (r: bool)
        ensures
            r == self.is_initialized(),
    {
        self.heap.is_some()
    }

    /// Stores the heap built by the one-time initialization.
    fn store(&mut self, h: Heap)
        requires
            !old(self).is_initialized(),
        ensures
            final(self).is_initialized(),
            final(self).spec_heap() == Some(h),
    {
        self.heap = Some(h);
    }

    /// Allocation entry point of the ambient allocation interface: a
    /// null address (0) signals failure — when the handle is not yet
    /// initialized, the requested size fits no slab size, or the
    /// matching pool is exhausted — and the heap is then unchanged.
    /// This call never aborts the process.
    pub fn alloc_ptr(&mut self, layout: Layout) -> (r: usize)
        requires
            old(self).wf(),
        ensures
            final(self).wf(),
            final(self).is_initialized() == old(self).is_initialized(),
            !old(self).is_initialized() ==> r == 0 && *final(self) == *old(self),
            old(self).is_initialized() ==> {
                let h0 = old(self).heap_of();
                let h1 = final(self).heap_of();
                let c = class_index_of_size(layout.size as int);
                &&& h0.same_geometry(h1)
                &&& (r == 0 <==> !(layout.size <= MAX_SLAB_SIZE && h0.slabs()[c].has_free()))
                &&& (r == 0 ==> h1 == h0)
                &&& (r != 0 ==> layout.size <= MAX_SLAB_SIZE && Heap::alloc_ok(h0, h1, c, r as int))
            },
    {
        match &mut self.heap {
            Some(h) => {
                match h.allocate(layout) {
                    Ok(p) => {
                        proof {
                            let c = class_index_of_size(layout.size as int);
                            let s = old(self).heap_of().slabs()[c];
                            lemma_mul_nonnegative(s.index_of(p as int), s.spec_block_size());
                            assert(p >= 1);
                        }
                        p
                    },
                    Err(_) => 0,
                }
            },
            None => 0,
        }
    }

    /// Deallocation entry point of the ambient allocation interface:
    /// frees the block at `ptr` using the layout supplied at
    /// allocation time. A failure — handle not initialized, size
    /// fitting no slab size, or `ptr` not a block in use of the
    /// matching pool — is discarded silently and the heap is then
    /// unchanged: the interface carries no error signal on free, and
    /// this allocator never aborts the process on a secondary error.
    pub fn dealloc_ptr(&mut self, ptr: usize, layout: Layout)
        requires
            old(self).wf(),
        ensures
            final(self).wf(),
            final(self).is_initialized() == old(self).is_initialized(),
            !old(self).is_initialized() ==> *final(self) == *old(self),
            old(self).is_initialized() ==> {
                let h0 = old(self).heap_of();
                let h1 = final(self).heap_of();
                let c = class_index_of_size(layout.size as int);
                &&& h0.same_geometry(h1)
                &&& (layout.size <= MAX_SLAB_SIZE && h0.slabs()[c].valid_used_block(ptr as int)
                    ==> Heap::dealloc_ok(h0, h1, c, ptr as int))
                &&& (!(layout.size <= MAX_SLAB_SIZE && h0.slabs()[c].valid_used_block(ptr as int))
                    ==> h1 == h0)
            },
    {
        match &mut self.heap {
            Some(h) => {
                match h.deallocate(ptr, layout) {
                    Ok(_) => (),
                    Err(_) => (),
                }
            },
            None => (),
        }
    }
}

/// The partition law: in a well-formed heap the eight pools' slices
/// are equal in length, sorted in ascending class order, contiguous
/// (each slice ends exactly where the next begins), and together they
/// cover exactly the region `[region_base(), region_base() +
/// region_size())`; each pool's blocks fill its whole slice. Being
/// contiguous and sorted, the slices are pairwise non-overlapping.
pub proof fn lemma_pools_partition(h: Heap)
    requires
        h.wf(),
    ensures
        h.slice_len() >= MIN_SLAB_SIZE,
        h.slabs()[0].spec_base() == h.region_base(),
        forall|i: int|
            0 <= i < 7 ==> (#[trigger] h.slabs()[i]).spec_base() + h.slice_len()
                == h.slabs()[i + 1].spec_base(),
        h.slabs()[7].spec_base() + h.slice_len() == h.region_base() + h.region_size(),
        forall|i: int|
            0 <= i < 8 ==> (#[trigger] h.slabs()[i]).spec_num_blocks()
                * h.slabs()[i].spec_block_size() == h.slice_len(),
{
    assert(h.slice_len() >= MIN_SLAB_SIZE) by {
        assert(h.slabs()[7].spec_num_blocks() * class_size(7) == h.slice_len());
        lemma_mul_inequality(2, h.slabs()[7].spec_num_blocks(), 1024);
    }
    assert forall|i: int| 0 <= i < 7 implies (#[trigger] h.slabs()[i]).spec_base() + h.slice_len()
        == h.slabs()[i + 1].spec_base() by {
        if i == 0 {
        } else if i == 1 {
        } else if i == 2 {
        } else if i == 3 {
        } else if i == 4 {
        } else if i == 5 {
        } else {
            assert(i == 6);
        }
    }
}

/// In a well-formed heap whose blocks are all free — as just after
/// construction — every pool can serve at least one allocation.
pub proof fn lemma_all_free_has_free(h: Heap)
    requires
        h.wf(),
        h.all_free(),
    ensures
        forall|i: int| 0 <= i < 8 ==> (#[trigger] h.slabs()[i]).has_free(),
{
    assert forall|i: int| 0 <= i < 8 implies (#[trigger] h.slabs()[i]).has_free() by {
        assert(h.slabs()[i].spec_free()[0]);
    }
}

/// After a successful heap allocation of class `c` that handed out
/// the block at address `p`, that block is in use in the pool of
/// class `c`: a deallocation with the same request parameters is owed
/// success.
pub proof fn lemma_heap_alloc_gives_used_block(h0: Heap, h1: Heap, c: int, p: int)
    requires
        h0.wf(),
        0 <= c < 8,
        Heap::alloc_ok(h0, h1, c, p),
    ensures
        h1.slabs()[c].valid_used_block(p),
{
    crate::slab::lemma_alloc_gives_used_block(h0.slabs()[c], h1.slabs()[c], p);
}

/// Round trip: allocating a block of some class at address `p` and
/// then deallocating `p` with the same request parameters leaves
/// every pool exactly as it was, and in particular the freed block is
/// available to a subsequent allocation of the same class.
pub proof fn lemma_heap_alloc_dealloc_round_trip(h0: Heap, h1: Heap, h2: Heap, c: int, p: int)
    requires
        h0.wf(),
        0 <= c < 8,
        Heap::alloc_ok(h0, h1, c, p),
        Heap::dealloc_ok(h1, h2, c, p),
    ensures
        h0.same_geometry(h2),
        forall|j: int|
            0 <= j < 8 ==> (#[trigger] h2.slabs()[j]).spec_free() == h0.slabs()[j].spec_free(),
        h2.slabs()[c].has_free(),
{
    crate::slab::lemma_alloc_dealloc_round_trip(h0.slabs()[c], h1.slabs()[c], h2.slabs()[c], p);
}

} // verus!

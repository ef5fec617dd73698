//! A fixed-block pool: one contiguous address range subdivided into
//! equal-size blocks of a single size class, with free/used tracking.
//!
//! The pool manages the range purely as addresses: it records which
//! blocks are handed out and computes each block's address, but never
//! reads or writes the backing memory itself. The caller guarantees
//! that the range is real and exclusively owned by the pool.

use vstd::prelude::*;
use vstd::arithmetic::div_mod::{
    lemma_div_multiples_vanish,
    lemma_fundamental_div_mod,
    lemma_mod_division_less_than_divisor,
    lemma_mod_multiples_basic,
};
use vstd::arithmetic::mul::{lemma_mul_inequality, lemma_mul_is_commutative};

verus! {

/// A pool must be able to hold at least this many blocks to be usable.
pub const MIN_BLOCKS: usize = 2;

/// A fixed-block pool over the address range
/// `[base, base + num_blocks * block_size)`.
#[derive(Debug)]
pub struct Slab {
    base: usize,
    block_size: usize,
    num_blocks: usize,
    /// `free[i]` is true when block `i` is free.
    free: Vec<bool>,
}

impl Slab {
    /// Lowest address of the pool's range.
    pub closed spec fn spec_base(self) -> int {
        self.base as int
    }

    /// Size in bytes of every block of the pool.
    pub closed spec fn spec_block_size(self) -> int {
        self.block_size as int
    }

    /// Number of blocks the pool holds.
    pub closed spec fn spec_num_blocks(self) -> int {
        self.num_blocks as int
    }

    /// Free/used state of each block: `spec_free()[i]` is true when
    /// block `i` is free.
    pub closed spec fn spec_free(self) -> Seq<bool> {
        self.free@
    }

    /// Structural invariant: a non-null, overflow-free range holding at
    /// least `MIN_BLOCKS` blocks, with one tracking entry per block.
    pub open spec fn wf(self) -> bool {
        &&& self.spec_block_size() >= 1
        &&& self.spec_num_blocks() >= MIN_BLOCKS
        &&& self.spec_base() >= 1
        &&& self.spec_base() + self.spec_num_blocks() * self.spec_block_size() <= usize::MAX
        &&& self.spec_free().len() == self.spec_num_blocks()
    }

    /// Address of block `i`.
    pub open spec fn block_addr(self, i: int) -> int {
        self.spec_base() + i * self.spec_block_size()
    }

    /// Index of the block whose address is `p` (meaningful only when
    /// `p` lies on a block boundary of the pool).
    pub open spec fn index_of(self, p: int) -> int {
        (p - self.spec_base()) / self.spec_block_size()
    }

    /// True when some block is still free.
    pub open spec fn has_free(self) -> bool {
        exists|i: int| 0 <= i < self.spec_num_blocks() && self.spec_free()[i]
    }

    /// True when `p` is the address of one of the pool's blocks.
    pub open spec fn is_block_addr(self, p: int) -> bool {
        &&& self.spec_base() <= p
        &&& (p - self.spec_base()) % self.spec_block_size() == 0
        &&& self.index_of(p) < self.spec_num_blocks()
    }

    /// True when `p` is the address of a block that is currently
    /// handed out.
    pub open spec fn valid_used_block(self, p: int) -> bool {
        &&& self.is_block_addr(p)
        &&& !self.spec_free()[self.index_of(p)]
    }

    /// The two pools have the same range and block geometry.
    pub open spec fn same_geometry(self, other: Slab) -> bool {
        &&& other.spec_base() == self.spec_base()
        &&& other.spec_block_size() == self.spec_block_size()
        &&& other.spec_num_blocks() == self.spec_num_blocks()
    }

    /// A successful allocation step: `post` is `pre` with the block at
    /// address `p` taken, and nothing else changed.
    pub open spec fn alloc_ok_transition(pre: Slab, post: Slab, p: int) -> bool {
        let i = pre.index_of(p);
        &&& 0 <= i < pre.spec_num_blocks()
        &&& p == pre.block_addr(i)
        &&& pre.spec_free()[i]
        &&& pre.same_geometry(post)
        &&& post.spec_free() == pre.spec_free().update(i, false)
    }

    /// A successful deallocation step: `post` is `pre` with the block
    /// at address `p` returned, and nothing else changed.
    pub open spec fn dealloc_ok_transition(pre: Slab, post: Slab, p: int) -> bool {
        &&& pre.valid_used_block(p)
        &&& pre.same_geometry(post)
        &&& post.spec_free() == pre.spec_free().update(pre.index_of(p), true)
    }

    /// Builds a pool over `[base, base + len)` with blocks of
    /// `block_size` bytes, all free. The range must be non-null and
    /// must not wrap around the address space. Construction fails with
    /// `InvalidArgument` when the blocks would be zero-sized or the
    /// range is too small to hold a minimum usable number of blocks;
    /// trailing space smaller than one block is left unused.
    pub fn from_raw_parts(base: usize, len: usize, block_size: usize) -> (r: Result<
        Slab,
        crate::errors::Error,
    >)
        requires
            base >= 1,
            base + len <= usize::MAX,
        ensures
            r is Ok <==> block_size >= 1 && len as int / block_size as int >= MIN_BLOCKS,
            r matches Ok(s) ==> {
                &&& s.wf()
                &&& s.spec_base() == base
                &&& s.spec_block_size() == block_size
                &&& s.spec_num_blocks() == len as int / block_size as int
                &&& forall|i: int| 0 <= i < s.spec_num_blocks() ==> s.spec_free()[i]
            },
            r matches Err(e) ==> e.code == crate::errors::ErrorCode::InvalidArgument,
    {
        if block_size == 0 {
            return Err(crate::errors::Error::new(
                crate::errors::ErrorCode::InvalidArgument,
                "block size must not be zero",
            ));
        }
        let num_blocks: usize = len / block_size;
        if num_blocks < MIN_BLOCKS {
            return Err(crate::errors::Error::new(
                crate::errors::ErrorCode::InvalidArgument,
                "region too small for a minimum usable number of blocks",
            ));
        }
        proof {
            lemma_fundamental_div_mod(len as int, block_size as int);
            lemma_mod_division_less_than_divisor(len as int, block_size as int);
            lemma_mul_is_commutative(num_blocks as int, block_size as int);
            assert(num_blocks as int * block_size as int <= len as int);
        }
        let mut free: Vec<bool> = Vec::new();
        let mut i: usize = 0;
        while i < num_blocks
            invariant
                i <= num_blocks,
                free@.len() == i,
                forall|k: int| 0 <= k < i ==> free@[k],
            decreases num_blocks - i,
        {
            free.push(true);
            i = i + 1;
        }
        Ok(Slab { base, block_size, num_blocks, free })
    }

    /// Hands out one free block, lowest address first. Fails with
    /// `OutOfMemory`, leaving the pool untouched, exactly when every
    /// block is already handed out.
    pub fn allocate(&mut self) -> (r: Result<usize, crate::errors::Error>)
        requires
            old(self).wf(),
        ensures
            final(self).wf(),
            old(self).same_geometry(*final(self)),
            r is Ok <==> old(self).has_free(),
            r matches Ok(p) ==> Slab::alloc_ok_transition(*old(self), *final(self), p as int),
            r matches Ok(p) ==> forall|k: int|
                0 <= k < old(self).index_of(p as int) ==> !old(self).spec_free()[k],
            r matches Err(e) ==> {
                &&& *final(self) == *old(self)
                &&& e.code == crate::errors::ErrorCode::OutOfMemory
            },
    {
        let mut i: usize = 0;
        while i < self.num_blocks
            invariant
                *self == *old(self),
                old(self).wf(),
                i <= self.num_blocks,
                forall|k: int| 0 <= k < i ==> !self.free@[k],
            decreases self.num_blocks - i,
        {
            if self.free[i] {
                proof {
                    lemma_mul_inequality(
                        i as int,
                        self.num_blocks as int,
                        self.block_size as int,
                    );
                    lemma_div_multiples_vanish(i as int, self.block_size as int);
                    lemma_mul_is_commutative(i as int, self.block_size as int);
                }
                let p: usize = self.base + i * self.block_size;
                self.free[i] = false;
                proof {
                    assert(old(self).index_of(p as int) == i);
                }
                return Ok(p);
            }
            i = i + 1;
        }
        Err(crate::errors::Error::new(
            crate::errors::ErrorCode::OutOfMemory,
            "no free block left in this pool",
        ))
    }

    /// Takes back the block at address `p`. Fails with
    /// `InvalidArgument`, leaving the pool untouched, exactly when `p`
    /// is not the address of a currently handed-out block of this pool
    /// (out of range, not on a block boundary, or already free).
    pub fn deallocate(&mut self, p: usize) -> (r: Result<(), crate::errors::Error>)
        requires
            old(self).wf(),
        ensures
            final(self).wf(),
            old(self).same_geometry(*final(self)),
            r is Ok <==> old(self).valid_used_block(p as int),
            r is Ok ==> Slab::dealloc_ok_transition(*old(self), *final(self), p as int),
            r matches Err(e) ==> {
                &&& *final(self) == *old(self)
                &&& e.code == crate::errors::ErrorCode::InvalidArgument
            },
    {
        let invalid = crate::errors::Error::new(
            crate::errors::ErrorCode::InvalidArgument,
            "address does not name a block in use by this pool",
        );
        if p < self.base {
            return Err(invalid);
        }
        let offset: usize = p - self.base;
        if offset % self.block_size != 0 {
            return Err(invalid);
        }
        let i: usize = offset / self.block_size;
        if i >= self.num_blocks {
            return Err(invalid);
        }
        if self.free[i] {
            return Err(invalid);
        }
        self.free[i] = true;
        proof {
            lemma_fundamental_div_mod(offset as int, self.block_size as int);
            lemma_mul_is_commutative(self.block_size as int, i as int);
            assert(p as int == old(self).block_addr(i as int));
        }
        Ok(())
    }
}

/// After a successful allocation step that handed out the block at
/// address `p`, that block is in use: a deallocation of `p` is owed
/// success.
pub proof fn lemma_alloc_gives_used_block(s0: Slab, s1: Slab, p: int)
    requires
        s0.wf(),
        Slab::alloc_ok_transition(s0, s1, p),
    ensures
        s1.valid_used_block(p),
{
    let i = s0.index_of(p);
    lemma_mul_is_commutative(i, s0.spec_block_size());
    lemma_mod_multiples_basic(i, s0.spec_block_size());
    lemma_div_multiples_vanish(i, s0.spec_block_size());
    assert((p - s1.spec_base()) % s1.spec_block_size() == 0);
    assert(s1.index_of(p) == i);
}

/// Round trip: allocating a block at address `p` and then returning
/// it leaves the pool exactly as it was, and in particular the freed
/// block is available to a subsequent allocation of the same pool.
pub proof fn lemma_alloc_dealloc_round_trip(s0: Slab, s1: Slab, s2: Slab, p: int)
    requires
        s0.wf(),
        Slab::alloc_ok_transition(s0, s1, p),
        Slab::dealloc_ok_transition(s1, s2, p),
    ensures
        s0.same_geometry(s2),
        s2.spec_free() == s0.spec_free(),
        s2.has_free(),
{
    let i = s0.index_of(p);
    assert(s1.index_of(p) == i);
    assert(s2.spec_free() =~= s0.spec_free());
    assert(s2.spec_free()[i]);
}

} // verus!

//! A bump-pointer heap for the single-threaded boot environment.
//!
//! Blocks are handed out in increasing addresses; memory is only reused
//! once every block has been given back.

use vstd::prelude::*;
use vstd::bits::{low_bits_mask, lemma_usize_low_bits_mask_is_mod, lemma_usize_pow2_no_overflow};
use vstd::arithmetic::power2::{pow2, lemma_pow2_pos};

verus! {

/// Whether `align` is a power of two that a `usize` can hold.
pub open spec fn is_power_of_two(align: usize) -> bool {
    exists|n: nat| n < usize::BITS && align as nat == pow2(n)
}

/// `addr` rounded up to a multiple of `align`.
pub open spec fn spec_align_up(addr: int, align: int) -> int {
    (addr + align - 1) / align * align
}

proof fn lemma_and_not(y: usize, m: usize)
    by (bit_vector)
    ensures
        y & !m == y - (y & m),
        y & m <= y,
{
}

/// Aligns `addr` upwards to `align`.
fn align_up(addr: usize, align: usize) -> (r: usize)
    requires
        is_power_of_two(align),
        addr + align - 1 <= usize::MAX,
    ensures
        r == spec_align_up(addr as int, align as int),
        r % align == 0,
        addr <= r < addr + align,
{
    let ghost n = choose|n: nat| n < usize::BITS && align as nat == pow2(n);
    proof {
        lemma_pow2_pos(n);
    }
    let y = addr + (align - 1);
    proof {
        lemma_usize_pow2_no_overflow(n);
        assert(align - 1 == low_bits_mask(n));
        lemma_usize_low_bits_mask_is_mod(y, n);
        lemma_and_not(y, (align - 1) as usize);
        assert(y == y / align * align + y % align) by (nonlinear_arith)
            requires
                align > 0,
        ;
        assert((y / align * align) % (align as int) == 0) by (nonlinear_arith)
            requires
                align > 0,
        ;
    }
    (addr + (align - 1)) & !(align - 1)
}

/// The bump allocator: the heap is `[heap_start, heap_end)`, `next` is the
/// first free byte and `allocations` counts the blocks not yet given back.
/// A `heap_start` of 0 means the heap has not been set up.
pub struct BumpAllocator {
    heap_start: usize,
    heap_end: usize,
    next: usize,
    allocations: usize,
}

impl BumpAllocator {
    pub closed spec fn start(self) -> usize {
        self.heap_start
    }

    pub closed spec fn end(self) -> usize {
        self.heap_end
    }

    /// First byte not yet handed out.
    pub closed spec fn next_free(self) -> usize {
        self.next
    }

    /// Blocks handed out and not given back.
    pub closed spec fn live(self) -> usize {
        self.allocations
    }

    /// The free pointer stays within the heap.
    pub open spec fn wf(self) -> bool {
        self.start() <= self.next_free() <= self.end()
    }

    /// Where a block of `size` bytes aligned to `align` would start.
    pub open spec fn block_start(self, align: usize) -> int {
        spec_align_up(self.next_free() as int, align as int)
    }

    /// Whether a block of `size` bytes aligned to `align` can be handed out.
    pub open spec fn fits(self, size: usize, align: usize) -> bool {
        &&& self.start() != 0
        &&& self.block_start(align) + size <= usize::MAX
        &&& self.block_start(align) + size <= self.end()
    }

    /// The allocator after handing out a block of `size` bytes aligned to
    /// `align`: the free pointer moves past the block and one more block is
    /// live.
    pub closed spec fn allocated(self, size: usize, align: usize) -> BumpAllocator {
        BumpAllocator {
            heap_start: self.heap_start,
            heap_end: self.heap_end,
            next: (self.block_start(align) + size) as usize,
            allocations: (self.allocations + 1) as usize,
        }
    }

    /// What `allocated` changes.
    pub proof fn lemma_allocated(self, size: usize, align: usize)
        requires
            self.fits(size, align),
            self.live() < usize::MAX,
        ensures
            self.allocated(size, align).start() == self.start(),
            self.allocated(size, align).end() == self.end(),
            self.allocated(size, align).next_free() == self.block_start(align) + size,
            self.allocated(size, align).live() == self.live() + 1,
    {
    }

    /// An allocator with no heap yet.
    pub fn new() -> (r: Self)
        ensures
            r.start() == 0 && r.end() == 0 && r.next_free() == 0 && r.live() == 0,
            r.wf(),
    {
        Self { heap_start: 0, heap_end: 0, next: 0, allocations: 0 }
    }

    /// The first byte not yet handed out.
    pub fn next_free_address(&self) -> (r: usize)
        ensures
            r == self.next_free(),
    {
        self.next
    }

    /// The number of blocks handed out and not given back.
    pub fn live_blocks(&self) -> (r: usize)
        ensures
            r == self.live(),
    {
        self.allocations
    }

    /// Hands the allocator the heap `[heap_start, heap_start + heap_size)`.
    pub fn init(&mut self, heap_start: usize, heap_size: usize)
        requires
            heap_start + heap_size <= usize::MAX,
        ensures
            final(self).start() == heap_start,
            final(self).end() == heap_start + heap_size,
            final(self).next_free() == heap_start,
            final(self).live() == old(self).live(),
            final(self).wf(),
    {
        self.heap_start = heap_start;
        self.heap_end = heap_start + heap_size;
        self.next = heap_start;
    }

    /// Hands out `size` bytes aligned to `align`; 0 when the heap is not set
    /// up or the block does not fit.
    pub fn allocate(&mut self, size: usize, align: usize) -> (r: usize)
        requires
            old(self).wf(),
            is_power_of_two(align),
            old(self).start() != 0 ==> old(self).next_free() + align - 1 <= usize::MAX,
            old(self).fits(size, align) ==> old(self).live() < usize::MAX,
        ensures
            final(self).wf(),
            final(self).start() == old(self).start(),
            final(self).end() == old(self).end(),
            old(self).fits(size, align) ==> {
                &&& r == old(self).block_start(align)
                &&& r != 0
                &&& r % align == 0
                &&& old(self).next_free() <= r
                &&& r + size <= old(self).end()
                &&& final(self).next_free() == r + size
                &&& final(self).live() == old(self).live() + 1
                &&& *final(self) == old(self).allocated(size, align)
            },
            !old(self).fits(size, align) ==> r == 0 && *final(self) == *old(self),
    {
        let heap_start = self.heap_start;
        let heap_end = self.heap_end;
        let next = self.next;
        if heap_start == 0 {
            return 0;
        }
        let alloc_start = align_up(next, align);
        let alloc_end = match alloc_start.checked_add(size) {
            Some(end) => end,
            None => return 0,
        };
        if alloc_end > heap_end {
            return 0;
        }
        self.next = alloc_end;
        self.allocations = self.allocations + 1;
        alloc_start
    }

    /// Gives a block back; when none is left the whole heap is free again.
    pub fn deallocate(&mut self)
        requires
            old(self).wf(),
            old(self).live() > 0,
        ensures
            final(self).wf(),
            final(self).start() == old(self).start(),
            final(self).end() == old(self).end(),
            final(self).live() == old(self).live() - 1,
            final(self).next_free() == if final(self).live() == 0 {
                old(self).start()
            } else {
                old(self).next_free()
            },
    {
        self.allocations = self.allocations - 1;
        if self.allocations == 0 {
            self.next = self.heap_start;
        }
    }
}

/// Rounding up never moves an address down.
proof fn lemma_align_up_ge(x: int, align: int)
    requires
        x >= 0,
        align > 0,
    ensures
        spec_align_up(x, align) >= x,
{
    assert((x + align - 1) / align * align >= x) by (nonlinear_arith)
        requires
            x >= 0,
            align > 0,
    {
        let q = (x + align - 1) / align;
        let r = (x + align - 1) % align;
        assert(x + align - 1 == q * align + r);
        assert(r < align);
    }
}

/// Blocks handed out one after the other do not overlap: the second starts
/// at or after the end of the first.
pub proof fn law_blocks_disjoint(
    heap: BumpAllocator,
    size1: usize,
    align1: usize,
    size2: usize,
    align2: usize,
)
    requires
        heap.wf(),
        heap.fits(size1, align1),
        heap.live() < usize::MAX,
        is_power_of_two(align2),
        heap.allocated(size1, align1).fits(size2, align2),
    ensures
        heap.block_start(align1) + size1 <= heap.allocated(size1, align1).block_start(align2),
{
    let next = heap.allocated(size1, align1);
    heap.lemma_allocated(size1, align1);
    assert(align2 > 0) by {
        let n = choose|n: nat| n < usize::BITS && align2 as nat == pow2(n);
        lemma_pow2_pos(n);
    }
    lemma_align_up_ge(next.next_free() as int, align2 as int);
}

} // verus!

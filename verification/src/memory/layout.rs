//! Where the boot loader places the kernel, its stack and its heap.
//!
//! The higher-half model: low memory is identity-mapped (at least 4 GiB),
//! the kernel runs at `KERNEL_VIRT_ADDR`.

use vstd::prelude::*;

verus! {

/// Physical address where the kernel is loaded when possible (1 MiB).
pub const KERNEL_LOAD_ADDR: u64 = 0x100_000;

/// Virtual base the kernel is linked for.
pub const KERNEL_VIRT_ADDR: u64 = 0xFFFF_8000_0000_0000;

/// Stack the boot loader prepares for the kernel (64 KiB).
pub const KERNEL_STACK_SIZE: u64 = 0x10000;

/// Heap of the boot loader (4 MiB).
pub const BOOTLOADER_HEAP_SIZE: usize = 0x40_0000;

/// Page size (4 KiB).
pub const PAGE_SIZE: u64 = 4096;

/// Whether `addr` is page aligned.
pub fn is_aligned(addr: u64) -> (r: bool)
    ensures
        r == (addr % PAGE_SIZE == 0),
{
    addr % PAGE_SIZE == 0
}

} // verus!

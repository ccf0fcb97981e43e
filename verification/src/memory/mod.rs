//! Memory management of the boot loader: frame allocation, page tables,
//! the heap bookkeeping and the memory map handed to the kernel.

pub mod allocator;
pub mod bump_allocator;
pub mod handoff;
pub mod layout;
pub mod map;
pub mod paging;
pub mod region;

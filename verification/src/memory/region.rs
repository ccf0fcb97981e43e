//! Physical memory regions as the kernel sees them.

use vstd::prelude::*;

verus! {

/// Kinds of memory the boot loader reports.
#[derive(Debug, Clone, Copy, PartialEq, Eq, Structural)]
pub enum MemoryRegionKind {
    /// Free RAM.
    Usable,
    /// In use by the boot loader (the kernel may reclaim it).
    Bootloader,
    /// Kernel code or loaded modules.
    Kernel,
    /// Reserved by hardware or firmware; never touched.
    Reserved,
    /// Defective memory.
    BadMemory,
}

/// A contiguous range of physical memory, in 4 KiB pages.
#[derive(Debug, Clone, Copy)]
pub struct PhysicalMemoryRegion {
    pub start: u64,
    pub page_count: usize,
    pub kind: MemoryRegionKind,
}

impl PhysicalMemoryRegion {
    /// Size of the region in bytes.
    pub open spec fn spec_size(self) -> int {
        self.page_count * 4096
    }

    /// First byte after the region.
    pub open spec fn spec_end(self) -> int {
        self.start + self.page_count * 4096
    }

    /// Start address in bytes.
    pub fn start_addr(&self) -> (r: u64)
        ensures
            r == self.start,
    {
        self.start
    }

    /// End address in bytes (exclusive).
    pub fn end_addr(&self) -> (r: u64)
        requires
            self.spec_end() <= u64::MAX,
        ensures
            r == self.spec_end(),
    {
        self.start + (self.page_count as u64 * 4096)
    }

    /// Size in bytes.
    pub fn size_in_bytes(&self) -> (r: u64)
        requires
            self.spec_size() <= u64::MAX,
        ensures
            r == self.spec_size(),
    {
        self.page_count as u64 * 4096
    }
}

/// A region ends exactly its size after its start.
pub proof fn law_region_end_is_start_plus_size(r: PhysicalMemoryRegion)
    ensures
        r.spec_end() == r.start + r.spec_size(),
{
}

} // verus!

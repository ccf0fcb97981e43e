//! The execution environment the boot loader runs in: what it asks of the
//! firmware, and the values that come back.

use vstd::prelude::*;

pub mod uefi;

verus! {

/// Kind of memory the environment allocated.
#[derive(Debug, Clone, Copy, PartialEq, Eq, Structural)]
pub enum OsMemoryKind {
    /// Free memory.
    Free,
    /// Reserved by hardware or firmware.
    Reserved,
    /// Reclaimable after boot (temporary tables and the like).
    Reclaim,
    /// Boot-loader or kernel code.
    Code,
    /// Boot-loader or kernel data.
    Data,
}

/// An entry of the environment's memory map.
#[derive(Debug, Clone, Copy)]
pub struct OsMemoryEntry {
    /// Physical base address.
    pub base: u64,
    /// Size in bytes.
    pub size: u64,
    /// Kind of memory.
    pub kind: OsMemoryKind,
}

/// A key read from the console.
#[derive(Debug, Clone, Copy, PartialEq, Eq)]
pub enum OsKey {
    Backspace,
    Enter,
    Char(char),
    Up,
    Down,
    Right,
    Left,
    Delete,
    Other,
}

/// What the environment provides to the paging and loading code.
pub trait Os {
    /// Allocates `size` bytes of zeroed, page-aligned memory; returns its
    /// physical address, or 0 on failure.
    fn alloc_zeroed_page_aligned(&self, size: usize) -> u64;

    /// Maps memory, where the environment pages on its own.
    fn map_memory(&self, phys: u64, virt: u64, size: u64, flags: u64);

    /// Records a region the boot loader uses.
    fn add_memory_entry(&self, entry: OsMemoryEntry);
}

} // verus!

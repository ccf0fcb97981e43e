//! The structure handed to the kernel at its entry point.

use vstd::prelude::*;

use super::region::PhysicalMemoryRegion;

verus! {

/// Boot information for the kernel: plain data only, nothing that refers
/// to firmware services.
#[derive(Debug)]
pub struct BootInfo {
    /// Version of this structure.
    pub version: u64,
    /// Memory map prepared for the kernel.
    pub memory_map: &'static [PhysicalMemoryRegion],
    /// Physical address of the active PML4.
    pub page_table_cr3: u64,
    /// Virtual address the kernel is mapped at.
    pub kernel_virt_base: u64,
    /// Physical address the kernel was loaded at.
    pub kernel_phys_base: u64,
    /// Size of the kernel in bytes.
    pub kernel_size: u64,
}

impl BootInfo {
    /// Signature that marks a valid boot-information block ("IGNITEOS").
    pub const MAGIC: u64 = 0x4947_4E49_5445_4F53;
}

} // verus!

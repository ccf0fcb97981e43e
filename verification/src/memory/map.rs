//! The firmware memory map, translated into the boot loader's regions.
//!
//! Firmware descriptors are classified into a few kinds and empty ones are
//! dropped; the rest of the boot loader only sees `PhysicalMemoryRegion`.

use vstd::prelude::*;

use super::region::{MemoryRegionKind, PhysicalMemoryRegion};

verus! {

/// UEFI memory type: loader code.
pub const EFI_LOADER_CODE: u32 = 1;

/// UEFI memory type: loader data.
pub const EFI_LOADER_DATA: u32 = 2;

/// UEFI memory type: boot-services code.
pub const EFI_BOOT_SERVICES_CODE: u32 = 3;

/// UEFI memory type: boot-services data.
pub const EFI_BOOT_SERVICES_DATA: u32 = 4;

/// UEFI memory type: runtime-services code.
pub const EFI_RUNTIME_SERVICES_CODE: u32 = 5;

/// UEFI memory type: runtime-services data.
pub const EFI_RUNTIME_SERVICES_DATA: u32 = 6;

/// UEFI memory type: conventional (free) memory.
pub const EFI_CONVENTIONAL_MEMORY: u32 = 7;

/// UEFI memory type: ACPI tables that may be reclaimed.
pub const EFI_ACPI_RECLAIM_MEMORY: u32 = 9;

/// UEFI memory type: ACPI non-volatile storage.
pub const EFI_ACPI_MEMORY_NVS: u32 = 10;

/// A firmware memory descriptor: its type, first physical address and
/// number of 4 KiB pages.
#[derive(Debug, Clone, Copy)]
pub struct MemoryDescriptor {
    pub ty: u32,
    pub physical_start: u64,
    pub page_count: u64,
}

/// The region kind a firmware memory type becomes.
pub open spec fn region_kind(ty: u32) -> MemoryRegionKind {
    if ty == EFI_CONVENTIONAL_MEMORY {
        MemoryRegionKind::Usable
    } else if ty == EFI_LOADER_CODE || ty == EFI_LOADER_DATA {
        MemoryRegionKind::Bootloader
    } else {
        MemoryRegionKind::Reserved
    }
}

/// The region a descriptor becomes.
pub open spec fn region_of(d: MemoryDescriptor) -> PhysicalMemoryRegion {
    PhysicalMemoryRegion {
        start: d.physical_start,
        page_count: d.page_count as usize,
        kind: region_kind(d.ty),
    }
}

/// The regions a list of descriptors becomes: empty descriptors are
/// dropped, the others are translated in order.
pub open spec fn regions_of(ds: Seq<MemoryDescriptor>) -> Seq<PhysicalMemoryRegion>
    decreases ds.len(),
{
    if ds.len() == 0 {
        Seq::empty()
    } else if ds[0].page_count == 0 {
        regions_of(ds.drop_first())
    } else {
        seq![region_of(ds[0])] + regions_of(ds.drop_first())
    }
}

/// Iterator over the non-empty descriptors of a memory map, as regions.
pub struct MemoryMapIter<'a> {
    descriptors: &'a [MemoryDescriptor],
    index: usize,
}

impl<'a> MemoryMapIter<'a> {
    /// The regions still to come.
    pub closed spec fn view(self) -> Seq<PhysicalMemoryRegion> {
        regions_of(self.descriptors@.subrange(self.index as int, self.descriptors@.len() as int))
    }

    /// The position is within the map.
    pub closed spec fn inv(self) -> bool {
        self.index <= self.descriptors@.len()
    }

    /// Starts at the first descriptor.
    pub fn new(descriptors: &'a [MemoryDescriptor]) -> (r: Self)
        ensures
            r@ == regions_of(descriptors@),
            r.inv(),
    {
        let r = Self { descriptors, index: 0 };
        assert(descriptors@.subrange(0, descriptors@.len() as int) =~= descriptors@);
        r
    }

    /// The next region, skipping empty descriptors.
    pub fn next(&mut self) -> (r: Option<PhysicalMemoryRegion>)
        requires
            old(self).inv(),
        ensures
            final(self).inv(),
            old(self)@.len() == 0 ==> r is None && final(self)@.len() == 0,
            old(self)@.len() > 0 ==> r == Some(old(self)@[0]) && final(self)@ == old(self)@.drop_first(),
    {
        while self.index < self.descriptors.len()
            invariant
                self.inv(),
                self@ == old(self)@,
                self.descriptors == old(self).descriptors,
            decreases self.descriptors@.len() - self.index,
        {
            let desc = self.descriptors[self.index];
            let ghost rest = self.descriptors@.subrange(self.index as int, self.descriptors@.len() as int);
            assert(rest.drop_first() =~= self.descriptors@.subrange(
                self.index + 1,
                self.descriptors@.len() as int,
            ));
            let kind = if desc.ty == EFI_CONVENTIONAL_MEMORY {
                MemoryRegionKind::Usable
            } else if desc.ty == EFI_LOADER_CODE || desc.ty == EFI_LOADER_DATA {
                MemoryRegionKind::Bootloader
            } else if desc.ty == EFI_ACPI_RECLAIM_MEMORY || desc.ty == EFI_ACPI_MEMORY_NVS {
                MemoryRegionKind::Reserved
            } else if desc.ty == EFI_RUNTIME_SERVICES_CODE || desc.ty == EFI_RUNTIME_SERVICES_DATA {
                MemoryRegionKind::Reserved
            } else {
                MemoryRegionKind::Reserved
            };
            self.index = self.index + 1;
            if desc.page_count == 0 {
                continue;
            }
            let region = PhysicalMemoryRegion {
                start: desc.physical_start,
                page_count: desc.page_count as usize,
                kind,
            };
            assert(region == region_of(rest[0]));
            return Some(region);
        }
        assert(self.descriptors@.subrange(self.index as int, self.descriptors@.len() as int) =~= Seq::<
            MemoryDescriptor,
        >::empty());
        None
    }
}

} // verus!

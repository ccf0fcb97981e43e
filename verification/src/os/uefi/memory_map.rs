//! The firmware memory map as the environment's memory entries.

use vstd::prelude::*;

use crate::memory::map::{
    MemoryDescriptor,
    EFI_ACPI_RECLAIM_MEMORY,
    EFI_BOOT_SERVICES_CODE,
    EFI_BOOT_SERVICES_DATA,
    EFI_CONVENTIONAL_MEMORY,
    EFI_LOADER_CODE,
    EFI_LOADER_DATA,
    EFI_RUNTIME_SERVICES_CODE,
    EFI_RUNTIME_SERVICES_DATA,
};
use crate::os::{OsMemoryEntry, OsMemoryKind};

verus! {

/// The kind a firmware memory type becomes: free for conventional memory;
/// reclaimable for loader, boot-services and ACPI-reclaim memory;
/// reserved otherwise.
pub open spec fn os_kind(ty: u32) -> OsMemoryKind {
    if ty == EFI_CONVENTIONAL_MEMORY {
        OsMemoryKind::Free
    } else if ty == EFI_LOADER_CODE || ty == EFI_LOADER_DATA || ty == EFI_BOOT_SERVICES_CODE || ty
        == EFI_BOOT_SERVICES_DATA || ty == EFI_ACPI_RECLAIM_MEMORY {
        OsMemoryKind::Reclaim
    } else {
        OsMemoryKind::Reserved
    }
}

/// The entry a descriptor becomes.
pub open spec fn entry_of(d: MemoryDescriptor) -> OsMemoryEntry {
    OsMemoryEntry { base: d.physical_start, size: (d.page_count * 4096) as u64, kind: os_kind(d.ty) }
}

fn kind_of(ty: u32) -> (r: OsMemoryKind)
    ensures
        r == os_kind(ty),
{
    if ty == EFI_CONVENTIONAL_MEMORY {
        OsMemoryKind::Free
    } else if ty == EFI_LOADER_CODE || ty == EFI_LOADER_DATA {
        OsMemoryKind::Reclaim
    } else if ty == EFI_BOOT_SERVICES_CODE || ty == EFI_BOOT_SERVICES_DATA {
        OsMemoryKind::Reclaim
    } else if ty == EFI_RUNTIME_SERVICES_CODE || ty == EFI_RUNTIME_SERVICES_DATA {
        OsMemoryKind::Reserved
    } else if ty == EFI_ACPI_RECLAIM_MEMORY {
        OsMemoryKind::Reclaim
    } else {
        OsMemoryKind::Reserved
    }
}

/// The memory map, one entry per descriptor, and a position in it.
pub struct MemoryMapIter {
    entries: Vec<OsMemoryEntry>,
    index: usize,
}

impl MemoryMapIter {
    /// The entries still to come.
    pub closed spec fn view(self) -> Seq<OsMemoryEntry> {
        self.entries@.subrange(self.index as int, self.entries@.len() as int)
    }

    /// The position is within the map.
    pub closed spec fn inv(self) -> bool {
        self.index <= self.entries@.len()
    }

    /// The entries of the descriptors the firmware returned.
    pub fn new(descriptors: &[MemoryDescriptor]) -> (r: Self)
        requires
            forall|i: int|
                0 <= i < descriptors@.len() ==> (#[trigger] descriptors@[i]).page_count * 4096
                    <= u64::MAX,
        ensures
            r.inv(),
            r@ == descriptors@.map_values(|d: MemoryDescriptor| entry_of(d)),
    {
        let mut entries: Vec<OsMemoryEntry> = Vec::new();
        let mut i: usize = 0;
        while i < descriptors.len()
            invariant
                i <= descriptors@.len(),
                forall|x: int|
                    0 <= x < descriptors@.len() ==> (#[trigger] descriptors@[x]).page_count * 4096
                        <= u64::MAX,
                entries@ == descriptors@.subrange(0, i as int).map_values(
                    |d: MemoryDescriptor| entry_of(d),
                ),
            decreases descriptors@.len() - i,
        {
            let desc = descriptors[i];
            let kind = kind_of(desc.ty);
            entries.push(OsMemoryEntry { base: desc.physical_start, size: desc.page_count * 4096, kind });
            i = i + 1;
            assert(entries@ =~= descriptors@.subrange(0, i as int).map_values(
                |d: MemoryDescriptor| entry_of(d),
            ));
        }
        let r = Self { entries, index: 0 };
        assert(r@ =~= descriptors@.map_values(|d: MemoryDescriptor| entry_of(d)));
        r
    }

    /// The next entry.
    pub fn next(&mut self) -> (r: Option<OsMemoryEntry>)
        requires
            old(self).inv(),
        ensures
            final(self).inv(),
            old(self)@.len() == 0 ==> r is None && final(self)@.len() == 0,
            old(self)@.len() > 0 ==> r == Some(old(self)@[0]) && final(self)@ == old(self)@.drop_first(),
    {
        if self.index < self.entries.len() {
            let entry = self.entries[self.index];
            self.index = self.index + 1;
            assert(self@ =~= old(self)@.drop_first());
            Some(entry)
        } else {
            None
        }
    }
}

/// The kinds of the UEFI memory types (numbered as in the UEFI
/// specification): conventional memory (7) is free; loader code and data
/// (1, 2), boot-services code and data (3, 4) and ACPI reclaim memory (9)
/// are reclaimable; every other type is reserved.
pub proof fn law_memory_kinds(ty: u32)
    ensures
        (os_kind(ty) == OsMemoryKind::Free) <==> ty == 7,
        (os_kind(ty) == OsMemoryKind::Reclaim) <==> (ty == 1 || ty == 2 || ty == 3 || ty == 4 || ty == 9),
        (os_kind(ty) == OsMemoryKind::Reserved) <==> !(ty == 1 || ty == 2 || ty == 3 || ty == 4 || ty == 7
            || ty == 9),
{
}

} // verus!

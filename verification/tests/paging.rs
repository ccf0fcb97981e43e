use ignite::error::{BootError, BootResult, MemoryError};
use ignite::memory::allocator::{FrameAllocator, RequestLog};
use ignite::memory::paging::PageTableManager;

/// Hands out consecutive 4 KiB frames from `next`.
struct SeqAlloc {
    next: u64,
    calls: usize,
    limit: usize,
}

impl SeqAlloc {
    fn new(start: u64) -> Self {
        SeqAlloc { next: start, calls: 0, limit: usize::MAX }
    }
}

impl FrameAllocator for SeqAlloc {
    fn allocate_frame(&mut self, count: usize) -> BootResult<u64> {
        if self.calls >= self.limit {
            return Err(BootError::Memory(MemoryError::AllocationFailed));
        }
        self.calls += 1;
        let f = self.next;
        self.next += 4096 * count as u64;
        Ok(f)
    }

    fn allocate_at(&mut self, addr: u64, _count: usize) -> BootResult<u64> {
        Ok(addr)
    }
}

/// Always returns the same misaligned address.
struct BadAlloc;

impl FrameAllocator for BadAlloc {
    fn allocate_frame(&mut self, _count: usize) -> BootResult<u64> {
        Ok(0x1234)
    }

    fn allocate_at(&mut self, addr: u64, _count: usize) -> BootResult<u64> {
        Ok(addr)
    }
}

#[test]
fn new_tables_map_nothing() {
    let mut a = SeqAlloc::new(0x10_0000);
    let pt = PageTableManager::new(&mut a, &mut RequestLog::new()).unwrap();
    assert_eq!(pt.pml4_addr(), 0x10_0000);
    assert_eq!(pt.lookup(0), None);
    assert_eq!(pt.lookup(0xFFFF_8000_0000_0000), None);
}

#[test]
fn new_rejects_misaligned_frame() {
    let r = PageTableManager::new(&mut BadAlloc, &mut RequestLog::new());
    assert!(matches!(r, Err(BootError::Memory(MemoryError::AllocationFailed))));
}

#[test]
fn identity_map_4gib_is_identity() {
    let mut a = SeqAlloc::new(0x10_0000);
    let mut pt = PageTableManager::new(&mut a, &mut RequestLog::new()).unwrap();
    pt.identity_map_4gib(&mut a).unwrap();
    for v in [0u64, 0x1000, 0x1F_FFFF, 0x20_0000, 0x1234_5678, 0xFFFF_FFFF] {
        assert_eq!(pt.lookup(v), Some(v));
    }
    assert_eq!(pt.lookup(0x1_0000_0000), None);
    // PML4, one PDPT and four PDs
    assert_eq!(a.calls, 6);
}

#[test]
fn identity_map_range_rounds_up_to_2mib() {
    let mut a = SeqAlloc::new(0x10_0000);
    let mut pt = PageTableManager::new(&mut a, &mut RequestLog::new()).unwrap();
    pt.identity_map_range(0x30_0001, &mut a).unwrap();
    assert_eq!(pt.lookup(0x3F_FFFF), Some(0x3F_FFFF));
    assert_eq!(pt.lookup(0x40_0000), None);
}

#[test]
fn map_kernel_maps_each_page() {
    let mut a = SeqAlloc::new(0x10_0000);
    let mut pt = PageTableManager::new(&mut a, &mut RequestLog::new()).unwrap();
    pt.map_kernel(0x20_0000, 0xFFFF_8000_0000_0000, 3, &mut a).unwrap();
    assert_eq!(pt.lookup(0xFFFF_8000_0000_0000), Some(0x20_0000));
    assert_eq!(pt.lookup(0xFFFF_8000_0000_1234), Some(0x20_1234));
    assert_eq!(pt.lookup(0xFFFF_8000_0000_2FFF), Some(0x20_2FFF));
    assert_eq!(pt.lookup(0xFFFF_8000_0000_3000), None);
}

#[test]
fn map_kernel_rejects_misaligned() {
    let mut a = SeqAlloc::new(0x10_0000);
    let mut pt = PageTableManager::new(&mut a, &mut RequestLog::new()).unwrap();
    let r = pt.map_kernel(0x20_0001, 0xFFFF_8000_0000_0000, 1, &mut a);
    assert!(matches!(r, Err(BootError::Memory(MemoryError::InvalidAlignment))));
    let r = pt.map_kernel(0x20_0000, 0xFFFF_8000_0000_0010, 1, &mut a);
    assert!(matches!(r, Err(BootError::Memory(MemoryError::InvalidAlignment))));
    assert_eq!(pt.lookup(0xFFFF_8000_0000_0000), None);
}

#[test]
fn splitting_a_huge_page_keeps_the_identity_map() {
    let mut a = SeqAlloc::new(0x10_0000);
    let mut pt = PageTableManager::new(&mut a, &mut RequestLog::new()).unwrap();
    pt.identity_map_4gib(&mut a).unwrap();
    // remap one 4 KiB page inside the first 2 MiB page
    pt.map_kernel(0x9000_0000, 0x5000, 1, &mut a).unwrap();
    assert_eq!(pt.lookup(0x5123), Some(0x9000_0123));
    for v in [0u64, 0x4FFF, 0x6000, 0x1F_F000, 0x1F_FFFF, 0x20_0000] {
        assert_eq!(pt.lookup(v), Some(v));
    }
}

#[test]
fn ensure_identity_map_4k_splits() {
    let mut a = SeqAlloc::new(0x10_0000);
    let mut pt = PageTableManager::new(&mut a, &mut RequestLog::new()).unwrap();
    pt.identity_map_4gib(&mut a).unwrap();
    let before = a.calls;
    pt.ensure_identity_map_4k(0x30_5000, &mut a).unwrap();
    // one PT for the split
    assert_eq!(a.calls, before + 1);
    assert_eq!(pt.lookup(0x30_5678), Some(0x30_5678));
    assert_eq!(pt.lookup(0x3F_FFFF), Some(0x3F_FFFF));
}

#[test]
fn split_failure_changes_nothing() {
    let mut a = SeqAlloc::new(0x10_0000);
    let mut pt = PageTableManager::new(&mut a, &mut RequestLog::new()).unwrap();
    pt.identity_map_4gib(&mut a).unwrap();
    a.limit = a.calls;
    let r = pt.ensure_identity_map_4k(0x30_5000, &mut a);
    assert!(r.is_err());
    assert_eq!(pt.lookup(0x30_5678), Some(0x30_5678));
}

#[test]
fn identity_map_maps_count_pages() {
    let mut a = SeqAlloc::new(0x10_0000);
    let mut pt = PageTableManager::new(&mut a, &mut RequestLog::new()).unwrap();
    pt.identity_map(0x8000, 2, &mut a).unwrap();
    assert_eq!(pt.lookup(0x8010), Some(0x8010));
    assert_eq!(pt.lookup(0x9FFF), Some(0x9FFF));
    assert_eq!(pt.lookup(0xA000), None);
    assert_eq!(pt.lookup(0x7FFF), None);
}

#[test]
fn scratch_slot_table_is_identity_mapped() {
    let mut a = SeqAlloc::new(0x10_0000);
    let mut pt = PageTableManager::new(&mut a, &mut RequestLog::new()).unwrap();
    pt.identity_map_4gib(&mut a).unwrap();
    let first_scratch_frame = a.next;
    pt.setup_scratch_slot(&mut a).unwrap();
    // PDPT, PD and PT of the scratch slot, then the tables that map the PT
    let scratch_pt = first_scratch_frame + 2 * 4096;
    assert_eq!(pt.lookup(scratch_pt + 8), Some(scratch_pt + 8));
    assert_eq!(pt.lookup(0x1234), Some(0x1234));
    assert_eq!(pt.lookup(0xFFFF_FE00_0000_0000), None);
}

#[test]
fn allocation_failure_is_reported() {
    let mut a = SeqAlloc::new(0x10_0000);
    let mut pt = PageTableManager::new(&mut a, &mut RequestLog::new()).unwrap();
    a.limit = 1;
    assert!(pt.identity_map_4gib(&mut a).is_err());
}

#[test]
fn existing_tables_need_no_frames() {
    let mut a = SeqAlloc::new(0x10_0000);
    let mut pt = PageTableManager::new(&mut a, &mut RequestLog::new()).unwrap();
    pt.identity_map(0x40_0000, 2, &mut a).unwrap();
    pt.identity_map_4gib(&mut a).unwrap();
    // every table these calls walk through exists: an allocator that only
    // fails is never asked
    let mut none = SeqAlloc::new(0x20_0000);
    none.limit = 0;
    assert!(pt.identity_map_4gib(&mut none).is_ok());
    assert!(pt.identity_map_range(0x1000_0000, &mut none).is_ok());
    assert_eq!(pt.lookup(0x123_4567), Some(0x123_4567));
    // the 2 MiB page there must first be split, which needs a frame
    assert!(pt.identity_map(0x40_0000, 2, &mut none).is_err());
    pt.identity_map(0x40_0000, 2, &mut a).unwrap();
    assert!(pt.identity_map(0x40_0000, 2, &mut none).is_ok());
    assert!(pt.ensure_identity_map_4k(0x40_1000, &mut none).is_ok());
    pt.setup_scratch_slot(&mut a).unwrap();
    assert!(pt.setup_scratch_slot(&mut none).is_ok());
}

/// The walk a processor makes through the tables written to memory.
fn walk(mem: &std::collections::HashMap<u64, Vec<u64>>, root: u64, v: u64) -> Option<u64> {
    let mask = 0x000F_FFFF_FFFF_F000u64;
    let e4 = mem[&root][((v >> 39) & 0x1FF) as usize];
    if e4 & 1 == 0 {
        return None;
    }
    let e3 = mem.get(&(e4 & mask))?[((v >> 30) & 0x1FF) as usize];
    if e3 & 1 == 0 {
        return None;
    }
    let e2 = mem.get(&(e3 & mask))?[((v >> 21) & 0x1FF) as usize];
    if e2 & 1 == 0 {
        return None;
    }
    if e2 & 0x80 != 0 {
        return Some((e2 & mask) + v % 0x20_0000);
    }
    let e1 = mem.get(&(e2 & mask))?[((v >> 12) & 0x1FF) as usize];
    if e1 & 1 == 0 {
        return None;
    }
    Some((e1 & mask) + v % 0x1000)
}

#[test]
fn exported_tables_walk_like_lookup() {
    let mut a = SeqAlloc::new(0x100_0000);
    let mut pt = PageTableManager::new(&mut a, &mut RequestLog::new()).unwrap();
    pt.identity_map_4gib(&mut a).unwrap();
    pt.map_kernel(0x20_0000, 0xFFFF_8000_0000_0000, 3, &mut a).unwrap();
    pt.setup_scratch_slot(&mut a).unwrap();
    let tables = pt.export();
    assert_eq!(tables[0].0, pt.pml4_addr());
    assert!(tables.iter().all(|(_, e)| e.len() == 512));
    let mem: std::collections::HashMap<u64, Vec<u64>> = tables.into_iter().collect();
    for v in [0u64, 0x1234_5678, 0xFFFF_8000_0000_1234, 0xFFFF_8000_0000_2FFF, 0xFFFF_FE00_0000_0000, 0x1_0000_0000] {
        assert_eq!(walk(&mem, pt.pml4_addr(), v), pt.lookup(v));
    }
    assert_eq!(walk(&mem, pt.pml4_addr(), 0xFFFF_8000_0000_1234), Some(0x20_1234));
}

/// The last entry the processor's walk reads for `v`.
fn leaf_entry(mem: &std::collections::HashMap<u64, Vec<u64>>, root: u64, v: u64) -> Option<u64> {
    let mask = 0x000F_FFFF_FFFF_F000u64;
    let e4 = mem[&root][((v >> 39) & 0x1FF) as usize];
    let e3 = mem.get(&(e4 & mask))?[((v >> 30) & 0x1FF) as usize];
    let e2 = mem.get(&(e3 & mask))?[((v >> 21) & 0x1FF) as usize];
    if e2 & 0x80 != 0 {
        return Some(e2);
    }
    let e1 = mem.get(&(e2 & mask))?[((v >> 12) & 0x1FF) as usize];
    if e1 & 1 == 0 { None } else { Some(e1) }
}

#[test]
fn mappings_are_present_and_writable() {
    let mut a = SeqAlloc::new(0x100_0000);
    let mut pt = PageTableManager::new(&mut a, &mut RequestLog::new()).unwrap();
    pt.identity_map_4gib(&mut a).unwrap();
    pt.ensure_identity_map_4k(0x40_1000, &mut a).unwrap();
    pt.map_kernel(0x20_0000, 0xFFFF_8000_0000_0000, 2, &mut a).unwrap();
    let mem: std::collections::HashMap<u64, Vec<u64>> = pt.export().into_iter().collect();
    let root = pt.pml4_addr();
    // a 2 MiB identity page: base | PRESENT | WRITABLE | HUGE
    assert_eq!(leaf_entry(&mem, root, 0x8765_4321), Some(0x8760_0000 | 0x83));
    // the split page: 4 KiB entries keeping PRESENT and WRITABLE
    assert_eq!(leaf_entry(&mem, root, 0x40_1234), Some(0x40_1000 | 0x3));
    assert_eq!(leaf_entry(&mem, root, 0x40_2000), Some(0x40_2000 | 0x3));
    assert_eq!(leaf_entry(&mem, root, 0xFFFF_8000_0000_1000), Some(0x20_1000 | 0x3));
}

#[test]
fn root_frame_is_the_given_frame() {
    let pt = PageTableManager::from_root_frame(0x40_0000).unwrap();
    assert_eq!(pt.pml4_addr(), 0x40_0000);
    assert_eq!(pt.lookup(0x1234), None);
    assert!(PageTableManager::from_root_frame(0x40_0800).is_none());
    assert!(PageTableManager::from_root_frame(0x10_0000_0000_0000).is_none());
}

/// Hands out the root frame, then a frame already used by a table.
struct RepeatAlloc {
    calls: usize,
}

impl FrameAllocator for RepeatAlloc {
    fn allocate_frame(&mut self, _count: usize) -> BootResult<u64> {
        self.calls += 1;
        Ok(0x10_0000)
    }

    fn allocate_at(&mut self, addr: u64, _count: usize) -> BootResult<u64> {
        Ok(addr)
    }
}

#[test]
fn table_frames_already_in_use_are_refused() {
    let mut a = RepeatAlloc { calls: 0 };
    let mut pt = PageTableManager::new(&mut a, &mut RequestLog::new()).unwrap();
    let r = pt.identity_map(0x20_0000, 1, &mut a);
    assert!(matches!(r, Err(BootError::Memory(MemoryError::AllocationFailed))));
    assert_eq!(a.calls, 2);
    assert_eq!(pt.lookup(0x20_0000), None);
}

#[test]
fn allocator_errors_are_returned_as_they_are() {
    let mut a = SeqAlloc::new(0x10_0000);
    let mut pt = PageTableManager::new(&mut a, &mut RequestLog::new()).unwrap();
    a.limit = 1;
    let r = pt.map_kernel(0x20_0000, 0xFFFF_8000_0000_0000, 1, &mut a);
    assert!(matches!(r, Err(BootError::Memory(MemoryError::AllocationFailed))));
    // a misaligned request fails before the allocator is asked
    a.limit = usize::MAX;
    let before = a.calls;
    let r = pt.map_kernel(0x20_0001, 0xFFFF_8000_0000_0000, 1, &mut a);
    assert!(matches!(r, Err(BootError::Memory(MemoryError::InvalidAlignment))));
    assert_eq!(a.calls, before);
}

#[test]
fn split_keeps_the_other_pages_flags() {
    let mut a = SeqAlloc::new(0x100_0000);
    let mut pt = PageTableManager::new(&mut a, &mut RequestLog::new()).unwrap();
    pt.identity_map_4gib(&mut a).unwrap();
    pt.ensure_identity_map_4k(0x60_3000, &mut a).unwrap();
    let mem: std::collections::HashMap<u64, Vec<u64>> = pt.export().into_iter().collect();
    let root = pt.pml4_addr();
    for p in [0x60_0000u64, 0x60_1000, 0x60_4000, 0x7F_F000] {
        assert_eq!(leaf_entry(&mem, root, p), Some(p | 0x3));
    }
    // pages of other 2 MiB regions keep their 2 MiB entry
    assert_eq!(leaf_entry(&mem, root, 0x80_0000), Some(0x80_0000 | 0x83));
}

#[test]
fn root_from_allocator_answers() {
    let m = PageTableManager::from_allocation(Ok(0x7000)).unwrap();
    assert_eq!(m.pml4_addr(), 0x7000);
    assert!(matches!(
        PageTableManager::from_allocation(Ok(0x7008)),
        Err(BootError::Memory(MemoryError::AllocationFailed))
    ));
    assert!(matches!(
        PageTableManager::from_allocation(Err(BootError::Generic("no memory"))),
        Err(BootError::Generic("no memory"))
    ));
}

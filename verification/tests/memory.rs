use ignite::memory::bump_allocator::BumpAllocator;
use ignite::memory::layout::is_aligned;
use ignite::memory::map::{MemoryDescriptor, MemoryMapIter};
use ignite::memory::region::{MemoryRegionKind, PhysicalMemoryRegion};

#[test]
fn region_addresses() {
    let r = PhysicalMemoryRegion { start: 0x1000, page_count: 3, kind: MemoryRegionKind::Usable };
    assert_eq!(r.start_addr(), 0x1000);
    assert_eq!(r.end_addr(), 0x4000);
    assert_eq!(r.size_in_bytes(), 0x3000);
    assert_eq!(r.end_addr(), r.start_addr() + r.size_in_bytes());
}

#[test]
fn alignment() {
    assert!(is_aligned(0));
    assert!(is_aligned(0x3000));
    assert!(!is_aligned(0x3001));
}

#[test]
fn memory_map_skips_empty_and_classifies() {
    let descs = [
        MemoryDescriptor { ty: 7, physical_start: 0x1000, page_count: 4 },
        MemoryDescriptor { ty: 2, physical_start: 0x5000, page_count: 0 },
        MemoryDescriptor { ty: 1, physical_start: 0x6000, page_count: 1 },
        MemoryDescriptor { ty: 9, physical_start: 0x7000, page_count: 2 },
        MemoryDescriptor { ty: 5, physical_start: 0x9000, page_count: 1 },
    ];
    let mut it = MemoryMapIter::new(&descs);
    let r = it.next().unwrap();
    assert_eq!((r.start, r.page_count, r.kind), (0x1000, 4, MemoryRegionKind::Usable));
    let r = it.next().unwrap();
    assert_eq!((r.start, r.page_count, r.kind), (0x6000, 1, MemoryRegionKind::Bootloader));
    let r = it.next().unwrap();
    assert_eq!((r.start, r.page_count, r.kind), (0x7000, 2, MemoryRegionKind::Reserved));
    let r = it.next().unwrap();
    assert_eq!(r.kind, MemoryRegionKind::Reserved);
    assert!(it.next().is_none());
    assert!(it.next().is_none());
}

#[test]
fn bump_without_heap_returns_null() {
    let mut b = BumpAllocator::new();
    assert_eq!(b.allocate(16, 8), 0);
}

#[test]
fn bump_hands_out_aligned_disjoint_blocks() {
    let mut b = BumpAllocator::new();
    b.init(0x10_0001, 0x1000);
    let x = b.allocate(10, 16);
    assert_eq!(x, 0x10_0010);
    let y = b.allocate(4, 8);
    assert_eq!(y, 0x10_0020);
    let z = b.allocate(1, 1);
    assert_eq!(z, 0x10_0024);
}

#[test]
fn bump_out_of_memory() {
    let mut b = BumpAllocator::new();
    b.init(0x1000, 0x100);
    assert_eq!(b.allocate(0x100, 1), 0x1000);
    assert_eq!(b.allocate(1, 1), 0);
    assert_eq!(b.allocate(usize::MAX, 1), 0);
}

#[test]
fn bump_reuses_heap_when_all_freed() {
    let mut b = BumpAllocator::new();
    b.init(0x1000, 0x100);
    let x = b.allocate(0x40, 1);
    let y = b.allocate(0x40, 1);
    assert_eq!((x, y), (0x1000, 0x1040));
    b.deallocate();
    assert_eq!(b.allocate(0x10, 1), 0x1080);
    b.deallocate();
    b.deallocate();
    assert_eq!(b.allocate(0x10, 1), 0x1000);
}

#[test]
fn bump_reports_free_pointer_and_live_blocks() {
    let mut b = BumpAllocator::new();
    assert_eq!((b.next_free_address(), b.live_blocks()), (0, 0));
    b.init(0x2000, 0x100);
    assert_eq!(b.next_free_address(), 0x2000);
    b.allocate(0x10, 8);
    assert_eq!((b.next_free_address(), b.live_blocks()), (0x2010, 1));
    b.deallocate();
    assert_eq!((b.next_free_address(), b.live_blocks()), (0x2000, 0));
}

#[test]
fn bump_serves_a_block_ending_at_the_top_of_memory() {
    let mut b = BumpAllocator::new();
    b.init(usize::MAX - 15, 15);
    // next + align - 1 == usize::MAX: still served
    assert_eq!(b.allocate(1, 16), usize::MAX - 15);
}

//! The native Redstone protocol for ELF64 kernels.
//!
//! Order of the hand-off: all physical memory is identity-mapped with
//! 2 MiB pages (`map_memory`); the scratch slot is set up
//! (`setup_scratch_slot`); the caller then loads the ELF segments; `load`
//! reserves the boot-information block and the kernel stack, and returns
//! the launch information with the block to write at the address in
//! `rdi`.

use vstd::prelude::*;

use super::KernelLaunchInfo;
use crate::error::{BootError, BootResult, MemoryError};
use crate::handoff::{
    BootInfo,
    FramebufferInfo,
    MemoryMapEntry,
    PixelFormat,
    BOOT_INFO_MAGIC,
    BOOT_INFO_VERSION,
};
use crate::memory::allocator::{FrameAllocator, FrameRequest};
use crate::memory::paging::{huge_identity_entry, low48, page_number, PageTableManager, SCRATCH_VIRT};
use crate::protos::limine::has_elf_magic;
use crate::types::{LoadedFile, LoadedKernel};

verus! {

/// Pages of kernel stack (64 KiB).
pub const KERNEL_STACK_PAGES: usize = 16;

/// Margin added above the highest address for later firmware allocations
/// (256 MiB).
pub const MAP_MARGIN: u64 = 0x1000_0000;

/// Mask of an offset within 1 GiB.
pub const GB_MASK: u64 = 0x3FFF_FFFF;

/// Used when the memory map says nothing: 4 GiB.
pub const DEFAULT_MAX_PHYS: u64 = 0x1_0000_0000;

/// The end of an entry, saturating at `u64::MAX`.
pub open spec fn entry_end(e: MemoryMapEntry) -> int {
    if e.base + e.len > u64::MAX {
        u64::MAX as int
    } else {
        e.base + e.len
    }
}

/// The largest entry end (0 for no entries).
pub open spec fn max_end(es: Seq<MemoryMapEntry>) -> int
    decreases es.len(),
{
    if es.len() == 0 {
        0
    } else {
        let rest = max_end(es.drop_last());
        if entry_end(es.last()) > rest {
            entry_end(es.last())
        } else {
            rest
        }
    }
}

/// The highest physical address of the memory map, 4 GiB when the map is
/// empty or only holds empty entries at 0.
pub open spec fn max_phys_addr(es: Seq<MemoryMapEntry>) -> int {
    if es.len() == 0 || max_end(es) == 0 {
        DEFAULT_MAX_PHYS as int
    } else {
        max_end(es)
    }
}

/// How far physical memory is identity-mapped: the highest address plus
/// 256 MiB, rounded up to 1 GiB.
pub open spec fn map_limit(es: Seq<MemoryMapEntry>) -> int {
    (max_phys_addr(es) + MAP_MARGIN + GB_MASK) / 0x4000_0000 * 0x4000_0000
}

/// The framebuffer used when the firmware gives none.
pub open spec fn null_framebuffer() -> FramebufferInfo {
    FramebufferInfo { addr: 0, size: 0, width: 0, height: 0, stride: 0, format: PixelFormat::Rgb }
}

proof fn lemma_align_gb(x: u64, y: u64)
    by (bit_vector)
    requires
        y == ((x + 0x3FFF_FFFFu64) as u64),
        x <= 0xFFFF_FFFF_C000_0000u64,
    ensures
        y & !0x3FFF_FFFFu64 == y - y % 0x4000_0000u64,
        y & !0x3FFF_FFFFu64 <= 0xFFFF_FFFF_C000_0000u64,
        (y & !0x3FFF_FFFFu64) % 0x20_0000u64 == 0u64,
{
}

/// The native Redstone protocol.
pub struct RedstoneProtocol<'a, A: FrameAllocator + ?Sized> {
    allocator: &'a mut A,
    page_table: &'a mut PageTableManager,
    requests: Ghost<Seq<FrameRequest>>,
}

/// The launch information for a kernel entered at `entry_point`, with the
/// boot information at `boot_info_frame` (in `rdi`) and the stack of
/// `KERNEL_STACK_PAGES` pages from `stack_bottom`; `None` if the stack would
/// end past the top of the address space.
pub open spec fn launch_info_of(entry_point: u64, boot_info_frame: u64, stack_bottom: u64) -> Option<
    KernelLaunchInfo,
> {
    if stack_bottom + KERNEL_STACK_PAGES * 4096 > u64::MAX {
        None
    } else {
        Some(
            KernelLaunchInfo {
                entry_point,
                use_fixed_redstone_entry: true,
                stack_pointer: Some((stack_bottom + KERNEL_STACK_PAGES * 4096) as u64),
                rdi: boot_info_frame,
                rsi: 0,
                rdx: 0,
                rbx: 0,
            },
        )
    }
}

/// Builds the launch information (see `launch_info_of`).
pub fn launch_info(entry_point: u64, boot_info_frame: u64, stack_bottom: u64) -> (r: Option<
    KernelLaunchInfo,
>)
    ensures
        r == launch_info_of(entry_point, boot_info_frame, stack_bottom),
{
    let stack_top = match stack_bottom.checked_add((KERNEL_STACK_PAGES as u64) * 4096) {
        Some(t) => t,
        None => return None,
    };
    Some(
        KernelLaunchInfo {
            entry_point,
            use_fixed_redstone_entry: true,
            stack_pointer: Some(stack_top),
            rdi: boot_info_frame,
            rsi: 0,
            rdx: 0,
            rbx: 0,
        },
    )
}

impl<'a, A: FrameAllocator + ?Sized> RedstoneProtocol<'a, A> {
    /// The page tables the protocol builds on.
    pub closed spec fn tables(&self) -> PageTableManager {
        *self.page_table
    }

    /// The protocol over a frame allocator and the page tables.
    pub fn new(allocator: &'a mut A, page_table: &'a mut PageTableManager) -> (r: Self)
        ensures
            r.tables() == *old(page_table),
            r.requests() == Seq::<FrameRequest>::empty(),
    {
        Self { allocator, page_table, requests: Ghost(Seq::empty()) }
    }

    /// The requests `load` made to the frame allocator, in order (those the
    /// page-table code makes are not listed).
    pub closed spec fn requests(&self) -> Seq<FrameRequest> {
        self.requests@
    }

    /// Asks the allocator for `count` frames anywhere and records it.
    fn request(&mut self, count: usize) -> (r: BootResult<u64>)
        ensures
            final(self).requests() == old(self).requests().push(
                FrameRequest { at: None, count, result: r },
            ),
            final(self).tables() == old(self).tables(),
    {
        let r = self.allocator.allocate_frame(count);
        proof {
            self.requests@ = self.requests@.push(FrameRequest { at: None, count, result: r });
        }
        r
    }

    /// The framebuffer used when the firmware gives none: all zero, RGB.
    fn prepare_framebuffer(&self) -> (r: FramebufferInfo)
        ensures
            r == null_framebuffer(),
    {
        FramebufferInfo { addr: 0, size: 0, width: 0, height: 0, stride: 0, format: PixelFormat::Rgb }
    }

    /// The highest physical address of the memory map (see
    /// `max_phys_addr`).
    pub fn calculate_max_phys_addr(memory_map: &[MemoryMapEntry]) -> (r: u64)
        ensures
            r == max_phys_addr(memory_map@),
    {
        if memory_map.len() == 0 {
            return DEFAULT_MAX_PHYS;
        }
        let mut max_addr: u64 = 0;
        let mut i: usize = 0;
        while i < memory_map.len()
            invariant
                i <= memory_map@.len(),
                max_addr == max_end(memory_map@.subrange(0, i as int)),
            decreases memory_map@.len() - i,
        {
            let entry = memory_map[i];
            let end_addr = entry.base.saturating_add(entry.len);
            proof {
                let s = memory_map@.subrange(0, i as int + 1);
                assert(s.drop_last() =~= memory_map@.subrange(0, i as int));
                assert(s.last() == entry);
            }
            if end_addr > max_addr {
                max_addr = end_addr;
            }
            i = i + 1;
        }
        assert(memory_map@.subrange(0, memory_map@.len() as int) =~= memory_map@);
        if max_addr == 0 {
            DEFAULT_MAX_PHYS
        } else {
            max_addr
        }
    }

    /// Name of the protocol.
    pub fn name(&self) -> (r: &'static str)
        ensures
            r == "Redstone Native",
    {
        "Redstone Native"
    }

    /// Whether the file is an ELF file: longer than 4 bytes, with the ELF
    /// magic.
    pub fn identify(&self, file_content: &[u8]) -> (r: bool)
        ensures
            r == (file_content@.len() > 4 && has_elf_magic(file_content@)),
    {
        file_content.len() > 4 && file_content[0] == 0x7F && file_content[1] == 0x45
            && file_content[2] == 0x4C && file_content[3] == 0x46
    }

    /// Identity-maps physical memory up to `map_limit`, with 2 MiB pages.
    pub fn map_memory(&mut self, memory_map: &[MemoryMapEntry]) -> (r: BootResult<()>)
        requires
            old(self).tables().wf(),
            max_phys_addr(memory_map@) + MAP_MARGIN + GB_MASK <= u64::MAX,
        ensures
            final(self).tables().extends_requests(old(self).tables()),
            final(self).tables().failed_on_request(old(self).tables(), r),
            final(self).tables().wf(),
            final(self).tables().root() == old(self).tables().root(),
            r is Ok ==> forall|v: u64|
                low48(v) < map_limit(memory_map@) ==> (#[trigger] final(self).tables().translate(v)) is Some,
            r is Ok && map_limit(memory_map@) <= 0x1_0000_0000_0000 ==> forall|v: u64|
                #[trigger] final(self).tables().translate(v) == if low48(v) < map_limit(memory_map@) {
                    Some(low48(v))
                } else {
                    old(self).tables().translate(v)
                },
            r is Err && map_limit(memory_map@) <= 0x1_0000_0000_0000 ==> forall|v: u64|
                #[trigger] final(self).tables().translate(v) == old(self).tables().translate(v) || (
                low48(v) < map_limit(memory_map@) && final(self).tables().translate(v) == Some(
                    low48(v),
                )),
            (forall|v: u64| low48(v) < map_limit(memory_map@) ==> (#[trigger] old(self).tables().pd_of(v)) is Some)
                ==> r is Ok,
            r is Ok && map_limit(memory_map@) <= 0x1_0000_0000_0000 ==> forall|v: u64|
                low48(v) < map_limit(memory_map@) ==> #[trigger] final(self).tables().leaf(v) == Some(
                    huge_identity_entry(v),
                ),
            map_limit(memory_map@) <= 0x1_0000_0000_0000 ==> forall|v: u64|
                low48(v) >= map_limit(memory_map@) ==> #[trigger] final(self).tables().leaf(v) == old(
                    self,
                ).tables().leaf(v),
    {
        let max_phys = Self::calculate_max_phys_addr(memory_map);
        let limit = (max_phys + MAP_MARGIN + GB_MASK) & !GB_MASK;
        proof {
            lemma_align_gb((max_phys + MAP_MARGIN) as u64, (max_phys + MAP_MARGIN + GB_MASK) as u64);
            assert(limit == map_limit(memory_map@));
            assert(crate::memory::paging::align_up_2mib(limit) == limit);
        }
        self.page_table.identity_map_range(limit, self.allocator)
    }

    /// Prepares the scratch slot (after `map_memory`, before the kernel is
    /// loaded): the region of `SCRATCH_VIRT` gets a page table whose own
    /// frame is identity-mapped, writable.
    pub fn setup_scratch_slot(&mut self) -> (r: BootResult<()>)
        requires
            old(self).tables().wf(),
        ensures
            final(self).tables().extends_requests(old(self).tables()),
            final(self).tables().failed_on_request(old(self).tables(), r),
            final(self).tables().wf(),
            final(self).tables().root() == old(self).tables().root(),
            final(self).requests() == old(self).requests(),
            r is Ok ==> (final(self).tables().pt_frame(SCRATCH_VIRT) matches Some(p)
                && final(self).tables().has_table(p) && forall|v: u64|
                #[trigger] final(self).tables().translate(v) == if page_number(v) == page_number(p) {
                    Some(p + v % 0x1000u64)
                } else {
                    old(self).tables().translate(v)
                }),
            r is Err ==> forall|v: u64| #[trigger] final(self).tables().translate(v) == old(
                self,
            ).tables().translate(v),
            (old(self).tables().pt_frame(SCRATCH_VIRT) matches Some(p) && old(self).tables().pt_of(p)
                is Some) ==> r is Ok,
            r is Ok ==> (final(self).tables().pt_frame(SCRATCH_VIRT) matches Some(p) && forall|v: u64|
                page_number(v) == page_number(p) ==> #[trigger] final(self).tables().leaf(v) == Some(
                    p | 3u64,
                )),
    {
        self.page_table.setup_scratch_slot(self.allocator)
    }

    /// Finishes the hand-off once the kernel is loaded (`loaded_kernel`):
    /// asks the allocator for one frame for the boot information and then
    /// for `KERNEL_STACK_PAGES` frames of stack, and returns the launch
    /// information (`launch_info` of the entry point and those frames) with
    /// the block to write at the boot-information frame.
    ///
    /// The first module is the initramfs. A failure of the allocator is
    /// returned as is; a stack that would end past the top of the address
    /// space gives `AllocationFailed`.
    pub fn load(
        &mut self,
        _kernel_file: &[u8],
        loaded_kernel: &LoadedKernel,
        _cmdline: Option<&str>,
        modules: Vec<LoadedFile>,
        memory_map_buffer: (u64, u64),
        framebuffer: Option<FramebufferInfo>,
    ) -> (r: BootResult<(KernelLaunchInfo, BootInfo)>)
        ensures
            final(self).tables() == old(self).tables(),
            old(self).requests().len() < final(self).requests().len() <= old(self).requests().len() + 2,
            final(self).requests().len() == old(self).requests().len() + 2
                ==> final(self).requests()[old(self).requests().len() as int].result is Ok,
            final(self).requests()[old(self).requests().len() as int].at is None,
            final(self).requests()[old(self).requests().len() as int].count == 1,
            final(self).requests().len() == old(self).requests().len() + 2 ==> {
                &&& final(self).requests().last().at is None
                &&& final(self).requests().last().count == KERNEL_STACK_PAGES
            },
            final(self).requests().subrange(0, old(self).requests().len() as int) == old(self).requests(),
            r matches Ok((launch, info)) ==> {
                &&& final(self).requests().len() == old(self).requests().len() + 2
                &&& final(self).requests()[old(self).requests().len() as int].result == Ok::<
                    u64,
                    BootError,
                >(launch.rdi)
                &&& final(self).requests().last().result matches Ok(sb) && launch_info_of(
                    loaded_kernel.entry_point,
                    launch.rdi,
                    sb,
                ) == Some(launch)
                &&& info.magic == BOOT_INFO_MAGIC
                &&& info.version == BOOT_INFO_VERSION
                &&& info._padding == 0
                &&& info.framebuffer == match framebuffer {
                    Some(fb) => fb,
                    None => null_framebuffer(),
                }
                &&& info.memory_map_addr == memory_map_buffer.0
                &&& info.memory_map_len == memory_map_buffer.1
                &&& info.rsdp_addr == 0
                &&& info.kernel_phys_addr == loaded_kernel.base_address
                &&& info.kernel_size == loaded_kernel.size
                &&& info.initramfs_addr == if modules@.len() > 0 { modules@[0].ptr } else { 0 }
                &&& info.initramfs_size == if modules@.len() > 0 { modules@[0].size as u64 } else { 0 }
                &&& info.cr3_phys == old(self).tables().root()
            },
            r is Err ==> {
                &&& final(self).requests().last().result matches Err(e) ==> r == Err::<
                    (KernelLaunchInfo, BootInfo),
                    BootError,
                >(e)
                &&& final(self).requests().last().result matches Ok(sb) ==> {
                    &&& final(self).requests().len() == old(self).requests().len() + 2
                    &&& launch_info_of(loaded_kernel.entry_point, 0, sb) is None
                    &&& r == Err::<(KernelLaunchInfo, BootInfo), BootError>(
                        BootError::Memory(MemoryError::AllocationFailed),
                    )
                }
            },
    {
        let ghost n0 = self.requests@.len();
        let boot_info_phys = match self.request(1) {
            Ok(p) => p,
            Err(e) => return Err(e),
        };
        let fb_info = match framebuffer {
            Some(fb) => fb,
            None => self.prepare_framebuffer(),
        };
        let (initrd_addr, initrd_size) = if modules.len() > 0 {
            (modules[0].ptr, modules[0].size as u64)
        } else {
            (0, 0)
        };
        let boot_info = BootInfo {
            magic: BOOT_INFO_MAGIC,
            version: BOOT_INFO_VERSION,
            _padding: 0,
            framebuffer: fb_info,
            memory_map_addr: memory_map_buffer.0,
            memory_map_len: memory_map_buffer.1,
            rsdp_addr: 0,
            kernel_phys_addr: loaded_kernel.base_address,
            kernel_size: loaded_kernel.size,
            initramfs_addr: initrd_addr,
            initramfs_size: initrd_size,
            cr3_phys: self.page_table.pml4_addr(),
        };
        let stack_bottom = match self.request(KERNEL_STACK_PAGES) {
            Ok(p) => p,
            Err(e) => return Err(e),
        };
        match launch_info(loaded_kernel.entry_point, boot_info_phys, stack_bottom) {
            Some(launch) => Ok((launch, boot_info)),
            None => Err(BootError::Memory(MemoryError::AllocationFailed)),
        }
    }
}

} // verus!

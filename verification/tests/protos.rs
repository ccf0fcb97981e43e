use ignite::error::{BootError, BootResult, MemoryError};
use ignite::handoff::{FramebufferInfo, MemoryMapEntry, PixelFormat, BOOT_INFO_MAGIC};
use ignite::memory::allocator::{FrameAllocator, RequestLog};
use ignite::memory::paging::PageTableManager;
use ignite::protos::chainload::ChainloadProtocol;
use ignite::protos::limine::LimineProtocol;
use ignite::protos::linux::LinuxProtocol;
use ignite::protos::multiboot1::{cmdline_bytes, Multiboot1Protocol, MB1_BOOTLOADER_MAGIC};
use ignite::protos::multiboot2::Multiboot2Protocol;
use ignite::protos::redstone::{launch_info, RedstoneProtocol};
use ignite::protos::{BootProtocol, ProtocolType};
use ignite::types::{LoadedFile, LoadedKernel};

struct SeqAlloc {
    next: u64,
    at: Vec<(u64, usize)>,
}

impl SeqAlloc {
    fn new(start: u64) -> Self {
        SeqAlloc { next: start, at: Vec::new() }
    }
}

impl FrameAllocator for SeqAlloc {
    fn allocate_frame(&mut self, count: usize) -> BootResult<u64> {
        let f = self.next;
        self.next += 4096 * count as u64;
        Ok(f)
    }

    fn allocate_at(&mut self, addr: u64, count: usize) -> BootResult<u64> {
        self.at.push((addr, count));
        Ok(addr)
    }
}

fn kernel() -> LoadedKernel {
    LoadedKernel { base_address: 0x20_0000, size: 0x5000, entry_point: 0x20_1000 }
}

fn mb1_image(offset: usize, flags: u32, fields: [u32; 5]) -> Vec<u8> {
    let mut k = vec![0u8; 0x1000];
    let magic: u32 = 0x1BADB002;
    let checksum = 0u32.wrapping_sub(magic).wrapping_sub(flags);
    let words = [magic, flags, checksum, fields[0], fields[1], fields[2], fields[3], fields[4]];
    for (i, w) in words.iter().enumerate() {
        k[offset + 4 * i..offset + 4 * i + 4].copy_from_slice(&w.to_le_bytes());
    }
    k
}

#[test]
fn protocol_names_round_trip() {
    for t in [ProtocolType::Limine, ProtocolType::Linux, ProtocolType::Multiboot2, ProtocolType::EfiChainload, ProtocolType::BiosChainload] {
        assert_eq!(ProtocolType::from_str(t.as_str()), Some(t));
    }
    assert_eq!(ProtocolType::from_str("NATIVE"), Some(ProtocolType::Limine));
    assert_eq!(ProtocolType::from_str("UEFI"), Some(ProtocolType::EfiChainload));
    assert_eq!(ProtocolType::from_str("Bios"), Some(ProtocolType::BiosChainload));
    assert_eq!(ProtocolType::from_str("multiboot"), None);
    assert_eq!(ProtocolType::from_str(""), None);
}

#[test]
fn chainload() {
    let mut p = ChainloadProtocol;
    assert_eq!(p.name(), "EFI Chainload");
    assert!(p.identify(b"MZ\x90"));
    assert!(!p.identify(b"MZ"));
    assert!(!p.identify(b"ZM\x90"));
    assert!(matches!(p.load(b"MZ", None, Vec::new(), (0, 0)), Err(BootError::Generic(_))));
}

#[test]
fn linux_identify() {
    let mut a = SeqAlloc::new(0x10_0000);
    let mut p = LinuxProtocol::new(&mut a);
    let mut image = vec![0u8; 0x206];
    assert!(!p.identify(&image));
    image[0x202..0x206].copy_from_slice(b"HdrS");
    assert!(p.identify(&image));
    assert!(!p.identify(&image[..0x205]));
    assert_eq!(p.name(), "Linux bzImage");
    assert!(p.load(&image, None, Vec::new(), (0, 0), None).is_err());
}

#[test]
fn multiboot2_is_not_recognised() {
    let mut a = SeqAlloc::new(0x10_0000);
    let mut p = Multiboot2Protocol::new(&mut a);
    assert!(!p.identify(&[0xD6, 0x50, 0x52, 0xE8]));
    assert_eq!(p.name(), "Multiboot 2");
    assert!(p.load(&[], None, Vec::new(), (0, 0), None).is_err());
}

#[test]
fn limine_validate_and_prepare() {
    let mut a = SeqAlloc::new(0x10_0000);
    let mut p = LimineProtocol::new(&mut a);
    assert!(matches!(p.validate(&[0x7F, b'E', b'L', b'F']), Err(BootError::Generic("Kernel file too small"))));
    let mut k = vec![0u8; 64];
    assert!(matches!(p.validate(&k), Err(BootError::Generic("Invalid ELF magic"))));
    k[..4].copy_from_slice(b"\x7fELF");
    assert!(p.validate(&k).is_ok());
    let info = p.prepare(&k, &kernel(), None, &[]).unwrap();
    assert_eq!((info.entry_point, info.kernel_base, info.kernel_size), (0x20_1000, 0x20_0000, 0x5000));
    assert_eq!(info.boot_info_ptr, 0);
    assert!(info.stack_ptr.is_none() && info.registers.rax.is_none());
    assert_eq!(p.entry_point(), 0x20_1000);
    assert_eq!(p.name(), "limine");
}

#[test]
fn multiboot1_finds_first_valid_header() {
    let mut a = SeqAlloc::new(0x10_0000);
    let p = Multiboot1Protocol::new(&mut a);
    let mut k = mb1_image(0x40, 0, [0; 5]);
    // a magic with a bad checksum before it is skipped
    k[0x10..0x14].copy_from_slice(&0x1BADB002u32.to_le_bytes());
    let (h, off) = p.find_header(&k).unwrap();
    assert_eq!(off, 0x40);
    assert_eq!(h.magic, 0x1BADB002);
    assert!(p.validate(&k).is_ok());
    let unaligned = mb1_image(0x42, 0, [0; 5]);
    assert!(matches!(p.find_header(&unaligned), Err(BootError::Generic("Multiboot 1 header not found"))));
    assert!(p.validate(&vec![0u8; 48]).is_err());
}

#[test]
fn multiboot1_prepare_elf() {
    let mut a = SeqAlloc::new(0x10_0000);
    let mut p = Multiboot1Protocol::new(&mut a);
    let k = mb1_image(0x0, 0, [0; 5]);
    let info = p.prepare(&k, &kernel(), Some("quiet"), &[]).unwrap();
    assert_eq!(info.entry_point, 0x20_1000);
    assert_eq!(info.kernel_base, 0x20_0000);
    assert_eq!(info.kernel_size, 0x1000);
    assert_eq!(info.boot_info_ptr, 0x10_0000);
    assert_eq!(info.registers.rax, Some(MB1_BOOTLOADER_MAGIC as u64));
    assert_eq!(info.registers.rbx, Some(0x10_0000));
    let mbi = p.mbi_layout().unwrap();
    assert_eq!(mbi.cmdline_addr, Some(0x10_1000));
    assert_eq!(mbi.info.flags, 4);
    assert_eq!(mbi.info.cmdline, 0x10_1000);
    assert!(p.aout_layout().is_none());
}

#[test]
fn multiboot1_prepare_aout() {
    let mut a = SeqAlloc::new(0x10_0000);
    let mut p = Multiboot1Protocol::new(&mut a);
    // header_addr, load_addr, load_end_addr, bss_end_addr, entry_addr
    let k = mb1_image(0x8, 0x1_0000, [0x10_0008, 0x10_0000, 0x10_0800, 0x10_2001, 0x10_0040]);
    let info = p.prepare(&k, &kernel(), None, &[]).unwrap();
    assert_eq!(info.entry_point, 0x10_0040);
    assert_eq!(info.kernel_base, 0x10_0000);
    let l = p.aout_layout().unwrap();
    assert_eq!((l.load_addr, l.load_size, l.bss_addr, l.bss_size, l.pages), (0x10_0000, 0x800, 0x10_0800, 0x1801, 3));
    assert_eq!((l.entry, l.dest), (0x10_0040, 0x10_0000));
    assert_eq!(l.src_offset, 0);
    assert_eq!(p.mbi_layout().unwrap().info.flags, 0);
    drop(p);
    assert_eq!(a.at, vec![(0x10_0000, 3)]);
}

#[test]
fn redstone_max_phys_addr() {
    assert_eq!(RedstoneProtocol::<SeqAlloc>::calculate_max_phys_addr(&[]), 0x1_0000_0000);
    let map = [
        MemoryMapEntry { base: 0, len: 0x9F000, kind: 1 },
        MemoryMapEntry { base: 0x1_0000_0000, len: 0x4000_0000, kind: 1 },
        MemoryMapEntry { base: 0x10_0000, len: 0x1000, kind: 2 },
    ];
    assert_eq!(RedstoneProtocol::<SeqAlloc>::calculate_max_phys_addr(&map), 0x1_4000_0000);
    let sat = [MemoryMapEntry { base: u64::MAX - 1, len: 10, kind: 1 }];
    assert_eq!(RedstoneProtocol::<SeqAlloc>::calculate_max_phys_addr(&sat), u64::MAX);
    let empty = [MemoryMapEntry { base: 0, len: 0, kind: 1 }];
    assert_eq!(RedstoneProtocol::<SeqAlloc>::calculate_max_phys_addr(&empty), 0x1_0000_0000);
}

#[test]
fn redstone_load() {
    let mut a = SeqAlloc::new(0x10_0000);
    let mut pt = PageTableManager::new(&mut a, &mut RequestLog::new()).unwrap();
    let cr3 = pt.pml4_addr();
    let mut p = RedstoneProtocol::new(&mut a, &mut pt);
    assert!(p.identify(b"\x7fELF\x02"));
    assert!(!p.identify(b"\x7fELF"));
    assert_eq!(p.name(), "Redstone Native");
    let map = [MemoryMapEntry { base: 0, len: 0x8000_0000, kind: 1 }];
    p.map_memory(&map).unwrap();
    p.setup_scratch_slot().unwrap();
    let modules = vec![LoadedFile { ptr: 0x300_0000, size: 0x1234 }];
    let (launch, info) = p.load(b"\x7fELF", &kernel(), None, modules, (0x50_0000, 3), None).unwrap();
    assert_eq!(launch.entry_point, 0x20_1000);
    assert!(launch.use_fixed_redstone_entry);
    assert_eq!(launch.stack_pointer, Some(launch.rdi + 0x1000 + 16 * 4096));
    assert_eq!(launch_info(0x20_1000, launch.rdi, launch.rdi + 0x1000), Some(launch));
    assert_eq!((launch.rsi, launch.rdx, launch.rbx), (0, 0, 0));
    assert_eq!(info.magic, BOOT_INFO_MAGIC);
    assert_eq!((info.memory_map_addr, info.memory_map_len), (0x50_0000, 3));
    assert_eq!((info.initramfs_addr, info.initramfs_size), (0x300_0000, 0x1234));
    assert_eq!((info.kernel_phys_addr, info.kernel_size), (0x20_0000, 0x5000));
    assert_eq!(info.cr3_phys, cr3);
    assert_eq!(info.framebuffer, FramebufferInfo { addr: 0, size: 0, width: 0, height: 0, stride: 0, format: PixelFormat::Rgb });
    drop(p);
    // 2 GiB + 256 MiB rounded up to 3 GiB is identity-mapped
    assert_eq!(pt.lookup(0xBFFF_FFFF), Some(0xBFFF_FFFF));
    assert_eq!(pt.lookup(0xC000_0000), None);
}

#[test]
fn redstone_load_keeps_given_framebuffer() {
    let mut a = SeqAlloc::new(0x10_0000);
    let mut pt = PageTableManager::new(&mut a, &mut RequestLog::new()).unwrap();
    let mut p = RedstoneProtocol::new(&mut a, &mut pt);
    let fb = FramebufferInfo { addr: 0x8000_0000, size: 0x30_0000, width: 1024, height: 768, stride: 1024, format: PixelFormat::Bgr };
    let (_, info) = p.load(b"\x7fELF", &kernel(), None, Vec::new(), (0, 0), Some(fb)).unwrap();
    assert_eq!(info.framebuffer, fb);
    assert_eq!((info.initramfs_addr, info.initramfs_size), (0, 0));
}

#[test]
fn memory_error_is_distinct() {
    assert_ne!(MemoryError::AllocationFailed, MemoryError::InvalidAlignment);
}

#[test]
fn redstone_launch_info() {
    let l = launch_info(0x1000, 0x2000, 0x3000).unwrap();
    assert_eq!((l.rdi, l.stack_pointer), (0x2000, Some(0x3000 + 0x10000)));
    assert!(launch_info(0x1000, 0x2000, u64::MAX - 0x1000).is_none());
}

#[test]
fn multiboot1_aout_image_starts_before_its_header() {
    let mut a = SeqAlloc::new(0x10_0000);
    let mut p = Multiboot1Protocol::new(&mut a);
    // header at file offset 0x40, 0x20 bytes into the image
    let k = mb1_image(0x40, 0x1_0000, [0x10_0020, 0x10_0000, 0x10_0800, 0x10_1000, 0x10_0040]);
    p.prepare(&k, &kernel(), None, &[]).unwrap();
    let l = p.aout_layout().unwrap();
    assert_eq!(l.src_offset, 0x20);
    assert_eq!(l.load_size, 0x800);
}

#[test]
fn multiboot1_aout_header_outside_its_image() {
    let mut a = SeqAlloc::new(0x10_0000);
    let mut p = Multiboot1Protocol::new(&mut a);
    // header_addr below load_addr
    let k = mb1_image(0x8, 0x1_0000, [0x0F_FFF0, 0x10_0000, 0x10_0800, 0x10_1000, 0x10_0040]);
    let r = p.prepare(&k, &kernel(), None, &[]);
    assert!(matches!(r, Err(BootError::Generic("Multiboot 1 a.out image outside the kernel file"))));
    // the image would start before the file
    let k = mb1_image(0x8, 0x1_0000, [0x10_0100, 0x10_0000, 0x10_0800, 0x10_1000, 0x10_0040]);
    let r = p.prepare(&k, &kernel(), None, &[]);
    assert!(matches!(r, Err(BootError::Generic("Multiboot 1 a.out image outside the kernel file"))));
    drop(p);
    assert!(a.at.is_empty());
}

#[test]
fn multiboot1_aout_image_past_the_end_of_the_file() {
    let mut a = SeqAlloc::new(0x10_0000);
    let mut p = Multiboot1Protocol::new(&mut a);
    // the file is 0x1000 bytes; the image would take 0x1000 bytes from 0x20
    let k = mb1_image(0x40, 0x1_0000, [0x10_0020, 0x10_0000, 0x10_1000, 0x10_2000, 0x10_0040]);
    let r = p.prepare(&k, &kernel(), None, &[]);
    assert!(matches!(r, Err(BootError::Generic("Multiboot 1 a.out image outside the kernel file"))));
    drop(p);
    assert!(a.at.is_empty());
}

#[test]
fn multiboot1_command_line_bytes_and_limit() {
    assert_eq!(cmdline_bytes("quiet"), b"quiet\0".to_vec());
    assert_eq!(cmdline_bytes(""), vec![0u8]);
    let mut a = SeqAlloc::new(0x10_0000);
    let mut p = Multiboot1Protocol::new(&mut a);
    let k = mb1_image(0x0, 0, [0; 5]);
    let long = "x".repeat(4096);
    let r = p.prepare(&k, &kernel(), Some(&long), &[]);
    assert!(matches!(r, Err(BootError::Generic("Multiboot 1 command line does not fit in its page"))));
    assert!(p.mbi_layout().is_none());
    let fits = "x".repeat(4095);
    assert!(p.prepare(&k, &kernel(), Some(&fits), &[]).is_ok());
}

#[test]
fn protocol_names_in_upper_case() {
    for t in [ProtocolType::Limine, ProtocolType::Linux, ProtocolType::Multiboot2, ProtocolType::EfiChainload, ProtocolType::BiosChainload] {
        assert_eq!(ProtocolType::from_str(&t.as_str().to_uppercase()), Some(t));
    }
    assert_eq!(ProtocolType::from_str("NaTiVe"), Some(ProtocolType::Limine));
    assert_eq!(ProtocolType::from_str("UEFI"), Some(ProtocolType::EfiChainload));
}

//! The boot-information ABI of the native Redstone protocol: what the
//! kernel finds at the address in `rdi`.

use vstd::prelude::*;

verus! {

/// Signature of the block ("IGNITEOS").
pub const BOOT_INFO_MAGIC: u64 = 0x4947_4E49_5445_4F53;

/// Version of the block layout (ABI v2: 8-byte aligned fields).
pub const BOOT_INFO_VERSION: u32 = 2;

/// Pixel layout of the framebuffer.
#[derive(Debug, Clone, Copy, PartialEq, Eq, Structural)]
pub enum PixelFormat {
    Rgb,
    Bgr,
}

/// The framebuffer as the kernel sees it.
#[derive(Debug, Clone, Copy, PartialEq, Eq, Structural)]
pub struct FramebufferInfo {
    pub addr: u64,
    pub size: u64,
    pub width: u32,
    pub height: u32,
    pub stride: u32,
    pub format: PixelFormat,
}

/// An entry of the memory map handed to the kernel.
#[derive(Debug, Clone, Copy)]
pub struct MemoryMapEntry {
    pub base: u64,
    pub len: u64,
    pub kind: u32,
}

/// The block written for the kernel.
#[derive(Debug, Clone, Copy)]
pub struct BootInfo {
    pub magic: u64,
    pub version: u32,
    pub _padding: u32,
    pub framebuffer: FramebufferInfo,
    pub memory_map_addr: u64,
    pub memory_map_len: u64,
    pub rsdp_addr: u64,
    pub kernel_phys_addr: u64,
    pub kernel_size: u64,
    pub initramfs_addr: u64,
    pub initramfs_size: u64,
    pub cr3_phys: u64,
}

} // verus!

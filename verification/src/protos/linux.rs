//! The x86 Linux boot protocol (setup header and zero page).

use vstd::prelude::*;

use super::KernelLaunchInfo;
use crate::error::{BootError, BootResult};
use crate::handoff::FramebufferInfo;
use crate::memory::allocator::FrameAllocator;
use crate::types::LoadedFile;

verus! {

/// Offset of the setup-header magic in a bzImage.
pub const LINUX_MAGIC_OFFSET: usize = 0x202;

/// Setup-header magic "HdrS".
pub const LINUX_MAGIC: u32 = 0x53726448;

/// The little-endian `u32` at `off`.
pub open spec fn u32_le(f: Seq<u8>, off: int) -> int {
    f[off] + f[off + 1] * 0x100 + f[off + 2] * 0x1_0000 + f[off + 3] * 0x100_0000
}

/// Whether a file is a bzImage: the magic "HdrS" at 0x202.
pub open spec fn is_bzimage(f: Seq<u8>) -> bool {
    f.len() >= 0x206 && u32_le(f, 0x202) == LINUX_MAGIC
}

/// Reads the little-endian `u32` at `off`.
pub fn read_u32_le(f: &[u8], off: usize) -> (r: u32)
    requires
        off + 4 <= f@.len(),
    ensures
        r == u32_le(f@, off as int),
{
    (f[off] as u32) + (f[off + 1] as u32) * 0x100 + (f[off + 2] as u32) * 0x1_0000 + (f[off + 3] as u32)
        * 0x100_0000
}

/// The Linux protocol.
pub struct LinuxProtocol<'a, A: FrameAllocator + ?Sized> {
    allocator: &'a mut A,
}

impl<'a, A: FrameAllocator + ?Sized> LinuxProtocol<'a, A> {
    /// The frame allocator the protocol draws from.
    pub closed spec fn allocator(&self) -> &A {
        &*self.allocator
    }

    /// The protocol over a frame allocator.
    pub fn new(allocator: &'a mut A) -> (r: Self)
        ensures
            r.allocator() == &*old(allocator),
    {
        Self { allocator }
    }

    /// Name of the protocol.
    pub fn name(&self) -> (r: &'static str)
        ensures
            r == "Linux bzImage",
    {
        "Linux bzImage"
    }

    /// Whether the file is a bzImage.
    pub fn identify(&self, file_content: &[u8]) -> (r: bool)
        ensures
            r == is_bzimage(file_content@),
    {
        if file_content.len() < 0x202 + 4 {
            return false;
        }
        read_u32_le(file_content, LINUX_MAGIC_OFFSET) == LINUX_MAGIC
    }

    /// Loading a Linux kernel is not implemented: always an error.
    pub fn load(
        &mut self,
        _kernel_file: &[u8],
        _cmdline: Option<&str>,
        _modules: Vec<LoadedFile>,
        _memory_map_buffer: (u64, u64),
        _framebuffer: Option<FramebufferInfo>,
    ) -> (r: BootResult<KernelLaunchInfo>)
        ensures
            r matches Err(e) && e == BootError::Generic("Linux boot ainda não implementado"),
    {
        Err(BootError::Generic("Linux boot ainda não implementado"))
    }
}

} // verus!

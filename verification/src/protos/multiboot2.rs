//! Multiboot 2 (GRUB-compatible kernels); recognised by nobody yet.

use vstd::prelude::*;

use super::KernelLaunchInfo;
use crate::error::{BootError, BootResult};
use crate::handoff::FramebufferInfo;
use crate::memory::allocator::FrameAllocator;
use crate::types::LoadedFile;

verus! {

/// Multiboot 2 header magic.
pub const MB2_MAGIC: u32 = 0xE85250D6;

/// The Multiboot 2 protocol.
pub struct Multiboot2Protocol<'a, A: FrameAllocator + ?Sized> {
    allocator: &'a mut A,
}

impl<'a, A: FrameAllocator + ?Sized> Multiboot2Protocol<'a, A> {
    /// The frame allocator the protocol draws from.
    pub closed spec fn allocator(&self) -> &A {
        &*self.allocator
    }

    /// The protocol over a frame allocator.
    pub fn new(allocator: &'a mut A) -> (r: Self)
        ensures
            r.allocator() == &*old(allocator),
    {
        Self { allocator }
    }

    /// Name of the protocol.
    pub fn name(&self) -> (r: &'static str)
        ensures
            r == "Multiboot 2",
    {
        "Multiboot 2"
    }

    /// The header search is not implemented: no file is recognised.
    pub fn identify(&self, file_content: &[u8]) -> (r: bool)
        ensures
            !r,
    {
        let _search_limit = if file_content.len() < 32768 {
            file_content.len()
        } else {
            32768
        };
        false
    }

    /// Loading is not implemented: always an error.
    pub fn load(
        &mut self,
        _kernel_file: &[u8],
        _cmdline: Option<&str>,
        _modules: Vec<LoadedFile>,
        _memory_map_buffer: (u64, u64),
        _framebuffer: Option<FramebufferInfo>,
    ) -> (r: BootResult<KernelLaunchInfo>)
        ensures
            r matches Err(e) && e == BootError::Generic("Multiboot2 ainda não implementado"),
    {
        Err(BootError::Generic("Multiboot2 ainda não implementado"))
    }
}

} // verus!

//! The Limine boot protocol, native to Redstone OS.

use vstd::prelude::*;

use super::{BootInfo, BootProtocol, ProtocolRegisters};
use crate::error::{BootError, BootResult};
use crate::memory::allocator::FrameAllocator;
use crate::types::{LoadedFile, LoadedKernel};

verus! {

/// Whether a file starts with the ELF magic `\x7fELF`.
pub open spec fn has_elf_magic(f: Seq<u8>) -> bool {
    f.len() >= 4 && f[0] == 0x7Fu8 && f[1] == 0x45u8 && f[2] == 0x4Cu8 && f[3] == 0x46u8
}

/// The Limine protocol.
pub struct LimineProtocol<'a, A: FrameAllocator + ?Sized> {
    allocator: &'a mut A,
    entry_point: u64,
    kernel_base: u64,
    kernel_size: u64,
}

impl<'a, A: FrameAllocator + ?Sized> LimineProtocol<'a, A> {
    /// Entry point recorded by `prepare`.
    pub closed spec fn spec_entry_point(&self) -> u64 {
        self.entry_point
    }

    /// The protocol over a frame allocator; nothing loaded yet.
    pub fn new(allocator: &'a mut A) -> (r: Self)
        ensures
            r.spec_entry_point() == 0,
    {
        Self { allocator, entry_point: 0, kernel_base: 0, kernel_size: 0 }
    }
}

impl<'a, A: FrameAllocator + ?Sized> BootProtocol for LimineProtocol<'a, A> {
    /// Every file can be checked and prepared.
    open spec fn accepts(&self, kernel: Seq<u8>) -> bool {
        true
    }

    /// The kernel must be at least 64 bytes (an ELF header) and start with
    /// the ELF magic.
    fn validate(&self, kernel: &[u8]) -> (r: BootResult<()>)
        ensures
            kernel@.len() < 64 ==> r == Err::<(), BootError>(BootError::Generic("Kernel file too small")),
            kernel@.len() >= 64 && !has_elf_magic(kernel@) ==> r == Err::<(), BootError>(
                BootError::Generic("Invalid ELF magic"),
            ),
            kernel@.len() >= 64 && has_elf_magic(kernel@) ==> r is Ok,
    {
        if kernel.len() < 64 {
            return Err(BootError::Generic("Kernel file too small"));
        }
        if !(kernel[0] == 0x7F && kernel[1] == 0x45 && kernel[2] == 0x4C && kernel[3] == 0x46) {
            return Err(BootError::Generic("Invalid ELF magic"));
        }
        Ok(())
    }

    /// Records where the ELF loader put the kernel and hands it over with
    /// no stack and no boot-information block yet.
    fn prepare(
        &mut self,
        _kernel: &[u8],
        loaded: &LoadedKernel,
        _cmdline: Option<&str>,
        _modules: &[LoadedFile],
    ) -> (r: BootResult<BootInfo>)
        ensures
            r matches Ok(info) && info.entry_point == loaded.entry_point && info.kernel_base
                == loaded.base_address && info.kernel_size == loaded.size && info.stack_ptr is None
                && info.boot_info_ptr == 0 && info.registers.is_empty(),
            final(self).spec_entry_point() == loaded.entry_point,
    {
        self.entry_point = loaded.entry_point;
        self.kernel_base = loaded.base_address;
        self.kernel_size = loaded.size;
        Ok(BootInfo {
            entry_point: self.entry_point,
            kernel_base: self.kernel_base,
            kernel_size: self.kernel_size,
            stack_ptr: None,
            boot_info_ptr: 0,
            registers: ProtocolRegisters::default(),
        })
    }

    fn entry_point(&self) -> (r: u64)
        ensures
            r == self.spec_entry_point(),
    {
        self.entry_point
    }

    fn name(&self) -> (r: &'static str)
        ensures
            r == "limine",
    {
        "limine"
    }
}

} // verus!

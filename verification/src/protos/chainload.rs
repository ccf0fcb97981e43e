//! EFI chainloading (another `.efi`: Windows Boot Manager, GRUB).

use vstd::prelude::*;

use super::KernelLaunchInfo;
use crate::error::{BootError, BootResult};
use crate::types::LoadedFile;

verus! {

/// Whether a file starts with the PE/COFF signature `MZ` (and is longer
/// than two bytes).
pub open spec fn has_mz_signature(f: Seq<u8>) -> bool {
    f.len() > 2 && f[0] == 0x4Du8 && f[1] == 0x5Au8
}

/// The EFI chainload protocol.
pub struct ChainloadProtocol;

impl ChainloadProtocol {
    /// Name of the protocol.
    pub fn name(&self) -> (r: &'static str)
        ensures
            r == "EFI Chainload",
    {
        "EFI Chainload"
    }

    /// Whether the file is a PE/COFF image.
    pub fn identify(&self, file_content: &[u8]) -> (r: bool)
        ensures
            r == has_mz_signature(file_content@),
    {
        file_content.len() > 2 && file_content[0] == 0x4D && file_content[1] == 0x5A
    }

    /// Chainloading goes through the firmware's LoadImage/StartImage and
    /// never returns launch information: always an error.
    pub fn load(
        &mut self,
        _kernel_file: &[u8],
        _cmdline: Option<&str>,
        _modules: Vec<LoadedFile>,
        _memory_map_buffer: (u64, u64),
    ) -> (r: BootResult<KernelLaunchInfo>)
        ensures
            r matches Err(e) && e == BootError::Generic("Chainload deve ser executado diretamente"),
    {
        Err(BootError::Generic("Chainload deve ser executado diretamente"))
    }
}

} // verus!

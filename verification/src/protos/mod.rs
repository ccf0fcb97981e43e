//! Boot protocols: how a kernel is recognised, prepared and entered.
//!
//! Supported: the native Redstone protocol, Limine, Multiboot 1; Linux,
//! Multiboot 2 and EFI chainloading are recognised but not implemented.

use vstd::prelude::*;

use crate::error::BootResult;
use crate::text::{ascii_upper, eq_lower, lower_code, lowers_to};
use crate::types::{LoadedFile, LoadedKernel};

pub mod chainload;
pub mod limine;
pub mod linux;
pub mod multiboot1;
pub mod multiboot2;
pub mod redstone;

verus! {

/// A boot protocol.
///
/// `prepare` receives what the ELF loader made of the kernel when the
/// protocol loads it as ELF.
pub trait BootProtocol {
    /// The kernel files the protocol's steps are defined on.
    spec fn accepts(&self, kernel: Seq<u8>) -> bool;

    /// Checks that the kernel suits the protocol.
    fn validate(&self, kernel: &[u8]) -> BootResult<()>
        requires
            self.accepts(kernel@),
    ;

    /// Prepares the kernel and the boot information for the hand-off.
    fn prepare(
        &mut self,
        kernel: &[u8],
        loaded: &LoadedKernel,
        cmdline: Option<&str>,
        modules: &[LoadedFile],
    ) -> BootResult<BootInfo>
        requires
            old(self).accepts(kernel@),
    ;

    /// The entry-point address.
    fn entry_point(&self) -> u64;

    /// Name of the protocol, for logs.
    fn name(&self) -> &'static str;
}

/// Boot information prepared by a protocol.
#[derive(Debug)]
pub struct BootInfo {
    /// Address to jump to.
    pub entry_point: u64,
    /// Base address of the kernel in memory.
    pub kernel_base: u64,
    /// Size of the kernel in bytes.
    pub kernel_size: u64,
    /// Stack pointer, when the protocol sets up the stack.
    pub stack_ptr: Option<u64>,
    /// Protocol-specific boot information, passed in RDI.
    pub boot_info_ptr: u64,
    /// Further registers to set.
    pub registers: ProtocolRegisters,
}

/// Register values a protocol asks for.
#[derive(Debug)]
pub struct ProtocolRegisters {
    pub rax: Option<u64>,
    pub rbx: Option<u64>,
    pub rcx: Option<u64>,
    pub rdx: Option<u64>,
    pub rsi: Option<u64>,
    pub r8: Option<u64>,
    pub r9: Option<u64>,
}

impl ProtocolRegisters {
    /// No register set.
    pub open spec fn is_empty(self) -> bool {
        self.rax is None && self.rbx is None && self.rcx is None && self.rdx is None && self.rsi is None
            && self.r8 is None && self.r9 is None
    }
}

impl Default for ProtocolRegisters {
    fn default() -> (r: Self)
        ensures
            r.is_empty(),
    {
        Self { rax: None, rbx: None, rcx: None, rdx: None, rsi: None, r8: None, r9: None }
    }
}

/// What a protocol hands the final jump.
#[derive(Debug, Clone, Copy, PartialEq, Eq)]
pub struct KernelLaunchInfo {
    pub entry_point: u64,
    pub use_fixed_redstone_entry: bool,
    pub stack_pointer: Option<u64>,
    pub rdi: u64,
    pub rsi: u64,
    pub rdx: u64,
    pub rbx: u64,
}

/// The protocols.
#[derive(Debug, Clone, Copy, PartialEq, Eq, Structural)]
pub enum ProtocolType {
    /// Native Limine protocol.
    Limine,
    /// Linux boot protocol.
    Linux,
    /// Multiboot version 2.
    Multiboot2,
    /// EFI chainloading.
    EfiChainload,
    /// BIOS chainloading.
    BiosChainload,
}

/// The protocol a (lower-cased) name denotes.
pub open spec fn protocol_of_name(s: Seq<char>) -> Option<ProtocolType> {
    if lowers_to(s, "limine"@) || lowers_to(s, "native"@) {
        Some(ProtocolType::Limine)
    } else if lowers_to(s, "linux"@) {
        Some(ProtocolType::Linux)
    } else if lowers_to(s, "multiboot2"@) {
        Some(ProtocolType::Multiboot2)
    } else if lowers_to(s, "efi"@) || lowers_to(s, "uefi"@) || lowers_to(s, "efi_chainload"@) {
        Some(ProtocolType::EfiChainload)
    } else if lowers_to(s, "bios"@) || lowers_to(s, "bios_chainload"@) {
        Some(ProtocolType::BiosChainload)
    } else {
        None
    }
}

/// The canonical name of a protocol.
pub open spec fn protocol_name(t: ProtocolType) -> Seq<char> {
    match t {
        ProtocolType::Limine => "limine"@,
        ProtocolType::Linux => "linux"@,
        ProtocolType::Multiboot2 => "multiboot2"@,
        ProtocolType::EfiChainload => "efi_chainload"@,
        ProtocolType::BiosChainload => "bios_chainload"@,
    }
}

impl ProtocolType {
    /// The protocol named `s`, ignoring case.
    pub fn from_str(s: &str) -> (r: Option<Self>)
        ensures
            r == protocol_of_name(s@),
    {
        if eq_lower(s, "limine") || eq_lower(s, "native") {
            Some(Self::Limine)
        } else if eq_lower(s, "linux") {
            Some(Self::Linux)
        } else if eq_lower(s, "multiboot2") {
            Some(Self::Multiboot2)
        } else if eq_lower(s, "efi") || eq_lower(s, "uefi") || eq_lower(s, "efi_chainload") {
            Some(Self::EfiChainload)
        } else if eq_lower(s, "bios") || eq_lower(s, "bios_chainload") {
            Some(Self::BiosChainload)
        } else {
            None
        }
    }

    /// The protocol's canonical name.
    pub fn as_str(&self) -> (r: &'static str)
        ensures
            r@ == protocol_name(*self),
    {
        match self {
            Self::Limine => "limine",
            Self::Linux => "linux",
            Self::Multiboot2 => "multiboot2",
            Self::EfiChainload => "efi_chainload",
            Self::BiosChainload => "bios_chainload",
        }
    }
}

/// Parsing a protocol's canonical name gives the protocol back.
pub proof fn law_name_round_trip(t: ProtocolType)
    ensures
        protocol_of_name(protocol_name(t)) == Some(t),
{
    reveal_strlit("limine");
    reveal_strlit("native");
    reveal_strlit("linux");
    reveal_strlit("multiboot2");
    reveal_strlit("efi");
    reveal_strlit("uefi");
    reveal_strlit("efi_chainload");
    reveal_strlit("bios");
    reveal_strlit("bios_chainload");
    let n = protocol_name(t);
    assert(lowers_to(n, n));
}

/// Any spelling of a protocol's canonical name, in any case, parses back
/// to that protocol.
pub proof fn law_name_any_case(t: ProtocolType, s: Seq<char>)
    requires
        lowers_to(s, protocol_name(t)),
    ensures
        protocol_of_name(s) == Some(t),
{
    reveal_strlit("limine");
    reveal_strlit("native");
    reveal_strlit("linux");
    reveal_strlit("multiboot2");
    reveal_strlit("efi");
    reveal_strlit("uefi");
    reveal_strlit("efi_chainload");
    reveal_strlit("bios");
    reveal_strlit("bios_chainload");
}

/// In particular a canonical name in upper case parses back to its
/// protocol.
pub proof fn law_upper_name(t: ProtocolType)
    ensures
        protocol_of_name(ascii_upper(protocol_name(t))) == Some(t),
{
    reveal_strlit("limine");
    reveal_strlit("linux");
    reveal_strlit("multiboot2");
    reveal_strlit("efi_chainload");
    reveal_strlit("bios_chainload");
    let n = protocol_name(t);
    let u = ascii_upper(n);
    assert forall|j: int| 0 <= j < n.len() implies lower_code(#[trigger] u[0 + j]) == n[j] as u32 by {
        assert(0 + j == j);
    }
    assert(lowers_to(u, n));
    law_name_any_case(t, u);
}

/// Every name the protocols answer to parses to its protocol, in any case:
/// "limine" and "native" to Limine, "linux" to Linux, "multiboot2" to
/// Multiboot 2, "efi", "uefi" and "efi_chainload" to EFI chainloading,
/// "bios" and "bios_chainload" to BIOS chainloading.
pub proof fn law_protocol_aliases(s: Seq<char>)
    ensures
        lowers_to(s, "limine"@) ==> protocol_of_name(s) == Some(ProtocolType::Limine),
        lowers_to(s, "native"@) ==> protocol_of_name(s) == Some(ProtocolType::Limine),
        lowers_to(s, "linux"@) ==> protocol_of_name(s) == Some(ProtocolType::Linux),
        lowers_to(s, "multiboot2"@) ==> protocol_of_name(s) == Some(ProtocolType::Multiboot2),
        lowers_to(s, "efi"@) ==> protocol_of_name(s) == Some(ProtocolType::EfiChainload),
        lowers_to(s, "uefi"@) ==> protocol_of_name(s) == Some(ProtocolType::EfiChainload),
        lowers_to(s, "efi_chainload"@) ==> protocol_of_name(s) == Some(ProtocolType::EfiChainload),
        lowers_to(s, "bios"@) ==> protocol_of_name(s) == Some(ProtocolType::BiosChainload),
        lowers_to(s, "bios_chainload"@) ==> protocol_of_name(s) == Some(ProtocolType::BiosChainload),
        protocol_of_name(s) == Some(ProtocolType::Limine) ==> lowers_to(s, "limine"@) || lowers_to(s, "native"@),
        protocol_of_name(s) == Some(ProtocolType::Linux) ==> lowers_to(s, "linux"@),
        protocol_of_name(s) == Some(ProtocolType::Multiboot2) ==> lowers_to(s, "multiboot2"@),
        protocol_of_name(s) == Some(ProtocolType::EfiChainload) ==> lowers_to(s, "efi"@) || lowers_to(s, "uefi"@)
            || lowers_to(s, "efi_chainload"@),
        protocol_of_name(s) == Some(ProtocolType::BiosChainload) ==> lowers_to(s, "bios"@) || lowers_to(
            s,
            "bios_chainload"@,
        ),
{
    reveal_strlit("limine");
    reveal_strlit("native");
    reveal_strlit("linux");
    reveal_strlit("multiboot2");
    reveal_strlit("efi");
    reveal_strlit("uefi");
    reveal_strlit("efi_chainload");
    reveal_strlit("bios");
    reveal_strlit("bios_chainload");
    if lowers_to(s, "bios"@) {
        let z: int = 0;
        assert(lower_code(s[z + z]) == "bios"@[z] as u32);
        assert(!lowers_to(s, "uefi"@));
    }
}

} // verus!

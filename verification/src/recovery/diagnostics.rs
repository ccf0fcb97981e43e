//! Pre-boot health check.

use vstd::prelude::*;

verus! {

/// Outcome of a check.
#[derive(Debug, PartialEq, Eq)]
pub enum HealthStatus {
    Healthy,
    Warning(&'static str),
    Critical(&'static str),
}

/// Minimum recommended UEFI revision (2.0: major in the high 16 bits).
pub const MIN_UEFI_REVISION: u32 = 0x0002_0000;

/// The checks.
pub struct Diagnostics;

impl Diagnostics {
    /// Judges an entry from what the file loader found: the kernel must be
    /// there (else critical); a missing module is a warning.
    pub fn check_entry(kernel_found: bool, modules_found: &[bool]) -> (r: HealthStatus)
        ensures
            !kernel_found ==> r == HealthStatus::Critical("Arquivo do Kernel ausente"),
            kernel_found && (exists|i: int| 0 <= i < modules_found@.len() && !modules_found@[i])
                ==> r == HealthStatus::Warning("Módulo ausente"),
            kernel_found && (forall|i: int| 0 <= i < modules_found@.len() ==> modules_found@[i])
                ==> r == HealthStatus::Healthy,
    {
        if !kernel_found {
            return HealthStatus::Critical("Arquivo do Kernel ausente");
        }
        let mut i: usize = 0;
        while i < modules_found.len()
            invariant
                kernel_found,
                i <= modules_found@.len(),
                forall|x: int| 0 <= x < i ==> modules_found@[x],
            decreases modules_found@.len() - i,
        {
            if !modules_found[i] {
                return HealthStatus::Warning("Módulo ausente");
            }
            i = i + 1;
        }
        HealthStatus::Healthy
    }

    /// Judges the firmware by its UEFI revision: below 2.0 is a warning.
    pub fn check_firmware(revision: u32) -> (r: HealthStatus)
        ensures
            revision < MIN_UEFI_REVISION ==> r == HealthStatus::Warning(
                "Versão UEFI antiga detectada (< 2.0). Algumas features podem falhar.",
            ),
            revision >= MIN_UEFI_REVISION ==> r == HealthStatus::Healthy,
    {
        if revision < MIN_UEFI_REVISION {
            return HealthStatus::Warning(
                "Versão UEFI antiga detectada (< 2.0). Algumas features podem falhar.",
            );
        }
        HealthStatus::Healthy
    }
}

} // verus!

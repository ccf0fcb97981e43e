//! Rollback protection: kernels older than a minimum version are reported
//! (permissive mode: the boot goes on).

use vstd::prelude::*;

verus! {

/// A kernel version (simplified semver), ordered by major, then minor,
/// then patch.
#[derive(Debug, Clone, Copy, PartialEq, Eq, Structural)]
pub struct KernelVersion {
    pub major: u16,
    pub minor: u16,
    pub patch: u16,
}

/// `a` comes before `b` in the version order.
pub open spec fn version_lt(a: KernelVersion, b: KernelVersion) -> bool {
    a.major < b.major || (a.major == b.major && (a.minor < b.minor || (a.minor == b.minor
        && a.patch < b.patch)))
}

/// The oldest version allowed: 0.1.0.
pub open spec fn minimum_version() -> KernelVersion {
    KernelVersion { major: 0, minor: 1, patch: 0 }
}

/// The boot loader's own version: 0.2.0.
pub open spec fn bootloader_version() -> KernelVersion {
    KernelVersion { major: 0, minor: 2, patch: 0 }
}

impl KernelVersion {
    /// A version.
    pub fn new(major: u16, minor: u16, patch: u16) -> (r: Self)
        ensures
            r == (KernelVersion { major, minor, patch }),
    {
        Self { major, minor, patch }
    }

    /// The oldest version allowed.
    pub fn minimum() -> (r: Self)
        ensures
            r == minimum_version(),
    {
        Self::new(0, 1, 0)
    }

    /// The boot loader's version.
    pub fn bootloader() -> (r: Self)
        ensures
            r == bootloader_version(),
    {
        Self::new(0, 2, 0)
    }

    /// Whether `self` comes before `other`.
    pub fn less_than(&self, other: &Self) -> (r: bool)
        ensures
            r == version_lt(*self, *other),
    {
        self.major < other.major || (self.major == other.major && (self.minor < other.minor || (
        self.minor == other.minor && self.patch < other.patch)))
    }
}

/// Outcome of the rollback check.
#[derive(Debug, Clone, Copy, PartialEq, Eq, Structural)]
pub enum RollbackResult {
    /// The version is allowed.
    Allowed,
    /// The version is below the minimum.
    BelowMinimum,
}

/// Rollback protection.
pub struct RollbackProtection;

impl RollbackProtection {
    /// Checks `version` against the minimum.
    pub fn check_version(version: KernelVersion) -> (r: RollbackResult)
        ensures
            r == if version_lt(version, minimum_version()) {
                RollbackResult::BelowMinimum
            } else {
                RollbackResult::Allowed
            },
    {
        if version.less_than(&KernelVersion::minimum()) {
            RollbackResult::BelowMinimum
        } else {
            RollbackResult::Allowed
        }
    }

    /// The version of an ELF kernel. Not read from the file yet: every
    /// kernel is taken to be of the boot loader's version.
    pub fn extract_version(_elf_data: &[u8]) -> (r: Option<KernelVersion>)
        ensures
            r == Some(bootloader_version()),
    {
        Some(KernelVersion::bootloader())
    }

    /// The bytes saved in the firmware variable for `version`: major, minor
    /// and patch, each as a little-endian `u16`. The caller writes them.
    pub fn save_current_version(version: KernelVersion) -> (r: [u8; 6])
        ensures
            r@ == version_bytes(version),
    {
        [
            (version.major % 256) as u8,
            (version.major / 256) as u8,
            (version.minor % 256) as u8,
            (version.minor / 256) as u8,
            (version.patch % 256) as u8,
            (version.patch / 256) as u8,
        ]
    }

    /// The last version saved, from the variable's contents as read
    /// (`None` when it could not be read); `None` unless exactly six bytes
    /// were stored.
    pub fn load_last_version(stored: Option<&[u8]>) -> (r: Option<KernelVersion>)
        ensures
            r == match stored {
                Some(b) => decode_version(b@),
                None => None,
            },
    {
        match stored {
            Some(b) => {
                if b.len() != 6 {
                    return None;
                }
                Some(
                    KernelVersion {
                        major: b[0] as u16 + (b[1] as u16) * 256,
                        minor: b[2] as u16 + (b[3] as u16) * 256,
                        patch: b[4] as u16 + (b[5] as u16) * 256,
                    },
                )
            },
            None => None,
        }
    }
}

/// The stored form of a version: each part as a little-endian `u16`.
pub open spec fn version_bytes(v: KernelVersion) -> Seq<u8> {
    seq![
        (v.major % 256) as u8,
        (v.major / 256) as u8,
        (v.minor % 256) as u8,
        (v.minor / 256) as u8,
        (v.patch % 256) as u8,
        (v.patch / 256) as u8,
    ]
}

/// The version stored in `b`, if it has the stored form's length.
pub open spec fn decode_version(b: Seq<u8>) -> Option<KernelVersion> {
    if b.len() == 6 {
        Some(
            KernelVersion {
                major: (b[0] + b[1] * 256) as u16,
                minor: (b[2] + b[3] * 256) as u16,
                patch: (b[4] + b[5] * 256) as u16,
            },
        )
    } else {
        None
    }
}

/// Loading what was saved gives the saved version back.
pub proof fn law_version_round_trip(v: KernelVersion)
    ensures
        decode_version(version_bytes(v)) == Some(v),
{
}

/// The version order is a strict total order.
pub proof fn law_version_order(a: KernelVersion, b: KernelVersion, c: KernelVersion)
    ensures
        !version_lt(a, a),
        version_lt(a, b) ==> !version_lt(b, a),
        version_lt(a, b) && version_lt(b, c) ==> version_lt(a, c),
        a != b ==> version_lt(a, b) || version_lt(b, a),
{
}

/// Any kernel whose version is read from its file passes the check.
pub proof fn law_extracted_version_allowed()
    ensures
        !version_lt(bootloader_version(), minimum_version()),
{
}

/// The version order is the order of the number `major.minor.patch` reads
/// as, each part a 16-bit digit: major first, then minor, then patch. So a
/// version is allowed exactly when that number is at least the minimum's.
pub proof fn law_version_order_is_numeric(a: KernelVersion, b: KernelVersion)
    ensures
        version_lt(a, b) <==> a.major * 0x1_0000_0000 + a.minor * 0x1_0000 + a.patch < b.major * 0x1_0000_0000
            + b.minor * 0x1_0000 + b.patch,
        !version_lt(a, minimum_version()) <==> a.major * 0x1_0000_0000 + a.minor * 0x1_0000 + a.patch
            >= 0x1_0000,
{
    let ka = a.major * 0x1_0000_0000 + a.minor * 0x1_0000 + a.patch;
    let kb = b.major * 0x1_0000_0000 + b.minor * 0x1_0000 + b.patch;
    assert(version_lt(a, b) <==> ka < kb) by (nonlinear_arith)
        requires
            ka == a.major * 0x1_0000_0000 + a.minor * 0x1_0000 + a.patch,
            kb == b.major * 0x1_0000_0000 + b.minor * 0x1_0000 + b.patch,
            0 <= a.major < 0x1_0000,
            0 <= a.minor < 0x1_0000,
            0 <= a.patch < 0x1_0000,
            0 <= b.major < 0x1_0000,
            0 <= b.minor < 0x1_0000,
            0 <= b.patch < 0x1_0000,
            version_lt(a, b) == (a.major < b.major || (a.major == b.major && (a.minor < b.minor || (a.minor
                == b.minor && a.patch < b.patch)))),
    ;
    let m = minimum_version();
    assert(version_lt(a, m) <==> ka < 0x1_0000) by (nonlinear_arith)
        requires
            ka == a.major * 0x1_0000_0000 + a.minor * 0x1_0000 + a.patch,
            0 <= a.major < 0x1_0000,
            0 <= a.minor < 0x1_0000,
            0 <= a.patch < 0x1_0000,
            version_lt(a, m) == (a.major < 0 || (a.major == 0 && (a.minor < 1 || (a.minor == 1 && a.patch < 0)))),
    ;
}

} // verus!

//! Finding the ACPI root pointer (RSDP) among the firmware's
//! configuration tables.
//!
//! The firmware glue reads the 36 bytes at each candidate address and,
//! for the chosen table, copies `length` bytes to a page-aligned buffer for
//! the kernel.

use vstd::prelude::*;

verus! {

/// Size of the RSDP structure (ACPI 2.0 layout).
pub const RSDP_SIZE: usize = 36;

/// The RSDP failed a check.
#[derive(Debug, Clone, Copy, PartialEq, Eq, Structural)]
pub struct Invalid;

/// Sum of the bytes of `s`.
pub open spec fn byte_sum(s: Seq<u8>) -> int
    decreases s.len(),
{
    if s.len() == 0 {
        0
    } else {
        byte_sum(s.drop_last()) + s.last()
    }
}

/// The first `n` bytes add up to 0 modulo 256.
pub open spec fn checksum_zero(s: Seq<u8>, n: int) -> bool {
    byte_sum(s.subrange(0, n)) % 256 == 0
}

/// The signature "RSD PTR ".
pub open spec fn rsdp_signature_ok(s: Seq<u8>) -> bool {
    s[0] == 0x52u8 && s[1] == 0x53u8 && s[2] == 0x44u8 && s[3] == 0x20u8 && s[4] == 0x50u8
        && s[5] == 0x54u8 && s[6] == 0x52u8 && s[7] == 0x20u8
}

/// The revision byte.
pub open spec fn rsdp_revision(s: Seq<u8>) -> u8 {
    s[15]
}

/// An RSDP is valid: signature, checksum of the first 20 bytes, and for
/// revision 2 the extended checksum of all 36 bytes.
pub open spec fn rsdp_valid(s: Seq<u8>) -> bool {
    &&& rsdp_signature_ok(s)
    &&& checksum_zero(s, 20)
    &&& rsdp_revision(s) == 2 ==> checksum_zero(s, 36)
}

/// Length of the table: the length field for revision 2, else 36.
pub open spec fn rsdp_length(s: Seq<u8>) -> int {
    if rsdp_revision(s) == 2 {
        s[20] + s[21] * 0x100 + s[22] * 0x1_0000 + s[23] * 0x100_0000
    } else {
        36
    }
}

fn sum_bytes(s: &[u8], n: usize) -> (r: u8)
    requires
        n <= s@.len(),
    ensures
        r == byte_sum(s@.subrange(0, n as int)) % 256,
{
    let mut acc: u8 = 0;
    let mut i: usize = 0;
    while i < n
        invariant
            n <= s@.len(),
            i <= n,
            acc == byte_sum(s@.subrange(0, i as int)) % 256,
        decreases n - i,
    {
        let b = s[i];
        proof {
            let t = s@.subrange(0, i as int + 1);
            assert(t.drop_last() =~= s@.subrange(0, i as int));
            let x = byte_sum(s@.subrange(0, i as int));
            vstd::arithmetic::div_mod::lemma_add_mod_noop(x, b as int, 256);
            vstd::arithmetic::div_mod::lemma_small_mod(b as nat, 256);
            assert((x % 256 + b) % 256 == (x + b) % 256);
        }
        acc = acc.wrapping_add(b);
        i = i + 1;
    }
    acc
}

/// Checks the RSDP in `rsdp` (the 36 bytes at its address) and returns its
/// length.
pub fn validate_rsdp(rsdp: &[u8]) -> (r: Result<usize, Invalid>)
    requires
        rsdp@.len() == RSDP_SIZE,
    ensures
        r is Ok <==> rsdp_valid(rsdp@),
        r matches Ok(len) ==> len == rsdp_length(rsdp@),
{
    if !(rsdp[0] == 0x52 && rsdp[1] == 0x53 && rsdp[2] == 0x44 && rsdp[3] == 0x20 && rsdp[4] == 0x50
        && rsdp[5] == 0x54 && rsdp[6] == 0x52 && rsdp[7] == 0x20) {
        return Err(Invalid);
    }
    if sum_bytes(rsdp, 20) != 0 {
        return Err(Invalid);
    }
    let revision = rsdp[15];
    if revision == 2 {
        if sum_bytes(rsdp, 36) != 0 {
            return Err(Invalid);
        }
    }
    let length = if revision == 2 {
        (rsdp[20] as u32 + (rsdp[21] as u32) * 0x100 + (rsdp[22] as u32) * 0x1_0000 + (rsdp[23] as u32)
            * 0x100_0000) as usize
    } else {
        RSDP_SIZE
    };
    Ok(length)
}

/// Which configuration table an entry is.
#[derive(Debug, Clone, Copy, PartialEq, Eq, Structural)]
pub enum ConfigTableKind {
    /// ACPI 1.0 table GUID.
    Acpi1,
    /// ACPI 2.0 table GUID.
    Acpi2,
    /// Any other table.
    Other,
}

/// A configuration table: its kind, its address and the 36 bytes there.
pub struct ConfigTable {
    pub kind: ConfigTableKind,
    pub address: u64,
    pub header: Vec<u8>,
}

/// The last valid RSDP of `kind` among `ts`, as (address, length).
pub open spec fn last_valid(ts: Seq<ConfigTable>, kind: ConfigTableKind) -> Option<(u64, int)>
    decreases ts.len(),
{
    if ts.len() == 0 {
        None
    } else if ts.last().kind == kind && rsdp_valid(ts.last().header@) {
        Some((ts.last().address, rsdp_length(ts.last().header@)))
    } else {
        last_valid(ts.drop_last(), kind)
    }
}

/// The RSDP to hand over: the last valid ACPI 2.0 one, else the last valid
/// ACPI 1.0 one; none if that has length 0.
pub open spec fn chosen_rsdp(ts: Seq<ConfigTable>) -> Option<(u64, int)> {
    let c = match last_valid(ts, ConfigTableKind::Acpi2) {
        Some(x) => Some(x),
        None => last_valid(ts, ConfigTableKind::Acpi1),
    };
    match c {
        Some((a, l)) => if l != 0 {
            Some((a, l))
        } else {
            None
        },
        None => None,
    }
}

/// Picks the RSDP among the configuration tables; returns its address
/// and length.
pub fn find_acpi_table_pointers(tables: &[ConfigTable]) -> (r: Option<(u64, u64)>)
    requires
        forall|i: int| 0 <= i < tables@.len() ==> (#[trigger] tables@[i]).header@.len() == RSDP_SIZE,
    ensures
        r matches Some((a, l)) ==> chosen_rsdp(tables@) == Some((a, l as int)),
        r is None ==> chosen_rsdp(tables@) is None,
{
    let mut acpi: Option<(u64, usize)> = None;
    let mut acpi2: Option<(u64, usize)> = None;
    let mut i: usize = 0;
    while i < tables.len()
        invariant
            i <= tables@.len(),
            forall|x: int| 0 <= x < tables@.len() ==> (#[trigger] tables@[x]).header@.len() == RSDP_SIZE,
            match acpi {
                Some((a, l)) => last_valid(tables@.subrange(0, i as int), ConfigTableKind::Acpi1)
                    == Some((a, l as int)),
                None => last_valid(tables@.subrange(0, i as int), ConfigTableKind::Acpi1) is None,
            },
            match acpi2 {
                Some((a, l)) => last_valid(tables@.subrange(0, i as int), ConfigTableKind::Acpi2)
                    == Some((a, l as int)),
                None => last_valid(tables@.subrange(0, i as int), ConfigTableKind::Acpi2) is None,
            },
        decreases tables@.len() - i,
    {
        let t = &tables[i];
        proof {
            let s = tables@.subrange(0, i as int + 1);
            assert(s.drop_last() =~= tables@.subrange(0, i as int));
            assert(s.last() == tables@[i as int]);
        }
        match t.kind {
            ConfigTableKind::Acpi1 => {
                match validate_rsdp(t.header.as_slice()) {
                    Ok(len) => {
                        acpi = Some((t.address, len));
                    },
                    Err(_) => {},
                }
            },
            ConfigTableKind::Acpi2 => {
                match validate_rsdp(t.header.as_slice()) {
                    Ok(len) => {
                        acpi2 = Some((t.address, len));
                    },
                    Err(_) => {},
                }
            },
            ConfigTableKind::Other => {},
        }
        i = i + 1;
    }
    assert(tables@.subrange(0, tables@.len() as int) =~= tables@);
    let chosen = match acpi2 {
        Some(x) => Some(x),
        None => acpi,
    };
    match chosen {
        Some((addr, len)) => if len != 0 {
            Some((addr, len as u64))
        } else {
            None
        },
        None => None,
    }
}

} // verus!

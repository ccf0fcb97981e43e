//! The parts of the UEFI environment that compute rather than call the
//! firmware.

use vstd::prelude::*;

use super::OsKey;

pub mod acpi;
pub mod device;
pub mod disk;
pub mod display;
pub mod memory_map;

verus! {

/// Page size of the UEFI environment.
pub fn page_size() -> (r: usize)
    ensures
        r == 4096,
{
    4096
}

/// Pages needed for `size` bytes (rounded up).
pub fn pages_for(size: usize) -> (r: usize)
    ensures
        r == (size + 4095) / 4096,
        r * 4096 >= size,
{
    let q = size / 0x1000;
    if size % 0x1000 == 0 {
        q
    } else {
        q + 1
    }
}

/// Scan codes of the UEFI simple text input protocol.
pub const SCAN_UP: u16 = 0x01;

pub const SCAN_DOWN: u16 = 0x02;

pub const SCAN_RIGHT: u16 = 0x03;

pub const SCAN_LEFT: u16 = 0x04;

pub const SCAN_DELETE: u16 = 0x08;

/// A key as the firmware reports it.
#[derive(Debug, Clone, Copy, PartialEq, Eq)]
pub enum TextInputKey {
    /// A printable character.
    Printable(char),
    /// A special key, by scan code.
    Special(u16),
}

/// The key a firmware key event stands for.
pub open spec fn key_of(k: TextInputKey) -> OsKey {
    match k {
        TextInputKey::Printable(c) => if c == '\u{8}' {
            OsKey::Backspace
        } else if c == '\r' {
            OsKey::Enter
        } else {
            OsKey::Char(c)
        },
        TextInputKey::Special(sc) => if sc == SCAN_UP {
            OsKey::Up
        } else if sc == SCAN_DOWN {
            OsKey::Down
        } else if sc == SCAN_RIGHT {
            OsKey::Right
        } else if sc == SCAN_LEFT {
            OsKey::Left
        } else if sc == SCAN_DELETE {
            OsKey::Delete
        } else {
            OsKey::Other
        },
    }
}

/// Translates a firmware key event.
pub fn translate_key(key: TextInputKey) -> (r: OsKey)
    ensures
        r == key_of(key),
{
    match key {
        TextInputKey::Printable(ch) => {
            if ch == '\u{8}' {
                OsKey::Backspace
            } else if ch == '\r' {
                OsKey::Enter
            } else {
                OsKey::Char(ch)
            }
        },
        TextInputKey::Special(sc) => {
            if sc == SCAN_UP {
                OsKey::Up
            } else if sc == SCAN_DOWN {
                OsKey::Down
            } else if sc == SCAN_RIGHT {
                OsKey::Right
            } else if sc == SCAN_LEFT {
                OsKey::Left
            } else if sc == SCAN_DELETE {
                OsKey::Delete
            } else {
                OsKey::Other
            }
        },
    }
}

/// A path as the firmware's file system expects it: `/` separators become
/// `\`.
pub open spec fn firmware_path_of(path: Seq<char>) -> Seq<char> {
    path.map_values(|c: char| if c == '/' { '\\' } else { c })
}

/// The firmware form of a file path (see `firmware_path_of`).
pub fn firmware_path(path: &str) -> (r: Vec<char>)
    ensures
        r@ == firmware_path_of(path@),
{
    let n = path.unicode_len();
    let mut out: Vec<char> = Vec::new();
    let mut i: usize = 0;
    while i < n
        invariant
            n == path@.len(),
            i <= n,
            out@ == firmware_path_of(path@.subrange(0, i as int)),
        decreases n - i,
    {
        let c = path.get_char(i);
        if c == '/' {
            out.push('\\');
        } else {
            out.push(c);
        }
        i = i + 1;
        assert(out@ =~= firmware_path_of(path@.subrange(0, i as int)));
    }
    assert(path@.subrange(0, n as int) =~= path@);
    out
}

} // verus!

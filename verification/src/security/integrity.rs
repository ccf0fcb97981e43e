//! File integrity: hashes compared in permissive mode (a mismatch is
//! reported, the boot goes on).

use vstd::prelude::*;

use super::sha256::{sha256, sha256_digest};

verus! {

/// Outcome of an integrity check.
#[derive(Debug, Clone, Copy, PartialEq, Eq, Structural)]
pub enum VerificationResult {
    /// The hash matches the expected one.
    Valid,
    /// The hash differs (corruption or modification).
    Mismatch,
    /// No hash to compare with.
    NoHash,
}

/// The value of hexadecimal digit `c`, either case.
pub open spec fn hex_digit_value(c: char) -> Option<u8> {
    if '0' <= c && c <= '9' {
        Some((c as u32 - 48) as u8)
    } else if 'a' <= c && c <= 'f' {
        Some((c as u32 - 87) as u8)
    } else if 'A' <= c && c <= 'F' {
        Some((c as u32 - 55) as u8)
    } else {
        None
    }
}

/// The 32 bytes that 64 hexadecimal digits `s` write, high digit first;
/// `None` for any other string.
pub open spec fn parse_hash_hex(s: Seq<char>) -> Option<Seq<u8>> {
    if s.len() == 64 && forall|i: int| 0 <= i < 64 ==> (#[trigger] hex_digit_value(s[i])) is Some {
        Some(
            Seq::new(
                32,
                |i: int|
                    (16 * hex_digit_value(s[2 * i])->0 + hex_digit_value(s[2 * i + 1])->0) as u8,
            ),
        )
    } else {
        None
    }
}

/// Hexadecimal digit `n` (below 16), lower case.
pub open spec fn hex_char(n: int) -> char {
    if n < 10 {
        (48 + n) as char
    } else {
        (87 + n) as char
    }
}

/// `b` written in lower-case hexadecimal, high digit of each byte first.
pub open spec fn hex_chars(b: Seq<u8>) -> Seq<char> {
    Seq::new(2 * b.len(), |i: int| hex_char(if i % 2 == 0 { b[i / 2] / 16 } else { b[i / 2] % 16 } as int))
}

/// A hash written in hexadecimal reads back as the same 32 bytes, so a file
/// checked by `verify_file_hex` against the hexadecimal form of its own
/// `calculate_hash` is `Valid`.
pub proof fn law_hex_hash_round_trip(b: Seq<u8>)
    requires
        b.len() == 32,
    ensures
        parse_hash_hex(hex_chars(b)) == Some(b),
{
    let s = hex_chars(b);
    assert forall|i: int| 0 <= i < 64 implies (#[trigger] hex_digit_value(s[i])) is Some
        && hex_digit_value(s[i])->0 == (if i % 2 == 0 { b[i / 2] / 16 } else { b[i / 2] % 16 }) by {
        let n: int = (if i % 2 == 0 { b[i / 2] / 16 } else { b[i / 2] % 16 }) as int;
        assert(0 <= n < 16);
    }
    let want = Seq::new(
        32,
        |i: int| (16 * hex_digit_value(s[2 * i])->0 + hex_digit_value(s[2 * i + 1])->0) as u8,
    );
    assert forall|i: int| 0 <= i < 32 implies want[i] == b[i] by {
        assert(hex_digit_value(s[2 * i])->0 == b[i] / 16);
        assert(hex_digit_value(s[2 * i + 1])->0 == b[i] % 16);
    }
    assert(want =~= b);
}

fn hex_digit(c: char) -> (r: Option<u8>)
    ensures
        r == hex_digit_value(c),
{
    if '0' <= c && c <= '9' {
        Some((c as u32 - 48) as u8)
    } else if 'a' <= c && c <= 'f' {
        Some((c as u32 - 87) as u8)
    } else if 'A' <= c && c <= 'F' {
        Some((c as u32 - 55) as u8)
    } else {
        None
    }
}

/// The bytes of a hash written in hexadecimal, as `parse_hash_hex` reads it.
fn hash_from_hex(s: &str) -> (r: Option<[u8; 32]>)
    ensures
        r matches Some(b) ==> parse_hash_hex(s@) == Some(b@),
        r is None ==> parse_hash_hex(s@) is None,
{
    if s.unicode_len() != 64 {
        return None;
    }
    let mut out = [0u8; 32];
    let mut i: usize = 0;
    while i < 64
        invariant
            i <= 64,
            i % 2 == 0,
            s@.len() == 64,
            forall|j: int| 0 <= j < i ==> (#[trigger] hex_digit_value(s@[j])) is Some,
            forall|j: int|
                0 <= j < i / 2 ==> out@[j] == (16 * hex_digit_value(s@[2 * j])->0 + hex_digit_value(
                    s@[2 * j + 1],
                )->0) as u8,
        decreases 64 - i,
    {
        let hi = match hex_digit(s.get_char(i)) {
            Some(d) => d,
            None => return None,
        };
        let lo = match hex_digit(s.get_char(i + 1)) {
            Some(d) => d,
            None => {
                assert(hex_digit_value(s@[i + 1]) is None);
                return None;
            },
        };
        out[i / 2] = 16 * hi + lo;
        i = i + 2;
    }
    let ghost want = Seq::new(
        32,
        |k: int| (16 * hex_digit_value(s@[2 * k])->0 + hex_digit_value(s@[2 * k + 1])->0) as u8,
    );
    assert(out@ =~= want);
    Some(out)
}

/// Integrity checker.
pub struct IntegrityChecker;

/// Hash manifest (file name to hash); it has no fields yet.
pub struct Manifest {}

impl IntegrityChecker {
    /// The SHA-256 hash of `data` (fewer than 2^61 bytes, the input limit
    /// of SHA-256).
    pub fn calculate_hash(data: &[u8]) -> (r: [u8; 32])
        requires
            data@.len() < 0x2000_0000_0000_0000,
        ensures
            r@ == sha256(data@),
    {
        sha256_digest(data)
    }

    /// Compares the hash of `data` with `expected_hash`.
    pub fn verify_file(data: &[u8], expected_hash: Option<&[u8; 32]>) -> (r: VerificationResult)
        requires
            expected_hash is Some ==> data@.len() < 0x2000_0000_0000_0000,
        ensures
            expected_hash is None ==> r == VerificationResult::NoHash,
            expected_hash matches Some(e) ==> (r == VerificationResult::Valid <==> e@
                == sha256(data@)),
            expected_hash matches Some(e) ==> (r == VerificationResult::Mismatch <==> e@
                != sha256(data@)),
    {
        match expected_hash {
            Some(expected) => {
                let actual = Self::calculate_hash(data);
                let mut i: usize = 0;
                while i < 32
                    invariant
                        i <= 32,
                        expected_hash == Some(expected),
                        actual@ == sha256(data@),
                        forall|x: int| 0 <= x < i ==> actual@[x] == expected@[x],
                    decreases 32 - i,
                {
                    if actual[i] != expected[i] {
                        assert(expected@[i as int] != sha256(data@)[i as int]);
                        return VerificationResult::Mismatch;
                    }
                    i = i + 1;
                }
                assert(expected@ =~= sha256(data@));
                VerificationResult::Valid
            },
            None => VerificationResult::NoHash,
        }
    }

    /// Compares with a hash written as 64 hexadecimal digits (either case),
    /// converted to 32 bytes and checked as by `verify_file`. A string that is
    /// not such a hash counts as no hash.
    pub fn verify_file_hex(data: &[u8], expected_hex: Option<&str>) -> (r: VerificationResult)
        requires
            expected_hex is Some ==> data@.len() < 0x2000_0000_0000_0000,
        ensures
            r == match expected_hex {
                Some(h) => match parse_hash_hex(h@) {
                    Some(b) => if b == sha256(data@) {
                        VerificationResult::Valid
                    } else {
                        VerificationResult::Mismatch
                    },
                    None => VerificationResult::NoHash,
                },
                None => VerificationResult::NoHash,
            },
    {
        match expected_hex {
            Some(h) => match hash_from_hex(h) {
                Some(bytes) => Self::verify_file(data, Some(&bytes)),
                None => Self::verify_file(data, None),
            },
            None => Self::verify_file(data, None),
        }
    }

    /// Loads the hash manifest; there is none yet.
    pub fn load_manifest() -> (r: Option<Manifest>)
        ensures
            r is None,
    {
        None
    }
}

} // verus!

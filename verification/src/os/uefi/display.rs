//! Display resolution from the monitor's EDID.

use vstd::prelude::*;

verus! {

/// The preferred resolution in an EDID block (first detailed timing
/// descriptor): width from bytes 0x38 and 0x3A, height from 0x3B and 0x3D.
pub open spec fn edid_resolution(e: Seq<u8>) -> (u32, u32) {
    (
        (e[0x38] + (e[0x3A] / 16) * 256) as u32,
        (e[0x3B] + (e[0x3D] / 16) * 256) as u32,
    )
}

/// The resolution to use: the EDID's preferred one when the EDID is
/// longer than 0x3D bytes, else the output's current mode.
pub open spec fn resolution_choice(edid: Option<Seq<u8>>, current: (u32, u32)) -> (u32, u32) {
    match edid {
        Some(e) => if e.len() > 0x3D {
            edid_resolution(e)
        } else {
            current
        },
        None => current,
    }
}

/// Picks the best resolution for an output from its EDID (if the firmware
/// provides one) and its current mode.
pub fn best_resolution(edid: Option<&[u8]>, current: (u32, u32)) -> (r: (u32, u32))
    ensures
        r == resolution_choice(
            match edid {
                Some(e) => Some(e@),
                None => None,
            },
            current,
        ),
{
    if let Some(edid) = edid {
        if edid.len() > 0x3D {
            let w = (edid[0x38] as u32) | (((edid[0x3A] as u32) & 0xF0) << 4);
            let h = (edid[0x3B] as u32) | (((edid[0x3D] as u32) & 0xF0) << 4);
            proof {
                lemma_edid_bits(edid[0x38], edid[0x3A], w);
                lemma_edid_bits(edid[0x3B], edid[0x3D], h);
            }
            return (w, h);
        }
    }
    current
}

proof fn lemma_edid_bits(lo: u8, hi: u8, r: u32)
    requires
        r == (lo as u32) | (((hi as u32) & 0xF0u32) << 4u32),
    ensures
        r == lo + (hi / 16) * 256,
{
    let l = lo as u32;
    let h = hi as u32;
    assert(l < 256 && h < 256);
    assert((l | ((h & 0xF0u32) << 4u32)) == l + (h / 16u32) * 256u32) by (bit_vector)
        requires
            l < 256u32,
            h < 256u32,
    ;
}

/// The EDID resolution's low byte is the first byte of each pair, and the
/// rest is the upper nibble of the second byte: the width's low 8 bits are
/// byte 0x38 and its high bits the upper nibble of 0x3A (the low nibble
/// holds blanking bits and never changes the width); likewise the height
/// from 0x3B and 0x3D. Both are below 4096.
pub proof fn law_edid_resolution_bits(e: Seq<u8>)
    requires
        e.len() > 0x3D,
    ensures
        edid_resolution(e).0 & 0xFFu32 == e[0x38] as u32,
        edid_resolution(e).0 >> 8u32 == (e[0x3A] >> 4u8) as u32,
        edid_resolution(e).1 & 0xFFu32 == e[0x3B] as u32,
        edid_resolution(e).1 >> 8u32 == (e[0x3D] >> 4u8) as u32,
        edid_resolution(e).0 < 4096,
        edid_resolution(e).1 < 4096,
{
    lemma_edid_pair(e[0x38], e[0x3A]);
    lemma_edid_pair(e[0x3B], e[0x3D]);
}

proof fn lemma_edid_pair(lo: u8, hi: u8)
    ensures
        ((lo + (hi / 16) * 256) as u32) & 0xFFu32 == lo as u32,
        ((lo + (hi / 16) * 256) as u32) >> 8u32 == (hi >> 4u8) as u32,
        lo + (hi / 16) * 256 < 4096,
{
    let w: u32 = (lo + (hi / 16) * 256) as u32;
    assert(lo + (hi / 16) * 256 < 4096);
    assert(w & 0xFFu32 == lo as u32 && w >> 8u32 == (hi >> 4u8) as u32) by (bit_vector)
        requires
            w == lo + (hi / 16) * 256,
    ;
}

} // verus!

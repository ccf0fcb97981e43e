//! Case-insensitive comparison of names against ASCII keywords.
//!
//! `lower_code` is what `char::to_lowercase` gives for every character that
//! can take part in a match with an ASCII keyword: `A`..`Z` become `a`..`z`
//! and the Kelvin sign becomes `k`; any other character either stays itself
//! or lower-cases to non-ASCII text, which no ASCII keyword contains
//! (U+0130 lower-cases to `i` followed by U+0307, so it never matches).

use vstd::prelude::*;
use vstd::string::StrSliceExecFns;

verus! {

/// The code point `c` is compared as.
pub open spec fn lower_code(c: char) -> u32 {
    if 65 <= (c as u32) <= 90 {
        ((c as u32) + 32) as u32
    } else if (c as u32) == 0x212A {
        107
    } else {
        c as u32
    }
}

/// `s` with its ASCII lower-case letters made upper-case.
pub open spec fn ascii_upper(s: Seq<char>) -> Seq<char> {
    Seq::new(
        s.len(),
        |i: int| if 97 <= (s[i] as u32) <= 122 { ((s[i] as u32) - 32) as char } else { s[i] },
    )
}

/// `w` occurs in `s` at `i`, ignoring case.
pub open spec fn occurs_at(s: Seq<char>, w: Seq<char>, i: int) -> bool {
    &&& 0 <= i
    &&& i + w.len() <= s.len()
    &&& forall|j: int| 0 <= j < w.len() ==> lower_code(#[trigger] s[i + j]) == w[j] as u32
}

/// `s` lower-cases to `w`.
pub open spec fn lowers_to(s: Seq<char>, w: Seq<char>) -> bool {
    s.len() == w.len() && occurs_at(s, w, 0)
}

/// `s` contains `w`, ignoring case.
pub open spec fn contains_lower(s: Seq<char>, w: Seq<char>) -> bool {
    exists|i: int| occurs_at(s, w, i)
}

fn char_lower_eq(c: char, w: char) -> (b: bool)
    ensures
        b == (lower_code(c) == w as u32),
{
    let cu = c as u32;
    let wu = w as u32;
    if 65 <= cu && cu <= 90 {
        cu + 32 == wu
    } else if cu == 0x212A {
        wu == 107
    } else {
        cu == wu
    }
}

fn occurs_at_exec(s: &str, slen: usize, w: &str, wlen: usize, i: usize) -> (b: bool)
    requires
        slen == s@.len(),
        wlen == w@.len(),
        i + wlen <= slen,
    ensures
        b == occurs_at(s@, w@, i as int),
{
    let mut j: usize = 0;
    while j < wlen
        invariant
            slen == s@.len(),
            wlen == w@.len(),
            i + wlen <= slen,
            j <= wlen,
            forall|x: int| 0 <= x < j ==> lower_code(#[trigger] s@[i + x]) == w@[x] as u32,
        decreases wlen - j,
    {
        if !char_lower_eq(s.get_char(i + j), w.get_char(j)) {
            return false;
        }
        j = j + 1;
    }
    true
}

/// Whether `s` lower-cases to `w`.
pub fn eq_lower(s: &str, w: &str) -> (b: bool)
    ensures
        b == lowers_to(s@, w@),
{
    let slen = s.unicode_len();
    let wlen = w.unicode_len();
    if slen != wlen {
        return false;
    }
    occurs_at_exec(s, slen, w, wlen, 0)
}

/// Whether `s` contains `w`, ignoring case.
pub fn has_lower(s: &str, w: &str) -> (b: bool)
    ensures
        b == contains_lower(s@, w@),
{
    let slen = s.unicode_len();
    let wlen = w.unicode_len();
    if wlen > slen {
        assert forall|i: int| !occurs_at(s@, w@, i) by {}
        return false;
    }
    let mut i: usize = 0;
    while i <= slen - wlen
        invariant
            slen == s@.len(),
            wlen == w@.len(),
            wlen <= slen,
            i <= slen - wlen + 1,
            forall|x: int| 0 <= x < i ==> !occurs_at(s@, w@, x),
        decreases slen - i,
    {
        if occurs_at_exec(s, slen, w, wlen, i) {
            return true;
        }
        i = i + 1;
    }
    assert forall|x: int| !occurs_at(s@, w@, x) by {
        if 0 <= x < i {
        }
    }
    false
}

} // verus!

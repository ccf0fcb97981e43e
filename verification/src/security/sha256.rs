//! SHA-256 (FIPS 180-4) for file integrity.

use vstd::prelude::*;

verus! {

/// The round constants.
pub open spec fn k_table() -> Seq<u32> {
    seq![
        0x428a2f98u32, 0x71374491u32, 0xb5c0fbcfu32, 0xe9b5dba5u32, 0x3956c25bu32, 0x59f111f1u32,
        0x923f82a4u32, 0xab1c5ed5u32, 0xd807aa98u32, 0x12835b01u32, 0x243185beu32, 0x550c7dc3u32,
        0x72be5d74u32, 0x80deb1feu32, 0x9bdc06a7u32, 0xc19bf174u32, 0xe49b69c1u32, 0xefbe4786u32,
        0x0fc19dc6u32, 0x240ca1ccu32, 0x2de92c6fu32, 0x4a7484aau32, 0x5cb0a9dcu32, 0x76f988dau32,
        0x983e5152u32, 0xa831c66du32, 0xb00327c8u32, 0xbf597fc7u32, 0xc6e00bf3u32, 0xd5a79147u32,
        0x06ca6351u32, 0x14292967u32, 0x27b70a85u32, 0x2e1b2138u32, 0x4d2c6dfcu32, 0x53380d13u32,
        0x650a7354u32, 0x766a0abbu32, 0x81c2c92eu32, 0x92722c85u32, 0xa2bfe8a1u32, 0xa81a664bu32,
        0xc24b8b70u32, 0xc76c51a3u32, 0xd192e819u32, 0xd6990624u32, 0xf40e3585u32, 0x106aa070u32,
        0x19a4c116u32, 0x1e376c08u32, 0x2748774cu32, 0x34b0bcb5u32, 0x391c0cb3u32, 0x4ed8aa4au32,
        0x5b9cca4fu32, 0x682e6ff3u32, 0x748f82eeu32, 0x78a5636fu32, 0x84c87814u32, 0x8cc70208u32,
        0x90befffau32, 0xa4506cebu32, 0xbef9a3f7u32, 0xc67178f2u32,
    ]
}

/// The initial hash value.
pub open spec fn h0() -> Seq<u32> {
    seq![
        0x6a09e667u32, 0xbb67ae85u32, 0x3c6ef372u32, 0xa54ff53au32, 0x510e527fu32, 0x9b05688cu32,
        0x1f83d9abu32, 0x5be0cd19u32,
    ]
}

/// Rotation of a word right by `n` bits.
pub open spec fn rotr(x: u32, n: u32) -> u32 {
    (x >> n) | (x << ((32 - n) as u32))
}

/// Addition modulo 2^32.
pub open spec fn wadd(x: u32, y: u32) -> u32 {
    vstd::wrapping::u32_specs::wrapping_add(x, y)
}

/// The function Sigma0 of the compression rounds.
pub open spec fn big_sigma0(x: u32) -> u32 {
    rotr(x, 2) ^ rotr(x, 13) ^ rotr(x, 22)
}

/// The function Sigma1 of the compression rounds.
pub open spec fn big_sigma1(x: u32) -> u32 {
    rotr(x, 6) ^ rotr(x, 11) ^ rotr(x, 25)
}

/// The function sigma0 of the message schedule.
pub open spec fn small_sigma0(x: u32) -> u32 {
    rotr(x, 7) ^ rotr(x, 18) ^ (x >> 3u32)
}

/// The function sigma1 of the message schedule.
pub open spec fn small_sigma1(x: u32) -> u32 {
    rotr(x, 17) ^ rotr(x, 19) ^ (x >> 10u32)
}

/// Bits of `f` where `e` is set, of `g` elsewhere.
pub open spec fn choose_bits(e: u32, f: u32, g: u32) -> u32 {
    (e & f) ^ (!e & g)
}

/// The bitwise majority of three words.
pub open spec fn majority(a: u32, b: u32, c: u32) -> u32 {
    (a & b) ^ (a & c) ^ (b & c)
}

/// One round on the working variables `s` with constant `k` and message
/// word `w`.
#[verifier::opaque]
pub open spec fn round(s: Seq<u32>, k: u32, w: u32) -> Seq<u32> {
    let t1 = wadd(wadd(wadd(wadd(s[7], big_sigma1(s[4])), choose_bits(s[4], s[5], s[6])), k), w);
    let t2 = wadd(big_sigma0(s[0]), majority(s[0], s[1], s[2]));
    seq![wadd(t1, t2), s[0], s[1], s[2], wadd(s[3], t1), s[4], s[5], s[6]]
}

/// The message schedule `w` extended by one word.
pub open spec fn expand(w: Seq<u32>) -> Seq<u32> {
    let n = w.len() as int;
    w.push(wadd(wadd(wadd(small_sigma1(w[n - 2]), w[n - 7]), small_sigma0(w[n - 15])), w[n - 16]))
}

/// The sixteen words `m` extended by `n` words of the schedule.
pub open spec fn schedule(m: Seq<u32>, n: nat) -> Seq<u32>
    decreases n,
{
    if n == 0 {
        m
    } else {
        expand(schedule(m, (n - 1) as nat))
    }
}

/// The first `n` rounds with schedule `w`.
pub open spec fn rounds(s: Seq<u32>, w: Seq<u32>, n: nat) -> Seq<u32>
    decreases n,
{
    if n == 0 {
        s
    } else {
        round(rounds(s, w, (n - 1) as nat), k_table()[n - 1], w[n - 1])
    }
}

/// The big-endian word at byte `o` of `b`.
pub open spec fn word_at(b: Seq<u8>, o: int) -> u32 {
    (b[o] * 0x100_0000 + b[o + 1] * 0x1_0000 + b[o + 2] * 0x100 + b[o + 3]) as u32
}

/// The sixteen message words of a 64-byte block.
pub open spec fn words(block: Seq<u8>) -> Seq<u32> {
    Seq::new(16, |i: int| word_at(block, 4 * i))
}

/// The compression function on hash value `h` and a 64-byte block.
#[verifier::opaque]
pub open spec fn compress(h: Seq<u32>, block: Seq<u8>) -> Seq<u32> {
    let s = rounds(h, schedule(words(block), 48), 64);
    Seq::new(8, |i: int| wadd(h[i], s[i]))
}

/// Number of 64-byte blocks of the padded message of `len` bytes.
pub open spec fn nblocks(len: nat) -> nat {
    ((len + 72) / 64) as nat
}

/// Byte `i` of the padded message: the data, 0x80, zeros, then the length
/// in bits as a big-endian 64-bit number.
pub open spec fn pad_byte(data: Seq<u8>, i: int) -> u8 {
    let len = data.len();
    let total = 64 * nblocks(len);
    if i < len {
        data[i]
    } else if i == len {
        0x80u8
    } else if i >= total - 8 {
        ((((8 * len) as u64) >> ((8 * (total - 1 - i)) as u64)) & 0xFFu64) as u8
    } else {
        0u8
    }
}

/// Block `k` of the padded message.
pub open spec fn block_of(data: Seq<u8>, k: int) -> Seq<u8> {
    Seq::new(64, |j: int| pad_byte(data, 64 * k + j))
}

/// The hash value after the first `k` blocks.
pub open spec fn chain(data: Seq<u8>, k: nat) -> Seq<u32>
    decreases k,
{
    if k == 0 {
        h0()
    } else {
        compress(chain(data, (k - 1) as nat), block_of(data, k - 1))
    }
}

/// The SHA-256 digest of `data`.
pub open spec fn sha256(data: Seq<u8>) -> Seq<u8> {
    let h = chain(data, nblocks(data.len()));
    Seq::new(32, |i: int| ((h[i / 4] >> ((24 - 8 * (i % 4)) as u32)) & 0xFFu32) as u8)
}

fn rotr_exec(x: u32, n: u32) -> (r: u32)
    requires
        0 < n < 32,
    ensures
        r == rotr(x, n),
{
    (x >> n) | (x << (32 - n))
}

fn round_exec(s: &Vec<u32>, k: u32, w: u32) -> (r: Vec<u32>)
    requires
        s@.len() == 8,
    ensures
        r@ == round(s@, k, w),
        r@.len() == 8,
{
    proof {
        reveal(round);
    }
    let e = s[4];
    let a = s[0];
    let bs1 = rotr_exec(e, 6) ^ rotr_exec(e, 11) ^ rotr_exec(e, 25);
    let ch = (e & s[5]) ^ (!e & s[6]);
    let t1 = s[7].wrapping_add(bs1).wrapping_add(ch).wrapping_add(k).wrapping_add(w);
    let bs0 = rotr_exec(a, 2) ^ rotr_exec(a, 13) ^ rotr_exec(a, 22);
    let maj = (a & s[1]) ^ (a & s[2]) ^ (s[1] & s[2]);
    let t2 = bs0.wrapping_add(maj);
    let r = vec![t1.wrapping_add(t2), a, s[1], s[2], s[3].wrapping_add(t1), e, s[5], s[6]];
    assert(r@ =~= round(s@, k, w));
    r
}

fn k_at(i: usize) -> (r: u32)
    requires
        i < 64,
    ensures
        r == k_table()[i as int],
{
    let t: [u32; 64] = [
        0x428a2f98, 0x71374491, 0xb5c0fbcf, 0xe9b5dba5, 0x3956c25b, 0x59f111f1, 0x923f82a4,
        0xab1c5ed5, 0xd807aa98, 0x12835b01, 0x243185be, 0x550c7dc3, 0x72be5d74, 0x80deb1fe,
        0x9bdc06a7, 0xc19bf174, 0xe49b69c1, 0xefbe4786, 0x0fc19dc6, 0x240ca1cc, 0x2de92c6f,
        0x4a7484aa, 0x5cb0a9dc, 0x76f988da, 0x983e5152, 0xa831c66d, 0xb00327c8, 0xbf597fc7,
        0xc6e00bf3, 0xd5a79147, 0x06ca6351, 0x14292967, 0x27b70a85, 0x2e1b2138, 0x4d2c6dfc,
        0x53380d13, 0x650a7354, 0x766a0abb, 0x81c2c92e, 0x92722c85, 0xa2bfe8a1, 0xa81a664b,
        0xc24b8b70, 0xc76c51a3, 0xd192e819, 0xd6990624, 0xf40e3585, 0x106aa070, 0x19a4c116,
        0x1e376c08, 0x2748774c, 0x34b0bcb5, 0x391c0cb3, 0x4ed8aa4a, 0x5b9cca4f, 0x682e6ff3,
        0x748f82ee, 0x78a5636f, 0x84c87814, 0x8cc70208, 0x90befffa, 0xa4506ceb, 0xbef9a3f7,
        0xc67178f2,
    ];
    assert(t@ =~= k_table());
    t[i]
}

fn h0_exec() -> (r: Vec<u32>)
    ensures
        r@ == h0(),
{
    let r = vec![
        0x6a09e667u32,
        0xbb67ae85u32,
        0x3c6ef372u32,
        0xa54ff53au32,
        0x510e527fu32,
        0x9b05688cu32,
        0x1f83d9abu32,
        0x5be0cd19u32,
    ];
    assert(r@ =~= h0());
    r
}

fn schedule_exec(block: &Vec<u8>) -> (r: Vec<u32>)
    requires
        block@.len() == 64,
    ensures
        r@ == schedule(words(block@), 48),
        r@.len() == 64,
{
    let mut w: Vec<u32> = Vec::new();
    let mut i: usize = 0;
    while i < 16
        invariant
            i <= 16,
            block@.len() == 64,
            w@ == words(block@).subrange(0, i as int),
        decreases 16 - i,
    {
        let o = 4 * i;
        let b0 = block[o] as u32;
        let b1 = block[o + 1] as u32;
        let b2 = block[o + 2] as u32;
        let b3 = block[o + 3] as u32;
        w.push(b0 * 0x100_0000 + b1 * 0x1_0000 + b2 * 0x100 + b3);
        i = i + 1;
        assert(w@ =~= words(block@).subrange(0, i as int));
    }
    assert(w@ =~= words(block@));
    while i < 64
        invariant
            16 <= i <= 64,
            w@ == schedule(words(block@), (i - 16) as nat),
            w@.len() == i,
        decreases 64 - i,
    {
        let x2 = w[i - 2];
        let x15 = w[i - 15];
        let s1 = rotr_exec(x2, 17) ^ rotr_exec(x2, 19) ^ (x2 >> 10u32);
        let s0 = rotr_exec(x15, 7) ^ rotr_exec(x15, 18) ^ (x15 >> 3u32);
        let next = s1.wrapping_add(w[i - 7]).wrapping_add(s0).wrapping_add(w[i - 16]);
        w.push(next);
        i = i + 1;
    }
    w
}

fn compress_exec(h: &Vec<u32>, block: &Vec<u8>) -> (r: Vec<u32>)
    requires
        h@.len() == 8,
        block@.len() == 64,
    ensures
        r@ == compress(h@, block@),
        r@.len() == 8,
{
    let w = schedule_exec(block);
    let mut s: Vec<u32> = h.clone();
    assert(s@ =~= h@);
    let mut t: usize = 0;
    while t < 64
        invariant
            t <= 64,
            w@.len() == 64,
            s@.len() == 8,
            s@ == rounds(h@, w@, t as nat),
        decreases 64 - t,
    {
        s = round_exec(&s, k_at(t), w[t]);
        t = t + 1;
    }
    proof {
        reveal(compress);
    }
    let mut out: Vec<u32> = Vec::new();
    let mut i: usize = 0;
    while i < 8
        invariant
            i <= 8,
            h@.len() == 8,
            s@.len() == 8,
            out@ == Seq::new(i as nat, |j: int| wadd(h@[j], s@[j])),
        decreases 8 - i,
    {
        out.push(h[i].wrapping_add(s[i]));
        i = i + 1;
        assert(out@ =~= Seq::new(i as nat, |j: int| wadd(h@[j], s@[j])));
    }
    out
}

/// Byte `i` of the padded message of `data`.
fn pad_byte_exec(data: &[u8], i: u64, total: u64) -> (r: u8)
    requires
        data@.len() < 0x2000_0000_0000_0000,
        total == 64 * nblocks(data@.len()),
        i < total,
    ensures
        r == pad_byte(data@, i as int),
{
    let len = data.len() as u64;
    if i < len {
        data[i as usize]
    } else if i == len {
        0x80
    } else if i >= total - 8 {
        let bits: u64 = 8 * len;
        let shift: u64 = 8 * (total - 1 - i);
        ((bits >> shift) & 0xFF) as u8
    } else {
        0
    }
}

fn block_exec(data: &[u8], k: u64, total: u64) -> (r: Vec<u8>)
    requires
        data@.len() < 0x2000_0000_0000_0000,
        total == 64 * nblocks(data@.len()),
        k < nblocks(data@.len()),
    ensures
        r@ == block_of(data@, k as int),
        r@.len() == 64,
{
    let mut out: Vec<u8> = Vec::new();
    let mut j: u64 = 0;
    while j < 64
        invariant
            j <= 64,
            data@.len() < 0x2000_0000_0000_0000,
            total == 64 * nblocks(data@.len()),
            k < nblocks(data@.len()),
            out@ == block_of(data@, k as int).subrange(0, j as int),
        decreases 64 - j,
    {
        assert(64 * k + j < total) by (nonlinear_arith)
            requires
                k < nblocks(data@.len()),
                total == 64 * nblocks(data@.len()),
                j < 64,
        ;
        out.push(pad_byte_exec(data, 64 * k + j, total));
        j = j + 1;
        assert(out@ =~= block_of(data@, k as int).subrange(0, j as int));
    }
    assert(out@ =~= block_of(data@, k as int));
    out
}

/// The SHA-256 digest of `data` (fewer than 2^61 bytes, which SHA-256
/// requires of its input).
pub(crate) fn sha256_digest(data: &[u8]) -> (r: [u8; 32])
    requires
        data@.len() < 0x2000_0000_0000_0000,
    ensures
        r@ == sha256(data@),
{
    let len = data.len() as u64;
    let n: u64 = (len + 72) / 64;
    let total: u64 = 64 * n;
    let mut h = h0_exec();
    let mut k: u64 = 0;
    while k < n
        invariant
            k <= n,
            n == nblocks(data@.len()),
            total == 64 * n,
            data@.len() < 0x2000_0000_0000_0000,
            h@ == chain(data@, k as nat),
            h@.len() == 8,
        decreases n - k,
    {
        let block = block_exec(data, k, total);
        h = compress_exec(&h, &block);
        k = k + 1;
    }
    let mut out = [0u8; 32];
    let mut i: usize = 0;
    while i < 32
        invariant
            i <= 32,
            h@ == chain(data@, nblocks(data@.len())),
            h@.len() == 8,
            forall|j: int| 0 <= j < i ==> out@[j] == sha256(data@)[j],
        decreases 32 - i,
    {
        let shift: u32 = (24 - 8 * (i % 4)) as u32;
        out[i] = ((h[i / 4] >> shift) & 0xFF) as u8;
        i = i + 1;
    }
    assert(out@ =~= sha256(data@));
    out
}

} // verus!

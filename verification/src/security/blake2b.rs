//! BLAKE2b (RFC 7693) for file integrity: unkeyed, digests of 1 to 64
//! bytes.

use vstd::prelude::*;

verus! {

/// The initialization vector.
pub open spec fn iv() -> Seq<u64> {
    seq![
        0x6a09e667f3bcc908u64,
        0xbb67ae8584caa73bu64,
        0x3c6ef372fe94f82bu64,
        0xa54ff53a5f1d36f1u64,
        0x510e527fade682d1u64,
        0x9b05688c2b3e6c1fu64,
        0x1f83d9abfb41bd6bu64,
        0x5be0cd19137e2179u64,
    ]
}

/// The message schedule: ten rows of sixteen word indices.
pub open spec fn sigma_table() -> Seq<u8> {
    seq![
        0u8, 1u8, 2u8, 3u8, 4u8, 5u8, 6u8, 7u8, 8u8, 9u8, 10u8, 11u8, 12u8, 13u8, 14u8, 15u8,
        14u8, 10u8, 4u8, 8u8, 9u8, 15u8, 13u8, 6u8, 1u8, 12u8, 0u8, 2u8, 11u8, 7u8, 5u8, 3u8,
        11u8, 8u8, 12u8, 0u8, 5u8, 2u8, 15u8, 13u8, 10u8, 14u8, 3u8, 6u8, 7u8, 1u8, 9u8, 4u8,
        7u8, 9u8, 3u8, 1u8, 13u8, 12u8, 11u8, 14u8, 2u8, 6u8, 5u8, 10u8, 4u8, 0u8, 15u8, 8u8,
        9u8, 0u8, 5u8, 7u8, 2u8, 4u8, 10u8, 15u8, 14u8, 1u8, 11u8, 12u8, 6u8, 8u8, 3u8, 13u8,
        2u8, 12u8, 6u8, 10u8, 0u8, 11u8, 8u8, 3u8, 4u8, 13u8, 7u8, 5u8, 15u8, 14u8, 1u8, 9u8,
        12u8, 5u8, 1u8, 15u8, 14u8, 13u8, 4u8, 10u8, 0u8, 7u8, 6u8, 3u8, 9u8, 2u8, 8u8, 11u8,
        13u8, 11u8, 7u8, 14u8, 12u8, 1u8, 3u8, 9u8, 5u8, 0u8, 15u8, 4u8, 8u8, 6u8, 2u8, 10u8,
        6u8, 15u8, 14u8, 9u8, 11u8, 3u8, 0u8, 8u8, 12u8, 2u8, 13u8, 7u8, 1u8, 4u8, 10u8, 5u8,
        10u8, 2u8, 8u8, 4u8, 7u8, 6u8, 1u8, 5u8, 15u8, 11u8, 9u8, 14u8, 3u8, 12u8, 13u8, 0u8,
    ]
}

/// Rotation of a word right by `n` bits.
pub open spec fn rotr(x: u64, n: u64) -> u64 {
    (x >> n) | (x << ((64 - n) as u64))
}

/// Addition modulo 2^64.
pub open spec fn wadd(x: u64, y: u64) -> u64 {
    vstd::wrapping::u64_specs::wrapping_add(x, y)
}

#[verifier::opaque]
/// The mixing function G on words `a`, `b`, `c`, `d` of `v` with message
/// words `x` and `y`.
pub open spec fn mix(v: Seq<u64>, a: int, b: int, c: int, d: int, x: u64, y: u64) -> Seq<u64> {
    let va = wadd(wadd(v[a], v[b]), x);
    let vd = rotr(v[d] ^ va, 32);
    let vc = wadd(v[c], vd);
    let vb = rotr(v[b] ^ vc, 24);
    let va2 = wadd(wadd(va, vb), y);
    let vd2 = rotr(vd ^ va2, 16);
    let vc2 = wadd(vc, vd2);
    let vb2 = rotr(vb ^ vc2, 63);
    v.update(a, va2).update(b, vb2).update(c, vc2).update(d, vd2)
}

/// Message word `i` of round `r`.
pub open spec fn schedule(m: Seq<u64>, r: int, i: int) -> u64 {
    m[(sigma_table()[16 * (r % 10) + i] % 16) as int]
}

/// Round `r` of the compression function.
#[verifier::opaque]
pub open spec fn round(v: Seq<u64>, m: Seq<u64>, r: int) -> Seq<u64> {
    let v1 = mix(v, 0, 4, 8, 12, schedule(m, r, 0), schedule(m, r, 1));
    let v2 = mix(v1, 1, 5, 9, 13, schedule(m, r, 2), schedule(m, r, 3));
    let v3 = mix(v2, 2, 6, 10, 14, schedule(m, r, 4), schedule(m, r, 5));
    let v4 = mix(v3, 3, 7, 11, 15, schedule(m, r, 6), schedule(m, r, 7));
    let v5 = mix(v4, 0, 5, 10, 15, schedule(m, r, 8), schedule(m, r, 9));
    let v6 = mix(v5, 1, 6, 11, 12, schedule(m, r, 10), schedule(m, r, 11));
    let v7 = mix(v6, 2, 7, 8, 13, schedule(m, r, 12), schedule(m, r, 13));
    mix(v7, 3, 4, 9, 14, schedule(m, r, 14), schedule(m, r, 15))
}

/// The first `n` rounds.
pub open spec fn rounds(v: Seq<u64>, m: Seq<u64>, n: nat) -> Seq<u64>
    decreases n,
{
    if n == 0 {
        v
    } else {
        round(rounds(v, m, (n - 1) as nat), m, n - 1)
    }
}

/// The little-endian word at byte `o` of `b`.
pub open spec fn word_at(b: Seq<u8>, o: int) -> u64 {
    (b[o] + b[o + 1] * 0x100 + b[o + 2] * 0x1_0000 + b[o + 3] * 0x100_0000 + b[o + 4] * 0x1_0000_0000
        + b[o + 5] * 0x100_0000_0000 + b[o + 6] * 0x1_0000_0000_0000 + b[o + 7]
        * 0x100_0000_0000_0000) as u64
}

/// The sixteen message words of a 128-byte block.
pub open spec fn words(block: Seq<u8>) -> Seq<u64> {
    Seq::new(16, |i: int| word_at(block, 8 * i))
}

/// The working vector before the rounds: state, IV, counter `t` and the
/// last-block flag mixed in.
pub open spec fn start_vector(h: Seq<u64>, t: int, last: bool) -> Seq<u64> {
    let v0 = h + iv();
    let v1 = v0.update(12, v0[12] ^ ((t % 0x1_0000_0000_0000_0000) as u64)).update(
        13,
        v0[13] ^ ((t / 0x1_0000_0000_0000_0000) as u64),
    );
    if last {
        v1.update(14, v1[14] ^ 0xFFFF_FFFF_FFFF_FFFFu64)
    } else {
        v1
    }
}

/// The compression function F.
#[verifier::opaque]
pub open spec fn compress(h: Seq<u64>, block: Seq<u8>, t: int, last: bool) -> Seq<u64> {
    let v = rounds(start_vector(h, t, last), words(block), 12);
    Seq::new(8, |i: int| h[i] ^ v[i] ^ v[i + 8])
}

/// The state before the first block, for digests of `outlen` bytes and no
/// key.
pub open spec fn initial_state(outlen: nat) -> Seq<u64> {
    iv().update(0, iv()[0] ^ 0x0101_0000u64 ^ (outlen as u64))
}

/// Number of blocks the message takes (one for the empty message).
pub open spec fn nblocks(len: nat) -> nat {
    if len == 0 {
        1
    } else {
        ((len + 127) / 128) as nat
    }
}

/// Block `k` of `data`, padded with zeros.
pub open spec fn block_of(data: Seq<u8>, k: int) -> Seq<u8> {
    Seq::new(128, |j: int| if 128 * k + j < data.len() { data[128 * k + j] } else { 0u8 })
}

/// The state after the first `k` blocks (none of them the last).
pub open spec fn chain(h0: Seq<u64>, data: Seq<u8>, k: nat) -> Seq<u64>
    decreases k,
{
    if k == 0 {
        h0
    } else {
        compress(chain(h0, data, (k - 1) as nat), block_of(data, k - 1), (128 * k) as int, false)
    }
}

/// The final state for `data`.
pub open spec fn final_state(data: Seq<u8>, outlen: nat) -> Seq<u64> {
    let n = nblocks(data.len());
    compress(
        chain(initial_state(outlen), data, (n - 1) as nat),
        block_of(data, n - 1),
        data.len() as int,
        true,
    )
}

/// The 64 bytes of a state, little-endian.
pub open spec fn state_bytes(h: Seq<u64>) -> Seq<u8> {
    Seq::new(64, |i: int| ((h[i / 8] >> ((8 * (i % 8)) as u64)) & 0xFFu64) as u8)
}

/// BLAKE2b-`8*outlen` of `data`, as 64 bytes: the digest's `outlen` bytes,
/// then zeros.
pub open spec fn blake2b(data: Seq<u8>, outlen: nat) -> Seq<u8> {
    Seq::new(
        64,
        |i: int| if i < outlen { state_bytes(final_state(data, outlen))[i] } else { 0u8 },
    )
}

/// The character code of hexadecimal digit `n` (lower case).
pub open spec fn hex_code(n: int) -> u32 {
    if n < 10 {
        (48 + n) as u32
    } else {
        (87 + n) as u32
    }
}

/// The character codes of the lower-case hexadecimal form of `b`.
pub open spec fn hex_codes(b: Seq<u8>) -> Seq<u32> {
    Seq::new(
        2 * b.len(),
        |i: int| hex_code(if i % 2 == 0 { b[i / 2] / 16 } else { b[i / 2] % 16 } as int),
    )
}

fn rotr_exec(x: u64, n: u64) -> (r: u64)
    requires
        0 < n < 64,
    ensures
        r == rotr(x, n),
{
    (x >> n) | (x << (64 - n))
}

fn mix_exec(v: &mut Vec<u64>, a: usize, b: usize, c: usize, d: usize, x: u64, y: u64)
    requires
        old(v)@.len() == 16,
        a < 16,
        b < 16,
        c < 16,
        d < 16,
    ensures
        final(v)@ == mix(old(v)@, a as int, b as int, c as int, d as int, x, y),
        final(v)@.len() == 16,
{
    proof {
        reveal(mix);
    }
    let va = v[a].wrapping_add(v[b]).wrapping_add(x);
    let vd = rotr_exec(v[d] ^ va, 32);
    let vc = v[c].wrapping_add(vd);
    let vb = rotr_exec(v[b] ^ vc, 24);
    let va2 = va.wrapping_add(vb).wrapping_add(y);
    let vd2 = rotr_exec(vd ^ va2, 16);
    let vc2 = vc.wrapping_add(vd2);
    let vb2 = rotr_exec(vb ^ vc2, 63);
    v.set(a, va2);
    v.set(b, vb2);
    v.set(c, vc2);
    v.set(d, vd2);
}

fn sigma_at(idx: usize) -> (r: usize)
    requires
        idx < 160,
    ensures
        r == (sigma_table()[idx as int] % 16) as usize,
        r < 16,
{
    let t: [u8; 160] = [
        0, 1, 2, 3, 4, 5, 6, 7, 8, 9, 10, 11, 12, 13, 14, 15,
        14, 10, 4, 8, 9, 15, 13, 6, 1, 12, 0, 2, 11, 7, 5, 3,
        11, 8, 12, 0, 5, 2, 15, 13, 10, 14, 3, 6, 7, 1, 9, 4,
        7, 9, 3, 1, 13, 12, 11, 14, 2, 6, 5, 10, 4, 0, 15, 8,
        9, 0, 5, 7, 2, 4, 10, 15, 14, 1, 11, 12, 6, 8, 3, 13,
        2, 12, 6, 10, 0, 11, 8, 3, 4, 13, 7, 5, 15, 14, 1, 9,
        12, 5, 1, 15, 14, 13, 4, 10, 0, 7, 6, 3, 9, 2, 8, 11,
        13, 11, 7, 14, 12, 1, 3, 9, 5, 0, 15, 4, 8, 6, 2, 10,
        6, 15, 14, 9, 11, 3, 0, 8, 12, 2, 13, 7, 1, 4, 10, 5,
        10, 2, 8, 4, 7, 6, 1, 5, 15, 11, 9, 14, 3, 12, 13, 0,
    ];
    assert(t@ =~= sigma_table());
    (t[idx] % 16) as usize
}

fn round_exec(v: &mut Vec<u64>, m: &Vec<u64>, r: usize)
    requires
        old(v)@.len() == 16,
        m@.len() == 16,
    ensures
        final(v)@ == round(old(v)@, m@, r as int),
        final(v)@.len() == 16,
{
    proof {
        reveal(round);
    }
    let base = 16 * (r % 10);
    assert(base <= 144);
    mix_exec(v, 0, 4, 8, 12, m[sigma_at(base)], m[sigma_at(base + 1)]);
    mix_exec(v, 1, 5, 9, 13, m[sigma_at(base + 2)], m[sigma_at(base + 3)]);
    mix_exec(v, 2, 6, 10, 14, m[sigma_at(base + 4)], m[sigma_at(base + 5)]);
    mix_exec(v, 3, 7, 11, 15, m[sigma_at(base + 6)], m[sigma_at(base + 7)]);
    mix_exec(v, 0, 5, 10, 15, m[sigma_at(base + 8)], m[sigma_at(base + 9)]);
    mix_exec(v, 1, 6, 11, 12, m[sigma_at(base + 10)], m[sigma_at(base + 11)]);
    mix_exec(v, 2, 7, 8, 13, m[sigma_at(base + 12)], m[sigma_at(base + 13)]);
    mix_exec(v, 3, 4, 9, 14, m[sigma_at(base + 14)], m[sigma_at(base + 15)]);
}

fn iv_exec() -> (r: Vec<u64>)
    ensures
        r@ == iv(),
{
    let r = vec![
        0x6a09e667f3bcc908u64,
        0xbb67ae8584caa73bu64,
        0x3c6ef372fe94f82bu64,
        0xa54ff53a5f1d36f1u64,
        0x510e527fade682d1u64,
        0x9b05688c2b3e6c1fu64,
        0x1f83d9abfb41bd6bu64,
        0x5be0cd19137e2179u64,
    ];
    assert(r@ =~= iv());
    r
}

fn word_exec(b: &Vec<u8>, o: usize) -> (r: u64)
    requires
        o + 8 <= b@.len(),
    ensures
        r == word_at(b@, o as int),
{
    let _len = b.len();
    let b0 = b[o] as u64;
    let b1 = b[o + 1] as u64;
    let b2 = b[o + 2] as u64;
    let b3 = b[o + 3] as u64;
    let b4 = b[o + 4] as u64;
    let b5 = b[o + 5] as u64;
    let b6 = b[o + 6] as u64;
    let b7 = b[o + 7] as u64;
    assert(b0 <= 255 && b1 <= 255 && b2 <= 255 && b3 <= 255 && b4 <= 255 && b5 <= 255 && b6 <= 255
        && b7 <= 255);
    b0 + b1 * 0x100 + b2 * 0x1_0000 + b3 * 0x100_0000 + b4 * 0x1_0000_0000 + b5 * 0x100_0000_0000 + b6
        * 0x1_0000_0000_0000 + b7 * 0x100_0000_0000_0000
}

fn compress_exec(h: &Vec<u64>, block: &Vec<u8>, t: u128, last: bool) -> (r: Vec<u64>)
    requires
        h@.len() == 8,
        block@.len() == 128,
    ensures
        r@ == compress(h@, block@, t as int, last),
        r@.len() == 8,
{
    let mut m: Vec<u64> = Vec::new();
    let mut i: usize = 0;
    while i < 16
        invariant
            i <= 16,
            block@.len() == 128,
            m@ == words(block@).subrange(0, i as int),
        decreases 16 - i,
    {
        m.push(word_exec(block, 8 * i));
        i = i + 1;
        assert(m@ =~= words(block@).subrange(0, i as int));
    }
    assert(m@ =~= words(block@));
    let ivv = iv_exec();
    let mut v: Vec<u64> = Vec::new();
    let mut i: usize = 0;
    while i < 16
        invariant
            i <= 16,
            h@.len() == 8,
            ivv@ == iv(),
            v@ == (h@ + iv()).subrange(0, i as int),
        decreases 16 - i,
    {
        if i < 8 {
            v.push(h[i]);
        } else {
            v.push(ivv[i - 8]);
        }
        i = i + 1;
        assert(v@ =~= (h@ + iv()).subrange(0, i as int));
    }
    assert(v@ =~= h@ + iv());
    let lo = (t % 0x1_0000_0000_0000_0000u128) as u64;
    let hi = (t / 0x1_0000_0000_0000_0000u128) as u64;
    let v12 = v[12] ^ lo;
    v.set(12, v12);
    let v13 = v[13] ^ hi;
    v.set(13, v13);
    if last {
        let v14 = v[14] ^ 0xFFFF_FFFF_FFFF_FFFFu64;
        v.set(14, v14);
    }
    let ghost v2 = v@;
    assert(v2 =~= start_vector(h@, t as int, last));
    let mut r: usize = 0;
    while r < 12
        invariant
            r <= 12,
            m@ == words(block@),
            v@.len() == 16,
            v@ == rounds(v2, m@, r as nat),
        decreases 12 - r,
    {
        round_exec(&mut v, &m, r);
        r = r + 1;
    }
    proof {
        reveal(compress);
    }
    let mut out: Vec<u64> = Vec::new();
    let mut i: usize = 0;
    while i < 8
        invariant
            i <= 8,
            h@.len() == 8,
            v@.len() == 16,
            out@ == Seq::new(i as nat, |j: int| h@[j] ^ v@[j] ^ v@[j + 8]),
        decreases 8 - i,
    {
        out.push(h[i] ^ v[i] ^ v[i + 8]);
        i = i + 1;
        assert(out@ =~= Seq::new(i as nat, |j: int| h@[j] ^ v@[j] ^ v@[j + 8]));
    }
    out
}

/// Block `k` of `data`, padded with zeros (`k` below the block count).
fn block_exec(data: &Vec<u8>, k: usize) -> (r: Vec<u8>)
    requires
        k < nblocks(data@.len()),
    ensures
        r@ == block_of(data@, k as int),
{
    let len = data.len();
    let mut out: Vec<u8> = Vec::new();
    if k > 0 {
        assert(128 * k < len) by (nonlinear_arith)
            requires
                k < (len + 127) / 128,
                k > 0,
        ;
    }
    let base = 128 * k;
    let mut j: usize = 0;
    while j < 128
        invariant
            j <= 128,
            len == data@.len(),
            base == 128 * k,
            base <= len,
            out@ == block_of(data@, k as int).subrange(0, j as int),
        decreases 128 - j,
    {
        if j < len - base {
            out.push(data[base + j]);
        } else {
            out.push(0);
        }
        j = j + 1;
        assert(out@ =~= block_of(data@, k as int).subrange(0, j as int));
    }
    assert(out@ =~= block_of(data@, k as int));
    out
}

/// The final state of BLAKE2b over `data` for `outlen`-byte digests.
fn final_state_exec(data: &Vec<u8>, outlen: usize) -> (r: Vec<u64>)
    requires
        1 <= outlen <= 64,
    ensures
        r@ == final_state(data@, outlen as nat),
        r@.len() == 8,
{
    let len = data.len();
    let n = if len == 0 {
        1
    } else {
        len / 128 + if len % 128 == 0 { 0 } else { 1 }
    };
    assert(n == nblocks(len as nat)) by (nonlinear_arith)
        requires
            n == (if len == 0 { 1 } else { len / 128 + if len % 128 == 0 { 0int } else { 1int } }),
    ;
    let mut h = iv_exec();
    let h00 = h[0] ^ 0x0101_0000u64 ^ (outlen as u64);
    h.set(0, h00);
    assert(h@ =~= initial_state(outlen as nat));
    let mut k: usize = 0;
    while k < n - 1
        invariant
            1 <= outlen <= 64,
            n == nblocks(data@.len()),
            n >= 1,
            k <= n - 1,
            h@ == chain(initial_state(outlen as nat), data@, k as nat),
            h@.len() == 8,
        decreases n - 1 - k,
    {
        let block = block_exec(data, k);
        h = compress_exec(&h, &block, 128 * (k as u128 + 1), false);
        k = k + 1;
    }
    let block = block_exec(data, n - 1);
    compress_exec(&h, &block, len as u128, true)
}

/// BLAKE2b state: the digest length and the data fed so far.
pub struct Blake2b {
    outlen: usize,
    data: Vec<u8>,
}

impl Blake2b {
    /// The digest length in bytes.
    pub closed spec fn digest_len(self) -> nat {
        self.outlen as nat
    }

    /// The data fed so far.
    pub closed spec fn fed(self) -> Seq<u8> {
        self.data@
    }

    /// A hasher for digests of `outlen` bytes (1 to 64), with nothing fed.
    pub fn new(outlen: usize) -> (r: Self)
        requires
            1 <= outlen <= 64,
        ensures
            r.digest_len() == outlen,
            r.fed() == Seq::<u8>::empty(),
    {
        Self { outlen, data: Vec::new() }
    }

    /// Feeds `data` to the hasher.
    pub fn update(&mut self, data: &[u8])
        ensures
            final(self).fed() == old(self).fed() + data@,
            final(self).digest_len() == old(self).digest_len(),
    {
        let mut i: usize = 0;
        while i < data.len()
            invariant
                i <= data@.len(),
                self.data@ == old(self).data@ + data@.subrange(0, i as int),
                self.outlen == old(self).outlen,
            decreases data@.len() - i,
        {
            self.data.push(data[i]);
            i = i + 1;
            assert(self.data@ =~= old(self).data@ + data@.subrange(0, i as int));
        }
        assert(data@.subrange(0, data@.len() as int) =~= data@);
    }

    /// The digest of what was fed, in the first `digest_len` bytes (the rest
    /// are zero). The hasher is left as it was.
    pub fn finalize(&mut self) -> (r: [u8; 64])
        requires
            1 <= old(self).digest_len() <= 64,
        ensures
            r@ == blake2b(old(self).fed(), old(self).digest_len()),
            *final(self) == *old(self),
    {
        let h = final_state_exec(&self.data, self.outlen);
        let mut out = [0u8; 64];
        let mut i: usize = 0;
        while i < 64
            invariant
                i <= 64,
                1 <= self.outlen <= 64,
                h@ == final_state(self.data@, self.outlen as nat),
                h@.len() == 8,
                forall|j: int| 0 <= j < i ==> out@[j] == blake2b(self.data@, self.outlen as nat)[j],
                forall|j: int| i <= j < 64 ==> out@[j] == 0,
            decreases 64 - i,
        {
            if i < self.outlen {
                let byte = ((h[i / 8] >> ((8 * (i % 8)) as u64)) & 0xFFu64) as u8;
                out[i] = byte;
            }
            i = i + 1;
        }
        assert(out@ =~= blake2b(self.data@, self.outlen as nat));
        out
    }

    /// BLAKE2b-512 of `data`.
    pub fn hash(data: &[u8]) -> (r: [u8; 64])
        ensures
            r@ == blake2b(data@, 64),
    {
        let mut hasher = Self::new(64);
        hasher.update(data);
        assert(hasher.fed() =~= data@);
        hasher.finalize()
    }
}

fn hex_code_exec(n: u8) -> (r: u32)
    requires
        n < 16,
    ensures
        r == hex_code(n as int),
{
    if n < 10 {
        48 + n as u32
    } else {
        87 + n as u32
    }
}

/// Checks `data` against a digest written in lower-case hexadecimal: true
/// exactly when `expected_hash` is the hexadecimal form of the BLAKE2b-512
/// digest of `data`.
pub fn verify_hash(data: &[u8], expected_hash: &str) -> (r: bool)
    ensures
        r == (expected_hash@.map_values(|c: char| c as u32) == hex_codes(blake2b(data@, 64))),
{
    let digest = Blake2b::hash(data);
    let ghost want = hex_codes(blake2b(data@, 64));
    let ghost got = expected_hash@.map_values(|c: char| c as u32);
    let n = expected_hash.unicode_len();
    if n != 128 {
        assert(got.len() != want.len());
        return false;
    }
    let mut i: usize = 0;
    while i < 128
        invariant
            i <= 128,
            n == 128,
            expected_hash@.len() == 128,
            digest@ == blake2b(data@, 64),
            want == hex_codes(blake2b(data@, 64)),
            got == expected_hash@.map_values(|c: char| c as u32),
            forall|j: int| 0 <= j < i ==> got[j] == want[j],
        decreases 128 - i,
    {
        let c = expected_hash.get_char(i);
        let b = digest[i / 2];
        let nib = if i % 2 == 0 { b / 16 } else { b % 16 };
        if c as u32 != hex_code_exec(nib) {
            assert(got[i as int] != want[i as int]);
            return false;
        }
        i = i + 1;
    }
    assert(got =~= want);
    true
}

} // verus!

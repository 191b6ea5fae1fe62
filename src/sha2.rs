//! The SHA-512 compression kernel shared by SHA-384 and SHA-512, its
//! mathematical model, and the streaming block engine built on it.
use vstd::prelude::*;

verus! {

/// Size of one compression input, in bytes.
pub const BLOCKSIZE: usize = 128;

/// The 80 round constants of FIPS 180-4 for the 64-bit SHA-2 family.
pub const K: [u64; 80] = [
    0x428a2f98d728ae22, 0x7137449123ef65cd, 0xb5c0fbcfec4d3b2f, 0xe9b5dba58189dbbc,
    0x3956c25bf348b538, 0x59f111f1b605d019, 0x923f82a4af194f9b, 0xab1c5ed5da6d8118,
    0xd807aa98a3030242, 0x12835b0145706fbe, 0x243185be4ee4b28c, 0x550c7dc3d5ffb4e2,
    0x72be5d74f27b896f, 0x80deb1fe3b1696b1, 0x9bdc06a725c71235, 0xc19bf174cf692694,
    0xe49b69c19ef14ad2, 0xefbe4786384f25e3, 0x0fc19dc68b8cd5b5, 0x240ca1cc77ac9c65,
    0x2de92c6f592b0275, 0x4a7484aa6ea6e483, 0x5cb0a9dcbd41fbd4, 0x76f988da831153b5,
    0x983e5152ee66dfab, 0xa831c66d2db43210, 0xb00327c898fb213f, 0xbf597fc7beef0ee4,
    0xc6e00bf33da88fc2, 0xd5a79147930aa725, 0x06ca6351e003826f, 0x142929670a0e6e70,
    0x27b70a8546d22ffc, 0x2e1b21385c26c926, 0x4d2c6dfc5ac42aed, 0x53380d139d95b3df,
    0x650a73548baf63de, 0x766a0abb3c77b2a8, 0x81c2c92e47edaee6, 0x92722c851482353b,
    0xa2bfe8a14cf10364, 0xa81a664bbc423001, 0xc24b8b70d0f89791, 0xc76c51a30654be30,
    0xd192e819d6ef5218, 0xd69906245565a910, 0xf40e35855771202a, 0x106aa07032bbd1b8,
    0x19a4c116b8d2d0c8, 0x1e376c085141ab53, 0x2748774cdf8eeb99, 0x34b0bcb5e19b48a8,
    0x391c0cb3c5c95a63, 0x4ed8aa4ae3418acb, 0x5b9cca4f7763e373, 0x682e6ff3d6b2b8a3,
    0x748f82ee5defb2fc, 0x78a5636f43172f60, 0x84c87814a1f0ab72, 0x8cc702081a6439ec,
    0x90befffa23631e28, 0xa4506cebde82bde9, 0xbef9a3f7b2c67915, 0xc67178f2e372532b,
    0xca273eceea26619c, 0xd186b8c721c0c207, 0xeada7dd6cde0eb1e, 0xf57d4f7fee6ed178,
    0x06f067aa72176fba, 0x0a637dc5a2c898a6, 0x113f9804bef90dae, 0x1b710b35131c471b,
    0x28db77f523047d84, 0x32caab7b40c72493, 0x3c9ebe0a15c9bebc, 0x431d67c49c100d4c,
    0x4cc5d4becb3e42b6, 0x597f299cfc657e2a, 0x5fcb6fab3ad6faec, 0x6c44198c4a475817,
];

pub open spec fn spec_ch(e: u64, f: u64, g: u64) -> u64 {
    (e & f) ^ (!e & g)
}

pub open spec fn spec_maj(a: u64, b: u64, c: u64) -> u64 {
    (a & b) ^ (a & c) ^ (b & c)
}

pub open spec fn spec_big_sigma_0(x: u64) -> u64 {
    ((x >> 28u64) | (x << 36u64)) ^ ((x >> 34u64) | (x << 30u64)) ^ ((x >> 39u64) | (x << 25u64))
}

pub open spec fn spec_big_sigma_1(x: u64) -> u64 {
    ((x >> 14u64) | (x << 50u64)) ^ ((x >> 18u64) | (x << 46u64)) ^ ((x >> 41u64) | (x << 23u64))
}

pub open spec fn spec_small_sigma_0(x: u64) -> u64 {
    ((x >> 1u64) | (x << 63u64)) ^ ((x >> 8u64) | (x << 56u64)) ^ (x >> 7u64)
}

pub open spec fn spec_small_sigma_1(x: u64) -> u64 {
    ((x >> 19u64) | (x << 45u64)) ^ ((x >> 61u64) | (x << 3u64)) ^ (x >> 6u64)
}

/// The big-endian 64-bit word stored in `b[i..i + 8]`.
pub open spec fn be_word(b: Seq<u8>, i: int) -> u64 {
    ((b[i] as u64) << 56u64) | ((b[i + 1] as u64) << 48u64) | ((b[i + 2] as u64) << 40u64) | ((
    b[i + 3] as u64) << 32u64) | ((b[i + 4] as u64) << 24u64) | ((b[i + 5] as u64) << 16u64) | ((
    b[i + 6] as u64) << 8u64) | (b[i + 7] as u64)
}

/// Byte `m` (0 is the most significant) of the big-endian encoding of `w`.
pub open spec fn be_byte(w: u64, m: int) -> u8 {
    (w >> ((56 - 8 * m) as u64)) as u8
}

/// The big-endian encoding of the first `n` words of `ws`.
pub open spec fn be_bytes(ws: Seq<u64>, n: nat) -> Seq<u8> {
    Seq::new(8 * n, |i: int| be_byte(ws[i / 8], i % 8))
}

/// Word `t` of the message schedule of `block`.
pub open spec fn schedule(block: Seq<u8>, t: nat) -> u64
    decreases t,
{
    if t < 16 {
        be_word(block, 8 * t as int)
    } else {
        spec_small_sigma_1(schedule(block, (t - 2) as nat)).wrapping_add(
            schedule(block, (t - 7) as nat),
        ).wrapping_add(spec_small_sigma_0(schedule(block, (t - 15) as nat))).wrapping_add(
            schedule(block, (t - 16) as nat),
        )
    }
}

/// The eight working variables a, b, c, d, e, f, g, h.
pub type Vars = (u64, u64, u64, u64, u64, u64, u64, u64);

/// One round of the compression function.
pub open spec fn round(v: Vars, k: u64, w: u64) -> Vars {
    let t1 = v.7.wrapping_add(spec_big_sigma_1(v.4)).wrapping_add(spec_ch(v.4, v.5, v.6)).wrapping_add(
        k,
    ).wrapping_add(w);
    let t2 = spec_big_sigma_0(v.0).wrapping_add(spec_maj(v.0, v.1, v.2));
    (t1.wrapping_add(t2), v.0, v.1, v.2, v.3.wrapping_add(t1), v.4, v.5, v.6)
}

/// The working variables after the first `t` rounds on `block`, starting from `h`.
pub open spec fn rounds(h: Seq<u64>, block: Seq<u8>, t: nat) -> Vars
    decreases t,
{
    if t == 0 {
        (h[0], h[1], h[2], h[3], h[4], h[5], h[6], h[7])
    } else {
        round(rounds(h, block, (t - 1) as nat), K[t - 1], schedule(block, (t - 1) as nat))
    }
}

/// The chaining state after compressing one 128-byte `block` into `h`.
pub open spec fn compress_spec(h: Seq<u64>, block: Seq<u8>) -> Seq<u64> {
    let v = rounds(h, block, 80);
    seq![
        h[0].wrapping_add(v.0),
        h[1].wrapping_add(v.1),
        h[2].wrapping_add(v.2),
        h[3].wrapping_add(v.3),
        h[4].wrapping_add(v.4),
        h[5].wrapping_add(v.5),
        h[6].wrapping_add(v.6),
        h[7].wrapping_add(v.7),
    ]
}

/// The chaining state after compressing every whole block of `data`, in
/// order, starting from `iv`. A trailing partial block is not compressed.
pub open spec fn chain(iv: Seq<u64>, data: Seq<u8>) -> Seq<u64>
    decreases data.len(),
{
    if data.len() < 128 {
        iv
    } else {
        let cut = data.len() - 128;
        compress_spec(chain(iv, data.take(cut)), data.skip(cut))
    }
}

pub proof fn lemma_chain_block(iv: Seq<u64>, x: Seq<u8>, y: Seq<u8>)
    requires
        y.len() == 128,
    ensures
        chain(iv, x + y) == compress_spec(chain(iv, x), y),
{
    let d = x + y;
    assert(d.take(d.len() - 128) =~= x);
    assert(d.skip(d.len() - 128) =~= y);
}

pub fn ch(e: u64, f: u64, g: u64) -> (r: u64)
    ensures
        r == spec_ch(e, f, g),
{
    (e & f) ^ (!e & g)
}

pub fn maj(a: u64, b: u64, c: u64) -> (r: u64)
    ensures
        r == spec_maj(a, b, c),
{
    (a & b) ^ (a & c) ^ (b & c)
}

pub fn big_sigma_0(x: u64) -> (r: u64)
    ensures
        r == spec_big_sigma_0(x),
{
    ((x >> 28u64) | (x << 36u64)) ^ ((x >> 34u64) | (x << 30u64)) ^ ((x >> 39u64) | (x << 25u64))
}

pub fn big_sigma_1(x: u64) -> (r: u64)
    ensures
        r == spec_big_sigma_1(x),
{
    ((x >> 14u64) | (x << 50u64)) ^ ((x >> 18u64) | (x << 46u64)) ^ ((x >> 41u64) | (x << 23u64))
}

pub fn small_sigma_0(x: u64) -> (r: u64)
    ensures
        r == spec_small_sigma_0(x),
{
    ((x >> 1u64) | (x << 63u64)) ^ ((x >> 8u64) | (x << 56u64)) ^ (x >> 7u64)
}

pub fn small_sigma_1(x: u64) -> (r: u64)
    ensures
        r == spec_small_sigma_1(x),
{
    ((x >> 19u64) | (x << 45u64)) ^ ((x >> 61u64) | (x << 3u64)) ^ (x >> 6u64)
}

/// Loads the big-endian word at `block[i..i + 8]`.
pub fn load_u64_be(block: &[u8; 128], i: usize) -> (r: u64)
    requires
        i + 8 <= 128,
    ensures
        r == be_word(block@, i as int),
{
    ((block[i] as u64) << 56u64) | ((block[i + 1] as u64) << 48u64) | ((block[i + 2] as u64)
        << 40u64) | ((block[i + 3] as u64) << 32u64) | ((block[i + 4] as u64) << 24u64) | ((block[i
        + 5] as u64) << 16u64) | ((block[i + 6] as u64) << 8u64) | (block[i + 7] as u64)
}

/// Compresses one block into the chaining state `h`.
pub fn compress(h: &mut [u64; 8], block: &[u8; 128])
    ensures
        final(h)@ == compress_spec(old(h)@, block@),
{
    let mut w = [0u64; 80];
    let mut t: usize = 0;
    while t < 16
        invariant
            t <= 16,
            forall|j: int| 0 <= j < t ==> w[j] == schedule(block@, j as nat),
        decreases 16 - t,
    {
        w[t] = load_u64_be(block, 8 * t);
        t += 1;
    }
    while t < 80
        invariant
            16 <= t <= 80,
            forall|j: int| 0 <= j < t ==> w[j] == schedule(block@, j as nat),
        decreases 80 - t,
    {
        w[t] = small_sigma_1(w[t - 2]).wrapping_add(w[t - 7]).wrapping_add(
            small_sigma_0(w[t - 15]),
        ).wrapping_add(w[t - 16]);
        t += 1;
    }
    let ghost h0 = h@;
    let mut a = h[0];
    let mut b = h[1];
    let mut c = h[2];
    let mut d = h[3];
    let mut e = h[4];
    let mut f = h[5];
    let mut g = h[6];
    let mut hh = h[7];
    t = 0;
    while t < 80
        invariant
            t <= 80,
            h@ == h0,
            h0 == old(h)@,
            forall|j: int| 0 <= j < 80 ==> w[j] == schedule(block@, j as nat),
            (a, b, c, d, e, f, g, hh) == rounds(h0, block@, t as nat),
        decreases 80 - t,
    {
        let t1 = hh.wrapping_add(big_sigma_1(e)).wrapping_add(ch(e, f, g)).wrapping_add(
            K[t],
        ).wrapping_add(w[t]);
        let t2 = big_sigma_0(a).wrapping_add(maj(a, b, c));
        hh = g;
        g = f;
        f = e;
        e = d.wrapping_add(t1);
        d = c;
        c = b;
        b = a;
        a = t1.wrapping_add(t2);
        t += 1;
    }
    h[0] = h[0].wrapping_add(a);
    h[1] = h[1].wrapping_add(b);
    h[2] = h[2].wrapping_add(c);
    h[3] = h[3].wrapping_add(d);
    h[4] = h[4].wrapping_add(e);
    h[5] = h[5].wrapping_add(f);
    h[6] = h[6].wrapping_add(g);
    h[7] = h[7].wrapping_add(hh);
    assert(h@ =~= compress_spec(h0, block@));
}

/// The big-endian encoding of the first `n` words of `ws`.
pub fn words_to_be(ws: &[u64; 8], n: usize) -> (r: Vec<u8>)
    requires
        n <= 8,
    ensures
        r@ == be_bytes(ws@, n as nat),
{
    let mut out: Vec<u8> = Vec::new();
    let mut j: usize = 0;
    while j < n
        invariant
            j <= n <= 8,
            out@ =~= be_bytes(ws@, j as nat),
        decreases n - j,
    {
        let w = ws[j];
        let ghost before = out@;
        out.push((w >> 56u64) as u8);
        out.push((w >> 48u64) as u8);
        out.push((w >> 40u64) as u8);
        out.push((w >> 32u64) as u8);
        out.push((w >> 24u64) as u8);
        out.push((w >> 16u64) as u8);
        out.push((w >> 8u64) as u8);
        out.push(w as u8);
        proof {
            assert((w >> 0u64) == w) by (bit_vector);
            assert forall|i: int| 0 <= i < 8 * (j + 1) implies out@[i] == be_bytes(
                ws@,
                (j + 1) as nat,
            )[i] by {
                if i >= 8 * j {
                    assert(i / 8 == j);
                    assert(i % 8 == i - 8 * j);
                } else {
                    assert(out@[i] == before[i]);
                }
            }
        }
        j += 1;
    }
    out
}

} // verus!

//! BLAKE2b (RFC 7693): a streaming hash with 1 to 64 bytes of output and an
//! optional key of 1 to 64 bytes.
use crate::engine::zeros;
use crate::errors::UnknownCryptoError;
use crate::util::{zeroize_bytes, zeroize_vec, zeroize_words};
use vstd::arithmetic::div_mod::{lemma_fundamental_div_mod, lemma_fundamental_div_mod_converse};
use vstd::prelude::*;
use vstd::slice::slice_to_vec;

verus! {

/// The block size of BLAKE2b, in bytes.
pub const BLAKE2B_BLOCKSIZE: usize = 128;

/// The largest output and key size of BLAKE2b, in bytes.
pub const BLAKE2B_OUTSIZE: usize = 64;

/// BLAKE2b's initialization vector (the SHA-512 initial hash value).
pub const IV: [u64; 8] = [
    0x6a09e667f3bcc908, 0xbb67ae8584caa73b, 0x3c6ef372fe94f82b, 0xa54ff53a5f1d36f1,
    0x510e527fade682d1, 0x9b05688c2b3e6c1f, 0x1f83d9abfb41bd6b, 0x5be0cd19137e2179,
];

/// The ten message permutations, one row of sixteen word indices per round.
pub const SIGMA: [u8; 160] = [
    0, 1, 2, 3, 4, 5, 6, 7, 8, 9, 10, 11, 12, 13, 14, 15,
    14, 10, 4, 8, 9, 15, 13, 6, 1, 12, 0, 2, 11, 7, 5, 3,
    11, 8, 12, 0, 5, 2, 15, 13, 10, 14, 3, 6, 7, 1, 9, 4,
    7, 9, 3, 1, 13, 12, 11, 14, 2, 6, 5, 10, 4, 0, 15, 8,
    9, 0, 5, 7, 2, 4, 10, 15, 14, 1, 11, 12, 6, 8, 3, 13,
    2, 12, 6, 10, 0, 11, 8, 3, 4, 13, 7, 5, 15, 14, 1, 9,
    12, 5, 1, 15, 14, 13, 4, 10, 0, 7, 6, 3, 9, 2, 8, 11,
    13, 11, 7, 14, 12, 1, 3, 9, 5, 0, 15, 4, 8, 6, 2, 10,
    6, 15, 14, 9, 11, 3, 0, 8, 12, 2, 13, 7, 1, 4, 10, 5,
    10, 2, 8, 4, 7, 6, 1, 5, 15, 11, 9, 14, 3, 12, 13, 0,
];

/// The little-endian 64-bit word stored in `b[i..i + 8]`.
pub open spec fn le_word(b: Seq<u8>, i: int) -> u64 {
    (b[i] as u64) | ((b[i + 1] as u64) << 8u64) | ((b[i + 2] as u64) << 16u64) | ((b[i + 3] as u64)
        << 24u64) | ((b[i + 4] as u64) << 32u64) | ((b[i + 5] as u64) << 40u64) | ((b[i + 6] as u64)
        << 48u64) | ((b[i + 7] as u64) << 56u64)
}

/// The sixteen message words of a block.
pub open spec fn message_words(block: Seq<u8>) -> Seq<u64> {
    Seq::new(16, |i: int| le_word(block, 8 * i))
}

/// Byte `m` (0 is the least significant) of the little-endian encoding of `w`.
pub open spec fn le_byte(w: u64, m: int) -> u8 {
    (w >> ((8 * m) as u64)) as u8
}

/// The first `n` bytes of the little-endian encoding of the words `h`.
pub open spec fn le_bytes(h: Seq<u64>, n: nat) -> Seq<u8> {
    Seq::new(n, |i: int| le_byte(h[i / 8], i % 8))
}

/// The mixing function G on words `a`, `b`, `c`, `d` of `v`, with message words `x`, `y`.
pub open spec fn mix(v: Seq<u64>, a: int, b: int, c: int, d: int, x: u64, y: u64) -> Seq<u64> {
    let va = v[a].wrapping_add(v[b]).wrapping_add(x);
    let t = v[d] ^ va;
    let vd = (t >> 32u64) | (t << 32u64);
    let vc = v[c].wrapping_add(vd);
    let u = v[b] ^ vc;
    let vb = (u >> 24u64) | (u << 40u64);
    let va2 = va.wrapping_add(vb).wrapping_add(y);
    let t2 = vd ^ va2;
    let vd2 = (t2 >> 16u64) | (t2 << 48u64);
    let vc2 = vc.wrapping_add(vd2);
    let u2 = vb ^ vc2;
    let vb2 = (u2 >> 63u64) | (u2 << 1u64);
    v.update(a, va2).update(b, vb2).update(c, vc2).update(d, vd2)
}

/// Message word `k` of permutation row `r`.
pub open spec fn sigma_word(m: Seq<u64>, r: int, k: int) -> u64 {
    m[(SIGMA[16 * r + k] % 16) as int]
}

/// One round: G on the four columns, then on the four diagonals.
pub open spec fn round(v: Seq<u64>, m: Seq<u64>, r: int) -> Seq<u64> {
    let v1 = mix(v, 0, 4, 8, 12, sigma_word(m, r, 0), sigma_word(m, r, 1));
    let v2 = mix(v1, 1, 5, 9, 13, sigma_word(m, r, 2), sigma_word(m, r, 3));
    let v3 = mix(v2, 2, 6, 10, 14, sigma_word(m, r, 4), sigma_word(m, r, 5));
    let v4 = mix(v3, 3, 7, 11, 15, sigma_word(m, r, 6), sigma_word(m, r, 7));
    let v5 = mix(v4, 0, 5, 10, 15, sigma_word(m, r, 8), sigma_word(m, r, 9));
    let v6 = mix(v5, 1, 6, 11, 12, sigma_word(m, r, 10), sigma_word(m, r, 11));
    let v7 = mix(v6, 2, 7, 8, 13, sigma_word(m, r, 12), sigma_word(m, r, 13));
    mix(v7, 3, 4, 9, 14, sigma_word(m, r, 14), sigma_word(m, r, 15))
}

/// The working vector after the first `n` rounds.
pub open spec fn rounds(v: Seq<u64>, m: Seq<u64>, n: nat) -> Seq<u64>
    decreases n,
{
    if n == 0 {
        v
    } else {
        round(rounds(v, m, (n - 1) as nat), m, (n - 1) % 10)
    }
}

/// The working vector before the rounds: chaining words, IV, the byte counter
/// `t0`, `t1` and, on the last block, the inverted word 14.
pub open spec fn init_vector(h: Seq<u64>, t0: u64, t1: u64, last: bool) -> Seq<u64> {
    seq![
        h[0], h[1], h[2], h[3], h[4], h[5], h[6], h[7],
        IV[0], IV[1], IV[2], IV[3],
        IV[4] ^ t0, IV[5] ^ t1, if last { !IV[6] } else { IV[6] }, IV[7],
    ]
}

/// The compression function F.
#[verifier::opaque]
pub open spec fn compress_spec(h: Seq<u64>, block: Seq<u8>, t0: u64, t1: u64, last: bool) -> Seq<
    u64,
> {
    let v = rounds(init_vector(h, t0, t1, last), message_words(block), 12);
    Seq::new(8, |i: int| h[i] ^ v[i] ^ v[i + 8])
}

/// The low word of a byte count.
pub open spec fn count_lo(n: int) -> u64 {
    (n % 0x1_0000_0000_0000_0000) as u64
}

/// The high word of a byte count.
pub open spec fn count_hi(n: int) -> u64 {
    (n / 0x1_0000_0000_0000_0000) as u64
}

/// The chaining state after the non-final compression of every whole block of
/// `data`, each with the count of bytes up to its end.
pub open spec fn chain(h: Seq<u64>, data: Seq<u8>) -> Seq<u64>
    decreases data.len(),
{
    if data.len() < 128 {
        h
    } else {
        let cut = data.len() - 128;
        compress_spec(
            chain(h, data.take(cut)),
            data.skip(cut),
            count_lo(data.len() as int),
            count_hi(data.len() as int),
            false,
        )
    }
}

/// The chaining state after the parameter block for `nn` output bytes and a
/// `kk`-byte key.
pub open spec fn param_state(nn: nat, kk: nat) -> Seq<u64> {
    IV@.update(0, IV[0] ^ (0x01010000u64 ^ ((kk as u64) << 8u64) ^ (nn as u64)))
}

/// What is hashed ahead of the message: the key padded to one block, if any.
pub open spec fn key_prefix(key: Seq<u8>) -> Seq<u8> {
    if key.len() == 0 {
        Seq::empty()
    } else {
        key + zeros((128 - key.len()) as nat)
    }
}

/// How many bytes of `n` fall in the last block: all of it, 1 to 128, unless `n` is 0.
pub open spec fn last_len(n: nat) -> nat {
    if n == 0 {
        0
    } else {
        (((n - 1) as nat) % 128 + 1) as nat
    }
}

/// The BLAKE2b digest of `msg`, `nn` bytes long, under `key` (empty for none).
pub open spec fn blake2b_spec(nn: nat, key: Seq<u8>, msg: Seq<u8>) -> Seq<u8> {
    let d = key_prefix(key) + msg;
    let n = d.len();
    let r = last_len(n);
    let h = compress_spec(
        chain(param_state(nn, key.len()), d.take(n - r)),
        d.skip(n - r) + zeros((128 - r) as nat),
        count_lo(n as int),
        count_hi(n as int),
        true,
    );
    le_bytes(h, nn)
}

fn g(v: &mut [u64; 16], a: usize, b: usize, c: usize, d: usize, x: u64, y: u64)
    requires
        a < 16 && b < 16 && c < 16 && d < 16,
        a != b && a != c && a != d && b != c && b != d && c != d,
    ensures
        final(v)@ == mix(old(v)@, a as int, b as int, c as int, d as int, x, y),
{
    let va = v[a].wrapping_add(v[b]).wrapping_add(x);
    let t = v[d] ^ va;
    let vd = (t >> 32u64) | (t << 32u64);
    let vc = v[c].wrapping_add(vd);
    let u = v[b] ^ vc;
    let vb = (u >> 24u64) | (u << 40u64);
    let va2 = va.wrapping_add(vb).wrapping_add(y);
    let t2 = vd ^ va2;
    let vd2 = (t2 >> 16u64) | (t2 << 48u64);
    let vc2 = vc.wrapping_add(vd2);
    let u2 = vb ^ vc2;
    let vb2 = (u2 >> 63u64) | (u2 << 1u64);
    v[a] = va2;
    v[b] = vb2;
    v[c] = vc2;
    v[d] = vd2;
}

fn sigma(m: &[u64; 16], r: usize, k: usize) -> (w: u64)
    requires
        r < 10,
        k < 16,
    ensures
        w == sigma_word(m@, r as int, k as int),
{
    m[(SIGMA[16 * r + k] % 16) as usize]
}

fn do_round(v: &mut [u64; 16], m: &[u64; 16], r: usize)
    requires
        r < 10,
    ensures
        final(v)@ == round(old(v)@, m@, r as int),
{
    g(v, 0, 4, 8, 12, sigma(m, r, 0), sigma(m, r, 1));
    g(v, 1, 5, 9, 13, sigma(m, r, 2), sigma(m, r, 3));
    g(v, 2, 6, 10, 14, sigma(m, r, 4), sigma(m, r, 5));
    g(v, 3, 7, 11, 15, sigma(m, r, 6), sigma(m, r, 7));
    g(v, 0, 5, 10, 15, sigma(m, r, 8), sigma(m, r, 9));
    g(v, 1, 6, 11, 12, sigma(m, r, 10), sigma(m, r, 11));
    g(v, 2, 7, 8, 13, sigma(m, r, 12), sigma(m, r, 13));
    g(v, 3, 4, 9, 14, sigma(m, r, 14), sigma(m, r, 15));
}

/// Loads the little-endian word at `block[i..i + 8]`.
fn load_u64_le(block: &[u8; 128], i: usize) -> (r: u64)
    requires
        i + 8 <= 128,
    ensures
        r == le_word(block@, i as int),
{
    (block[i] as u64) | ((block[i + 1] as u64) << 8u64) | ((block[i + 2] as u64) << 16u64) | ((
    block[i + 3] as u64) << 24u64) | ((block[i + 4] as u64) << 32u64) | ((block[i + 5] as u64)
        << 40u64) | ((block[i + 6] as u64) << 48u64) | ((block[i + 7] as u64) << 56u64)
}

/// Compresses one block into `h` with byte counter `t0`, `t1`.
fn compress(h: &mut [u64; 8], block: &[u8; 128], t0: u64, t1: u64, last: bool)
    ensures
        final(h)@ == compress_spec(old(h)@, block@, t0, t1, last),
{
    let mut m = [0u64; 16];
    let mut i: usize = 0;
    while i < 16
        invariant
            i <= 16,
            forall|j: int| 0 <= j < i ==> m[j] == le_word(block@, 8 * j),
        decreases 16 - i,
    {
        m[i] = load_u64_le(block, 8 * i);
        i += 1;
    }
    assert(m@ =~= message_words(block@));
    let mut v = [
        h[0],
        h[1],
        h[2],
        h[3],
        h[4],
        h[5],
        h[6],
        h[7],
        IV[0],
        IV[1],
        IV[2],
        IV[3],
        IV[4] ^ t0,
        IV[5] ^ t1,
        if last {
            !IV[6]
        } else {
            IV[6]
        },
        IV[7],
    ];
    let ghost v0 = v@;
    assert(v0 =~= init_vector(h@, t0, t1, last));
    let mut r: usize = 0;
    while r < 12
        invariant
            r <= 12,
            v@ == rounds(v0, m@, r as nat),
        decreases 12 - r,
    {
        do_round(&mut v, &m, r % 10);
        r += 1;
    }
    let ghost h0 = h@;
    let mut k: usize = 0;
    while k < 8
        invariant
            k <= 8,
            v@ == rounds(v0, m@, 12),
            forall|j: int| 0 <= j < k ==> h[j] == h0[j] ^ v@[j] ^ v@[j + 8],
            forall|j: int| k <= j < 8 ==> h[j] == h0[j],
        decreases 8 - k,
    {
        h[k] = h[k] ^ v[k] ^ v[k + 8];
        k += 1;
    }
    reveal(compress_spec);
    assert(h@ =~= compress_spec(h0, block@, t0, t1, last));
}

/// The byte count held by the counter words `t[0]` (low) and `t[1]` (high).
pub open spec fn counter_value(t: [u64; 2]) -> int {
    t[0] as int + t[1] as int * 0x1_0000_0000_0000_0000
}

/// The most message bytes one state can take: the byte counter, key block
/// included, is 128 bits wide.
pub open spec fn max_input() -> int {
    u128::MAX as int - 128
}

fn add_count(t: &mut [u64; 2], amount: u64)
    requires
        counter_value(*old(t)) + amount <= u128::MAX,
    ensures
        counter_value(*final(t)) == counter_value(*old(t)) + amount,
{
    let lo = t[0];
    let res = lo.wrapping_add(amount);
    t[0] = res;
    if res < lo {
        t[1] = t[1] + 1;
    }
}

proof fn lemma_count_words(t: [u64; 2], n: int)
    requires
        counter_value(t) == n,
    ensures
        t[0] == count_lo(n),
        t[1] == count_hi(n),
{
    lemma_fundamental_div_mod_converse(n, 0x1_0000_0000_0000_0000, t[1] as int, t[0] as int);
}

/// The first `n` bytes of the little-endian encoding of `h`.
fn words_to_le(h: &[u64; 8], n: usize) -> (r: Vec<u8>)
    requires
        n <= 64,
    ensures
        r@ == le_bytes(h@, n as nat),
{
    let mut out: Vec<u8> = Vec::new();
    let mut k: usize = 0;
    while k < n
        invariant
            k <= n <= 64,
            out@ =~= le_bytes(h@, k as nat),
        decreases n - k,
    {
        out.push((h[k / 8] >> ((8 * (k % 8)) as u64)) as u8);
        k += 1;
    }
    out
}

/// A BLAKE2b key: 1 to 64 bytes, zeroed on drop.
pub struct SecretKey {
    value: Vec<u8>,
}

impl View for SecretKey {
    type V = Seq<u8>;

    closed spec fn view(&self) -> Seq<u8> {
        self.value@
    }
}

impl Drop for SecretKey {
    fn drop(&mut self)
        opens_invariants none
        no_unwind
    {
        zeroize_vec(&mut self.value);
    }
}

impl SecretKey {
    pub closed spec fn wf(&self) -> bool {
        1 <= self.value@.len() <= 64
    }

    /// Fails unless `slice` holds 1 to 64 bytes.
    pub fn from_slice(slice: &[u8]) -> (r: Result<SecretKey, UnknownCryptoError>)
        ensures
            r is Ok <==> 1 <= slice@.len() <= 64,
            r is Ok ==> r->Ok_0@ == slice@ && r->Ok_0.wf(),
    {
        if slice.len() < 1 || slice.len() > BLAKE2B_OUTSIZE {
            return Err(UnknownCryptoError);
        }
        Ok(SecretKey { value: slice_to_vec(slice) })
    }

    pub fn unprotected_as_bytes(&self) -> (r: &[u8])
        ensures
            r@ == self@,
    {
        self.value.as_slice()
    }

    pub fn len(&self) -> (r: usize)
        ensures
            r == self@.len(),
    {
        self.value.len()
    }

    pub fn is_empty(&self) -> (r: bool)
        ensures
            r == (self@.len() == 0),
    {
        self.value.len() == 0
    }
}

/// A BLAKE2b digest: 1 to 64 bytes, compared by value.
#[derive(Clone)]
pub struct Digest {
    value: Vec<u8>,
}

impl View for Digest {
    type V = Seq<u8>;

    closed spec fn view(&self) -> Seq<u8> {
        self.value@
    }
}

impl Digest {
    /// Fails unless `slice` holds 1 to 64 bytes.
    pub fn from_slice(slice: &[u8]) -> (r: Result<Digest, UnknownCryptoError>)
        ensures
            r is Ok <==> 1 <= slice@.len() <= 64,
            r is Ok ==> r->Ok_0@ == slice@,
    {
        if slice.len() < 1 || slice.len() > BLAKE2B_OUTSIZE {
            return Err(UnknownCryptoError);
        }
        Ok(Digest { value: slice_to_vec(slice) })
    }

    pub fn as_ref(&self) -> (r: &[u8])
        ensures
            r@ == self@,
    {
        self.value.as_slice()
    }

    pub fn len(&self) -> (r: usize)
        ensures
            r == self@.len(),
    {
        self.value.len()
    }

    pub fn is_empty(&self) -> (r: bool)
        ensures
            r == (self@.len() == 0),
    {
        self.value.len() == 0
    }
}

impl PartialEq for Digest {
    fn eq(&self, other: &Digest) -> (r: bool) {
        let n = self.value.len();
        if n != other.value.len() {
            return false;
        }
        let mut i: usize = 0;
        while i < n
            invariant
                i <= n,
                n == self.value@.len(),
                n == other.value@.len(),
                forall|k: int| 0 <= k < i ==> self.value@[k] == other.value@[k],
            decreases n - i,
        {
            if self.value[i] != other.value[i] {
                return false;
            }
            i += 1;
        }
        assert(self.value@ =~= other.value@);
        true
    }
}

impl vstd::std_specs::cmp::PartialEqSpecImpl for Digest {
    open spec fn obeys_eq_spec() -> bool {
        true
    }

    open spec fn eq_spec(&self, other: &Digest) -> bool {
        self@ == other@
    }
}

/// BLAKE2b streaming state.
pub struct Blake2b {
    init_state: [u64; 8],
    internal_state: [u64; 8],
    buffer: [u8; 128],
    leftover: usize,
    t: [u64; 2],
    is_finalized: bool,
    is_keyed: bool,
    size: usize,
    key: Ghost<Seq<u8>>,
    data: Ghost<Seq<u8>>,
    msg: Ghost<Seq<u8>>,
}

impl Drop for Blake2b {
    /// Secret material is overwritten with zeros when the state goes away.
    fn drop(&mut self)
        opens_invariants none
        no_unwind
    {
        zeroize_words(&mut self.init_state);
        zeroize_words(&mut self.internal_state);
        zeroize_bytes(&mut self.buffer);
        zeroize_words(&mut self.t);
    }
}

impl Blake2b {
    /// The buffering discipline: all compressed blocks are chained from the
    /// parameter state, and the last 1 to 128 bytes wait in the buffer.
    closed spec fn inv(&self) -> bool {
        let n = self.data@.len();
        let r = self.leftover as int;
        &&& 1 <= self.size <= 64
        &&& self.key@.len() <= 64
        &&& self.is_keyed == (self.key@.len() > 0)
        &&& self.init_state@ == param_state(self.size as nat, self.key@.len())
        &&& r <= 128
        &&& n <= u128::MAX
        &&& !self.is_finalized ==> {
            &&& r <= n
            &&& (n == 0 ==> r == 0)
            &&& (n > 0 ==> r >= 1)
            &&& (n - r) % 128 == 0
            &&& counter_value(self.t) == n - r
            &&& self.internal_state@ == chain(self.init_state@, self.data@.take(n - r))
            &&& self.buffer@.take(r) == self.data@.skip(n - r)
        }
    }

    pub closed spec fn wf(&self) -> bool {
        &&& self.inv()
        &&& self.data@ == key_prefix(self.key@) + self.msg@
    }

    /// The message absorbed since the state was made or reset, key block excluded.
    pub closed spec fn message(&self) -> Seq<u8> {
        self.msg@
    }

    /// The key, empty for an unkeyed state.
    pub closed spec fn key(&self) -> Seq<u8> {
        self.key@
    }

    pub closed spec fn out_size(&self) -> nat {
        self.size as nat
    }

    pub closed spec fn finalized(&self) -> bool {
        self.is_finalized
    }

    #[verifier::rlimit(30)]
    fn absorb_byte(&mut self, byte: u8)
        requires
            old(self).inv(),
            !old(self).is_finalized,
            old(self).data@.len() + 1 <= u128::MAX,
        ensures
            final(self).inv(),
            !final(self).is_finalized,
            final(self).data@ == old(self).data@.push(byte),
            final(self).msg == old(self).msg,
            final(self).key == old(self).key,
            final(self).size == old(self).size,
            final(self).is_keyed == old(self).is_keyed,
    {
        let ghost d0 = self.data@;
        let ghost n = d0.len();
        if self.leftover == BLAKE2B_BLOCKSIZE {
            add_count(&mut self.t, 128);
            proof {
                lemma_count_words(self.t, n as int);
                let x = d0.take(n as int);
                assert(self.buffer@.take(128) =~= self.buffer@);
                assert(x.take(n - 128) =~= d0.take(n - 128));
                assert(x.skip(n - 128) =~= self.buffer@);
                assert(x =~= d0);
            }
            compress(&mut self.internal_state, &self.buffer, self.t[0], self.t[1], false);
            self.leftover = 0;
        }
        let ghost buf0 = self.buffer@;
        let r = self.leftover;
        self.buffer[r] = byte;
        self.leftover = r + 1;
        self.data = Ghost(d0.push(byte));
        proof {
            let d = self.data@;
            assert(d.take(n + 1 - (r + 1)) =~= d0.take(n - r));
            assert forall|k: int| 0 <= k < r implies buf0[k] == d0[n - r + k] by {
                assert(buf0.take(r as int)[k] == d0.skip(n - r)[k]);
            }
            assert(self.buffer@.take(r + 1) =~= d.skip(n + 1 - (r + 1)));
        }
    }

    fn absorb(&mut self, bytes: &[u8])
        requires
            old(self).inv(),
            !old(self).is_finalized,
            old(self).data@.len() + bytes@.len() <= u128::MAX,
        ensures
            final(self).inv(),
            !final(self).is_finalized,
            final(self).data@ == old(self).data@ + bytes@,
            final(self).msg == old(self).msg,
            final(self).key == old(self).key,
            final(self).size == old(self).size,
            final(self).is_keyed == old(self).is_keyed,
    {
        let ghost start = self.data@;
        let mut i: usize = 0;
        while i < bytes.len()
            invariant
                self.inv(),
                !self.is_finalized,
                i <= bytes@.len(),
                self.data@ == start + bytes@.take(i as int),
                start.len() + bytes@.len() <= u128::MAX,
                self.msg == old(self).msg,
                self.key == old(self).key,
                self.size == old(self).size,
                self.is_keyed == old(self).is_keyed,
            decreases bytes@.len() - i,
        {
            self.absorb_byte(bytes[i]);
            assert(bytes@.take(i + 1) =~= bytes@.take(i as int).push(bytes@[i as int]));
            i += 1;
        }
        assert(bytes@.take(bytes@.len() as int) =~= bytes@);
    }

    /// Makes a state for `size` bytes of output, keyed when a key is given.
    /// Fails unless `size` is 1 to 64.
    pub fn new(secret_key: Option<&SecretKey>, size: usize) -> (r: Result<Blake2b, UnknownCryptoError>)
        requires
            secret_key is Some ==> secret_key->Some_0.wf(),
        ensures
            r is Ok <==> 1 <= size <= 64,
            r is Ok ==> {
                &&& r->Ok_0.wf()
                &&& !r->Ok_0.finalized()
                &&& r->Ok_0.message() == Seq::<u8>::empty()
                &&& r->Ok_0.out_size() == size
                &&& r->Ok_0.key() == match secret_key {
                    Some(k) => k@,
                    None => Seq::<u8>::empty(),
                }
            },
    {
        if size < 1 || size > BLAKE2B_OUTSIZE {
            return Err(UnknownCryptoError);
        }
        let kk: usize = match secret_key {
            Some(k) => k.len(),
            None => 0,
        };
        let mut init_state = IV;
        init_state[0] = IV[0] ^ (0x01010000u64 ^ ((kk as u64) << 8u64) ^ (size as u64));
        assert(init_state@ =~= param_state(size as nat, kk as nat));
        let ghost key: Seq<u8> = match secret_key {
            Some(k) => k@,
            None => Seq::<u8>::empty(),
        };
        let mut state = Blake2b {
            init_state,
            internal_state: init_state,
            buffer: [0u8; 128],
            leftover: 0,
            t: [0u64; 2],
            is_finalized: false,
            is_keyed: kk > 0,
            size,
            key: Ghost(key),
            data: Ghost(Seq::empty()),
            msg: Ghost(Seq::empty()),
        };
        assert(state.data@.take(0) =~= Seq::<u8>::empty());
        assert(state.buffer@.take(0) =~= state.data@.skip(0));
        match secret_key {
            Some(k) => {
                let mut block = [0u8; 128];
                let kb = k.unprotected_as_bytes();
                let mut i: usize = 0;
                while i < kb.len()
                    invariant
                        i <= kb@.len() <= 64,
                        forall|j: int| 0 <= j < i ==> block[j] == kb@[j],
                        forall|j: int| i <= j < 128 ==> block[j] == 0,
                    decreases kb@.len() - i,
                {
                    block[i] = kb[i];
                    i += 1;
                }
                assert(block@ =~= key_prefix(key));
                state.absorb(&block);
                zeroize_bytes(&mut block);
                assert(Seq::<u8>::empty() + key_prefix(key) =~= key_prefix(key) + Seq::<u8>::empty());
            },
            None => {
                assert(state.data@ =~= key_prefix(key) + state.msg@);
            },
        }
        Ok(state)
    }

    /// Starts over with the same output size. Fails, changing nothing, when a
    /// key is given to an unkeyed state or none to a keyed one.
    pub fn reset(&mut self, secret_key: Option<&SecretKey>) -> (r: Result<(), UnknownCryptoError>)
        requires
            old(self).wf(),
            secret_key is Some ==> secret_key->Some_0.wf(),
        ensures
            r is Ok <==> (secret_key is Some) == (old(self).key().len() > 0),
            r is Err ==> *final(self) == *old(self),
            r is Ok ==> {
                &&& final(self).wf()
                &&& !final(self).finalized()
                &&& final(self).message() == Seq::<u8>::empty()
                &&& final(self).out_size() == old(self).out_size()
                &&& final(self).key() == match secret_key {
                    Some(k) => k@,
                    None => Seq::<u8>::empty(),
                }
            },
    {
        if secret_key.is_some() != self.is_keyed {
            return Err(UnknownCryptoError);
        }
        match Blake2b::new(secret_key, self.size) {
            Ok(fresh) => {
                *self = fresh;
                Ok(())
            },
            Err(e) => Err(e),
        }
    }

    /// Absorbs `data`. Fails, changing nothing, after `finalize` until `reset`.
    pub fn update(&mut self, data: &[u8]) -> (r: Result<(), UnknownCryptoError>)
        requires
            old(self).wf(),
            old(self).message().len() + data@.len() <= max_input(),
        ensures
            final(self).wf(),
            final(self).key() == old(self).key(),
            final(self).out_size() == old(self).out_size(),
            old(self).finalized() ==> r is Err && *final(self) == *old(self),
            !old(self).finalized() ==> {
                &&& r is Ok
                &&& final(self).message() == old(self).message() + data@
                &&& !final(self).finalized()
            },
    {
        if self.is_finalized {
            return Err(UnknownCryptoError);
        }
        self.absorb(data);
        self.msg = Ghost(self.msg@ + data@);
        assert(self.data@ =~= key_prefix(self.key@) + self.msg@);
        Ok(())
    }

    /// Pads the last block, compresses it as the final one and returns the
    /// digest. Fails, changing nothing, if already finalized.
    pub fn finalize(&mut self) -> (r: Result<Digest, UnknownCryptoError>)
        requires
            old(self).wf(),
        ensures
            final(self).wf(),
            final(self).finalized(),
            final(self).message() == old(self).message(),
            final(self).key() == old(self).key(),
            final(self).out_size() == old(self).out_size(),
            old(self).finalized() ==> r is Err && *final(self) == *old(self),
            !old(self).finalized() ==> r is Ok && r->Ok_0@ == blake2b_spec(
                old(self).out_size(),
                old(self).key(),
                old(self).message(),
            ),
    {
        if self.is_finalized {
            return Err(UnknownCryptoError);
        }
        let ghost d = self.data@;
        let ghost n = d.len();
        let r = self.leftover;
        proof {
            if n > 0 {
                lemma_fundamental_div_mod((n - 1) as int, 128);
                lemma_fundamental_div_mod((n - r) as int, 128);
                lemma_fundamental_div_mod_converse((n - 1) as int, 128, (n - r) as int / 128, r - 1);
            }
            assert(r == last_len(n));
        }
        let mut t = self.t;
        add_count(&mut t, r as u64);
        proof {
            lemma_count_words(t, n as int);
        }
        let mut buf = self.buffer;
        let mut i: usize = r;
        while i < BLAKE2B_BLOCKSIZE
            invariant
                r <= i <= 128,
                forall|j: int| 0 <= j < r ==> buf[j] == d.skip(n - r)[j],
                forall|j: int| r <= j < i ==> buf[j] == 0,
            decreases 128 - i,
        {
            buf[i] = 0;
            i += 1;
        }
        assert(buf@ =~= d.skip(n - r) + zeros((128 - r) as nat));
        let mut h = self.internal_state;
        compress(&mut h, &buf, t[0], t[1], true);
        let out = words_to_le(&h, self.size);
        self.buffer = buf;
        self.internal_state = h;
        self.t = t;
        self.is_finalized = true;
        Ok(Digest { value: out })
    }
}

} // verus!

//! PBKDF2 with HMAC-SHA-512 as the pseudorandom function.
use crate::errors::{UnknownCryptoError, ValidationCryptoError};
use crate::hmac::{hmac_sha512_spec, HmacSha512};
use crate::util::{compare_ct, zeroize_vec};
use vstd::prelude::*;
use vstd::slice::slice_to_vec;

verus! {

/// A secret password, used as the HMAC key. Its bytes are zeroed on drop.
pub struct Password {
    value: Vec<u8>,
}

impl View for Password {
    type V = Seq<u8>;

    closed spec fn view(&self) -> Seq<u8> {
        self.value@
    }
}

impl Drop for Password {
    fn drop(&mut self)
        opens_invariants none
        no_unwind
    {
        zeroize_vec(&mut self.value);
    }
}

impl Password {
    pub fn from_slice(slice: &[u8]) -> (r: Result<Password, UnknownCryptoError>)
        ensures
            r is Ok,
            r->Ok_0@ == slice@,
    {
        Ok(Password { value: slice_to_vec(slice) })
    }

    pub fn unprotected_as_bytes(&self) -> (r: &[u8])
        ensures
            r@ == self@,
    {
        self.value.as_slice()
    }

    pub fn len(&self) -> (r: usize)
        ensures
            r == self@.len(),
    {
        self.value.len()
    }

    pub fn is_empty(&self) -> (r: bool)
        ensures
            r == (self@.len() == 0),
    {
        self.value.len() == 0
    }
}

/// Output size of HMAC-SHA-512, the size of one derived block.
pub const HLEN: usize = 64;

/// The big-endian encoding of a block index.
pub open spec fn be32(i: u32) -> Seq<u8> {
    seq![(i >> 24u32) as u8, (i >> 16u32) as u8, (i >> 8u32) as u8, i as u8]
}

/// Bytewise XOR of two sequences of the same length.
pub open spec fn xor_seq(a: Seq<u8>, b: Seq<u8>) -> Seq<u8> {
    Seq::new(a.len(), |k: int| a[k] ^ b[k])
}

/// U_j for block `i`: U_1 = HMAC(P, S || i), U_j = HMAC(P, U_(j-1)).
pub open spec fn u_value(pw: Seq<u8>, salt: Seq<u8>, i: u32, j: nat) -> Seq<u8>
    decreases j,
{
    if j <= 1 {
        hmac_sha512_spec(pw, salt + be32(i))
    } else {
        hmac_sha512_spec(pw, u_value(pw, salt, i, (j - 1) as nat))
    }
}

/// U_1 xor ... xor U_j for block `i`.
pub open spec fn xor_upto(pw: Seq<u8>, salt: Seq<u8>, i: u32, j: nat) -> Seq<u8>
    decreases j,
{
    if j <= 1 {
        u_value(pw, salt, i, 1)
    } else {
        xor_seq(xor_upto(pw, salt, i, (j - 1) as nat), u_value(pw, salt, i, j))
    }
}

/// The blocks T_1 .. T_n, concatenated.
pub open spec fn dk_blocks(pw: Seq<u8>, salt: Seq<u8>, c: nat, n: nat) -> Seq<u8>
    decreases n,
{
    if n == 0 {
        Seq::empty()
    } else {
        dk_blocks(pw, salt, c, (n - 1) as nat) + xor_upto(pw, salt, n as u32, c)
    }
}

/// The number of blocks that a `len`-byte key takes.
pub open spec fn block_count(len: nat) -> nat {
    ((len + 63) / 64) as nat
}

/// PBKDF2-HMAC-SHA-512 of password `pw` and `salt` with `c` iterations, `len` bytes long.
pub open spec fn pbkdf2_spec(pw: Seq<u8>, salt: Seq<u8>, c: nat, len: nat) -> Seq<u8> {
    dk_blocks(pw, salt, c, block_count(len)).take(len as int)
}

/// Whether `derive_key` accepts these sizes: at least one iteration, a non-empty
/// output, and block indices that fit in 32 bits.
pub open spec fn derive_ok(iterations: nat, len: nat) -> bool {
    iterations >= 1 && len >= 1 && block_count(len) <= u32::MAX
}

proof fn lemma_hmac_len(key: Seq<u8>, msg: Seq<u8>)
    ensures
        hmac_sha512_spec(key, msg).len() == 64,
{
}

proof fn lemma_xor_upto_len(pw: Seq<u8>, salt: Seq<u8>, i: u32, j: nat)
    ensures
        xor_upto(pw, salt, i, j).len() == 64,
    decreases j,
{
    if j > 1 {
        lemma_xor_upto_len(pw, salt, i, (j - 1) as nat);
    }
    lemma_hmac_len(pw, salt + be32(i));
}

proof fn lemma_dk_blocks_len(pw: Seq<u8>, salt: Seq<u8>, c: nat, n: nat)
    ensures
        dk_blocks(pw, salt, c, n).len() == 64 * n,
    decreases n,
{
    if n > 0 {
        lemma_dk_blocks_len(pw, salt, c, (n - 1) as nat);
        lemma_xor_upto_len(pw, salt, n as u32, c);
    }
}

/// A derived key is exactly as long as asked for.
pub proof fn lemma_pbkdf2_len(pw: Seq<u8>, salt: Seq<u8>, c: nat, len: nat)
    ensures
        pbkdf2_spec(pw, salt, c, len).len() == len,
{
    lemma_dk_blocks_len(pw, salt, c, block_count(len));
}

/// T_i = U_1 xor ... xor U_c for block index `i`.
fn derive_block(prf: &HmacSha512, salt: &[u8], iterations: usize, i: u32) -> (r: Vec<u8>)
    requires
        prf.wf(),
        iterations >= 1,
    ensures
        r@ == xor_upto(prf.key(), salt@, i, iterations as nat),
{
    let mut msg = slice_to_vec(salt);
    msg.push((i >> 24u32) as u8);
    msg.push((i >> 16u32) as u8);
    msg.push((i >> 8u32) as u8);
    msg.push(i as u8);
    assert((i >> 0u32) == i) by (bit_vector);
    assert(msg@ =~= salt@ + be32(i));
    let mut u = prf.mac(msg.as_slice());
    let mut t = slice_to_vec(u.as_slice());
    let mut j: usize = 1;
    while j < iterations
        invariant
            prf.wf(),
            1 <= j <= iterations,
            u@ == u_value(prf.key(), salt@, i, j as nat),
            t@ == xor_upto(prf.key(), salt@, i, j as nat),
            u@.len() == 64,
            t@.len() == 64,
        decreases iterations - j,
    {
        let next = prf.mac(u.as_slice());
        let mut k: usize = 0;
        let ghost t0 = t@;
        while k < HLEN
            invariant
                k <= 64,
                t@.len() == 64,
                t0.len() == 64,
                next@.len() == 64,
                forall|m: int| 0 <= m < k ==> t@[m] == t0[m] ^ next@[m],
                forall|m: int| k <= m < 64 ==> t@[m] == t0[m],
            decreases 64 - k,
        {
            let b = t[k] ^ next[k];
            t.set(k, b);
            k += 1;
        }
        zeroize_vec(&mut u);
        u = next;
        j += 1;
        assert(t@ =~= xor_seq(t0, u@));
    }
    zeroize_vec(&mut u);
    t
}

/// Derives `dst.len()` bytes of key from `password` and `salt` with PBKDF2-HMAC-SHA-512.
/// Fails, leaving `dst` as it was, with zero iterations, an empty `dst`, or a
/// `dst` of more than 2^32 - 1 blocks.
pub fn derive_key(password: &Password, salt: &[u8], iterations: usize, dst: &mut [u8]) -> (r:
    Result<(), UnknownCryptoError>)
    ensures
        r is Ok <==> derive_ok(iterations as nat, old(dst)@.len()),
        r is Ok ==> final(dst)@ == pbkdf2_spec(
            password@,
            salt@,
            iterations as nat,
            old(dst)@.len(),
        ),
        r is Err ==> final(dst)@ == old(dst)@,
{
    let len = dst.len();
    if iterations < 1 || len == 0 || (len - 1) / HLEN >= 0xffff_ffff {
        return Err(UnknownCryptoError);
    }
    let prf = HmacSha512::new(password.unprotected_as_bytes());
    let ghost pw = password@;
    let ghost c = iterations as nat;
    let mut out: Vec<u8> = Vec::new();
    let mut n: u32 = 0;
    proof {
        lemma_dk_blocks_len(pw, salt@, c, block_count(len as nat));
    }
    while out.len() < len
        invariant
            prf.wf(),
            prf.key() == pw,
            pw == password@,
            c == iterations as nat,
            iterations >= 1,
            (n as nat) <= block_count(len as nat),
            block_count(len as nat) <= u32::MAX,
            out@ == dk_blocks(pw, salt@, c, n as nat),
            out@.len() == 64 * n,
            (out@.len() < len) ==> (n as nat) < block_count(len as nat),
        decreases block_count(len as nat) - n,
    {
        n = n + 1;
        let block = derive_block(&prf, salt, iterations, n);
        proof {
            lemma_xor_upto_len(pw, salt@, n, c);
        }
        let mut k: usize = 0;
        let ghost before = out@;
        while k < HLEN
            invariant
                k <= 64,
                block@.len() == 64,
                out@ == before + block@.take(k as int),
            decreases 64 - k,
        {
            out.push(block[k]);
            assert(block@.take(k + 1) =~= block@.take(k as int).push(block@[k as int]));
            k += 1;
        }
        assert(block@.take(64) =~= block@);
    }
    proof {
        lemma_dk_blocks_len(pw, salt@, c, n as nat);
    }
    let mut k: usize = 0;
    while k < len
        invariant
            k <= len,
            len == dst@.len(),
            len <= out@.len(),
            forall|m: int| 0 <= m < k ==> dst@[m] == out@[m],
        decreases len - k,
    {
        dst[k] = out[k];
        k += 1;
    }
    assert(n as nat == block_count(len as nat));
    assert(dst@ =~= out@.take(len as int));
    Ok(())
}

/// Derives a key into `dst` and compares it in constant time with `expected`.
/// `Ok(true)` when they match, `Ok(false)` when they do not; an error when
/// `expected` and `dst` differ in length or the sizes are refused.
pub fn verify(
    expected: &[u8],
    password: &Password,
    salt: &[u8],
    iterations: usize,
    dst: &mut [u8],
) -> (r: Result<bool, ValidationCryptoError>)
    ensures
        r is Ok <==> (expected@.len() == old(dst)@.len() && derive_ok(
            iterations as nat,
            old(dst)@.len(),
        )),
        r is Ok ==> r->Ok_0 == (expected@ == pbkdf2_spec(
            password@,
            salt@,
            iterations as nat,
            old(dst)@.len(),
        )),
{
    if expected.len() != dst.len() {
        return Err(ValidationCryptoError);
    }
    match derive_key(password, salt, iterations, dst) {
        Ok(()) => {},
        Err(_) => {
            return Err(ValidationCryptoError);
        },
    }
    match compare_ct(dst, expected) {
        Ok(_) => Ok(true),
        Err(_) => Ok(false),
    }
}

} // verus!

//! HMAC-SHA-512, keyed once and then applied to many messages.
use crate::engine::zeros;
use crate::sha512::{sha512_spec, Sha512};
use vstd::prelude::*;
use vstd::slice::slice_to_vec;

verus! {

/// The key as one block: hashed first when longer than a block, then zero-padded.
pub open spec fn hmac_key_block(key: Seq<u8>) -> Seq<u8> {
    let k = if key.len() > 128 {
        sha512_spec(key)
    } else {
        key
    };
    k + zeros((128 - k.len()) as nat)
}

/// Every byte of `k` XORed with `pad`.
pub open spec fn xor_pad(k: Seq<u8>, pad: u8) -> Seq<u8> {
    Seq::new(k.len(), |i: int| k[i] ^ pad)
}

/// HMAC-SHA-512 of `msg` under `key`.
pub open spec fn hmac_sha512_spec(key: Seq<u8>, msg: Seq<u8>) -> Seq<u8> {
    let kb = hmac_key_block(key);
    sha512_spec(xor_pad(kb, 0x5cu8) + sha512_spec(xor_pad(kb, 0x36u8) + msg))
}

/// Every SHA-512 digest is 64 bytes long.
pub proof fn lemma_sha512_len(msg: Seq<u8>)
    ensures
        sha512_spec(msg).len() == 64,
{
}

/// HMAC-SHA-512 keyed with one key: the inner and outer hash states have
/// already absorbed the padded key block.
pub struct HmacSha512 {
    inner: Sha512,
    outer: Sha512,
    key: Ghost<Seq<u8>>,
}

impl HmacSha512 {
    pub closed spec fn key(&self) -> Seq<u8> {
        self.key@
    }

    pub closed spec fn wf(&self) -> bool {
        let kb = hmac_key_block(self.key@);
        &&& self.inner.wf()
        &&& self.outer.wf()
        &&& !self.inner.finalized()
        &&& !self.outer.finalized()
        &&& self.inner.absorbed() == xor_pad(kb, 0x36u8)
        &&& self.outer.absorbed() == xor_pad(kb, 0x5cu8)
    }

    pub fn new(key: &[u8]) -> (r: HmacSha512)
        ensures
            r.wf(),
            r.key() == key@,
    {
        let mut kb: Vec<u8> = if key.len() > 128 {
            match Sha512::digest(key) {
                Ok(d) => slice_to_vec(d.as_ref()),
                Err(_) => Vec::new(),
            }
        } else {
            slice_to_vec(key)
        };
        let ghost k = kb@;
        proof {
            lemma_sha512_len(key@);
        }
        while kb.len() < 128
            invariant
                k.len() <= kb@.len() <= 128,
                kb@ == k + zeros((kb@.len() - k.len()) as nat),
            decreases 128 - kb@.len(),
        {
            kb.push(0u8);
            assert(kb@ =~= k + zeros((kb@.len() - k.len()) as nat));
        }
        let ghost block = hmac_key_block(key@);
        assert(kb@ == block);
        let mut ipad: Vec<u8> = Vec::new();
        let mut opad: Vec<u8> = Vec::new();
        let mut i: usize = 0;
        while i < 128
            invariant
                i <= 128,
                kb@ == block,
                block.len() == 128,
                ipad@ =~= xor_pad(block, 0x36u8).take(i as int),
                opad@ =~= xor_pad(block, 0x5cu8).take(i as int),
            decreases 128 - i,
        {
            ipad.push(kb[i] ^ 0x36u8);
            opad.push(kb[i] ^ 0x5cu8);
            i += 1;
        }
        assert(ipad@ =~= xor_pad(block, 0x36u8));
        assert(opad@ =~= xor_pad(block, 0x5cu8));
        let mut inner = Sha512::new();
        let mut outer = Sha512::new();
        let _ = inner.update(ipad.as_slice());
        let _ = outer.update(opad.as_slice());
        assert(Seq::<u8>::empty() + ipad@ =~= ipad@);
        assert(Seq::<u8>::empty() + opad@ =~= opad@);
        HmacSha512 { inner, outer, key: Ghost(key@) }
    }

    /// The HMAC-SHA-512 tag of `msg`.
    pub fn mac(&self, msg: &[u8]) -> (r: Vec<u8>)
        requires
            self.wf(),
        ensures
            r@ == hmac_sha512_spec(self.key(), msg@),
            r@.len() == 64,
    {
        let mut inner = self.inner.duplicate();
        let mut outer = self.outer.duplicate();
        let n: usize = msg.len();
        assert(n as int <= u64::MAX as int);
        let _ = inner.update(msg);
        let inner_digest = match inner.finalize() {
            Ok(d) => d,
            Err(_) => {
                return Vec::new();
            },
        };
        let _ = outer.update(inner_digest.as_ref());
        let tag = match outer.finalize() {
            Ok(d) => d,
            Err(_) => {
                return Vec::new();
            },
        };
        proof {
            lemma_sha512_len(outer.absorbed());
        }
        slice_to_vec(tag.as_ref())
    }
}

} // verus!

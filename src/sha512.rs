//! SHA-512: the 64-bit SHA-2 engine with its own initial value, emitting
//! the first 8 chaining words big-endian.
use crate::engine::{max_message_bytes, mlen_value, sha2_words, Sha2State};
use crate::errors::UnknownCryptoError;
use crate::sha2::{be_bytes, words_to_be};
use vstd::prelude::*;
use vstd::slice::slice_to_vec;

verus! {

/// The block size of SHA-512, in bytes.
pub const BLOCKSIZE: usize = 128;

/// The output size of SHA-512, in bytes.
pub const OUTSIZE: usize = 64;

/// The SHA-512 initial hash value H(0) of FIPS 180-4.
pub const H0: [u64; 8] = [
    0x6a09e667f3bcc908, 0xbb67ae8584caa73b, 0x3c6ef372fe94f82b, 0xa54ff53a5f1d36f1,
    0x510e527fade682d1, 0x9b05688c2b3e6c1f, 0x1f83d9abfb41bd6b, 0x5be0cd19137e2179,
];

/// The SHA-512 digest of `msg`.
pub open spec fn sha512_spec(msg: Seq<u8>) -> Seq<u8> {
    be_bytes(sha2_words(H0@, msg), 8)
}

/// A SHA-512 digest: 64 bytes, compared by value.
#[derive(Clone)]
pub struct Digest {
    value: Vec<u8>,
}

impl Digest {
    pub fn from_slice(slice: &[u8]) -> (r: Result<Digest, UnknownCryptoError>)
        ensures
            r is Ok <==> slice@.len() == OUTSIZE,
            r is Ok ==> r->Ok_0@ == slice@,
    {
        if slice.len() != OUTSIZE {
            return Err(UnknownCryptoError);
        }
        Ok(Digest { value: slice_to_vec(slice) })
    }

    pub fn as_ref(&self) -> (r: &[u8])
        ensures
            r@ == self@,
    {
        self.value.as_slice()
    }

    pub fn len(&self) -> (r: usize)
        ensures
            r == self@.len(),
    {
        self.value.len()
    }

    pub fn is_empty(&self) -> (r: bool)
        ensures
            r == (self@.len() == 0),
    {
        self.value.len() == 0
    }
}

impl View for Digest {
    type V = Seq<u8>;

    closed spec fn view(&self) -> Seq<u8> {
        self.value@
    }
}

impl PartialEq for Digest {
    fn eq(&self, other: &Digest) -> (r: bool) {
        let n = self.value.len();
        if n != other.value.len() {
            return false;
        }
        let mut i: usize = 0;
        while i < n
            invariant
                i <= n,
                n == self.value@.len(),
                n == other.value@.len(),
                forall|k: int| 0 <= k < i ==> self.value@[k] == other.value@[k],
            decreases n - i,
        {
            if self.value[i] != other.value[i] {
                return false;
            }
            i += 1;
        }
        assert(self.value@ =~= other.value@);
        true
    }
}

impl vstd::std_specs::cmp::PartialEqSpecImpl for Digest {
    open spec fn obeys_eq_spec() -> bool {
        true
    }

    open spec fn eq_spec(&self, other: &Digest) -> bool {
        self@ == other@
    }
}

/// SHA-512 streaming state.
pub struct Sha512 {
    state: Sha2State,
}

impl Sha512 {
    pub closed spec fn wf(&self) -> bool {
        self.state.wf() && self.state.iv() == H0@
    }

    /// Every byte absorbed since the state was made or reset.
    pub closed spec fn absorbed(&self) -> Seq<u8> {
        self.state.absorbed()
    }

    pub closed spec fn finalized(&self) -> bool {
        self.state.finalized()
    }

    /// The message-length counter, in bits.
    pub closed spec fn bit_count(&self) -> int {
        self.state.bit_count()
    }

    /// Whether every field holds what `new()` puts there.
    pub closed spec fn is_fresh(&self) -> bool {
        self.state.is_fresh(H0)
    }

    /// Whether two states agree in every stored field.
    pub closed spec fn same_fields(&self, other: &Sha512) -> bool {
        self.state.same_fields(&other.state)
    }

    /// Initializes a `Sha512` state.
    pub fn new() -> (r: Sha512)
        ensures
            r.wf(),
            r.is_fresh(),
            r.absorbed() == Seq::<u8>::empty(),
            !r.finalized(),
            r.bit_count() == 0,
    {
        Sha512 { state: Sha2State::new(H0) }
    }

    /// Resets to the state that `new()` makes, reusing the storage.
    pub fn reset(&mut self)
        ensures
            final(self).wf(),
            final(self).is_fresh(),
            final(self).absorbed() == Seq::<u8>::empty(),
            !final(self).finalized(),
    {
        self.state.reset(H0);
    }

    /// Absorbs `data`. Fails, changing nothing, after `finalize` until `reset`.
    pub fn update(&mut self, data: &[u8]) -> (r: Result<(), UnknownCryptoError>)
        requires
            old(self).wf(),
            old(self).absorbed().len() + data@.len() <= max_message_bytes(),
        ensures
            final(self).wf(),
            old(self).finalized() ==> r is Err && *final(self) == *old(self),
            !old(self).finalized() ==> {
                &&& r is Ok
                &&& final(self).absorbed() == old(self).absorbed() + data@
                &&& !final(self).finalized()
            },
    {
        self.state.update(data)
    }

    /// Pads and finishes the hash. Fails, changing nothing, if already finalized.
    pub fn finalize(&mut self) -> (r: Result<Digest, UnknownCryptoError>)
        requires
            old(self).wf(),
        ensures
            final(self).wf(),
            final(self).finalized(),
            final(self).absorbed() == old(self).absorbed(),
            old(self).finalized() ==> r is Err && *final(self) == *old(self),
            !old(self).finalized() ==> r is Ok && r->Ok_0@ == sha512_spec(old(self).absorbed()),
    {
        match self.state.finalize_words() {
            Ok(words) => Ok(Digest { value: words_to_be(&words, OUTSIZE / 8) }),
            Err(e) => Err(e),
        }
    }

    /// The SHA-512 digest of `data` in one call.
    pub fn digest(data: &[u8]) -> (r: Result<Digest, UnknownCryptoError>)
        ensures
            r is Ok,
            r->Ok_0@ == sha512_spec(data@),
    {
        let n: usize = data.len();
        assert(n as int <= u64::MAX as int);
        let mut state = Sha512::new();
        let _ = state.update(data);
        proof {
            assert(Seq::<u8>::empty() + data@ =~= data@);
        }
        state.finalize()
    }

    /// Copies every field, so the copy goes on independently.
    pub fn duplicate(&self) -> (r: Sha512)
        ensures
            r == *self,
    {
        Sha512 { state: self.state.duplicate() }
    }
}

} // verus!

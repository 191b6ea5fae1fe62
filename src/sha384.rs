//! SHA-384: the 64-bit SHA-2 engine with its own initial value, emitting
//! the first 6 chaining words big-endian.
use crate::engine::{max_message_bytes, mlen_value, sha2_words, Sha2State};
use crate::errors::UnknownCryptoError;
use crate::sha2::{be_bytes, words_to_be};
use vstd::prelude::*;
use vstd::slice::slice_to_vec;

verus! {

/// The block size of SHA-384, in bytes.
pub const BLOCKSIZE: usize = 128;

/// The output size of SHA-384, in bytes.
pub const OUTSIZE: usize = 48;

/// The SHA-384 initial hash value H(0) of FIPS 180-4.
pub const H0: [u64; 8] = [
    0xcbbb9d5dc1059ed8, 0x629a292a367cd507, 0x9159015a3070dd17, 0x152fecd8f70e5939,
    0x67332667ffc00b31, 0x8eb44a8768581511, 0xdb0c2e0d64f98fa7, 0x47b5481dbefa4fa4,
];

/// The SHA-384 digest of `msg`.
pub open spec fn sha384_spec(msg: Seq<u8>) -> Seq<u8> {
    be_bytes(sha2_words(H0@, msg), 6)
}

/// A SHA-384 digest: 48 bytes, compared by value.
#[derive(Clone)]
pub struct Digest {
    value: Vec<u8>,
}

impl Digest {
    pub fn from_slice(slice: &[u8]) -> (r: Result<Digest, UnknownCryptoError>)
        ensures
            r is Ok <==> slice@.len() == OUTSIZE,
            r is Ok ==> r->Ok_0@ == slice@,
    {
        if slice.len() != OUTSIZE {
            return Err(UnknownCryptoError);
        }
        Ok(Digest { value: slice_to_vec(slice) })
    }

    pub fn as_ref(&self) -> (r: &[u8])
        ensures
            r@ == self@,
    {
        self.value.as_slice()
    }

    pub fn len(&self) -> (r: usize)
        ensures
            r == self@.len(),
    {
        self.value.len()
    }

    pub fn is_empty(&self) -> (r: bool)
        ensures
            r == (self@.len() == 0),
    {
        self.value.len() == 0
    }
}

impl View for Digest {
    type V = Seq<u8>;

    closed spec fn view(&self) -> Seq<u8> {
        self.value@
    }
}

impl PartialEq for Digest {
    fn eq(&self, other: &Digest) -> (r: bool) {
        let n = self.value.len();
        if n != other.value.len() {
            return false;
        }
        let mut i: usize = 0;
        while i < n
            invariant
                i <= n,
                n == self.value@.len(),
                n == other.value@.len(),
                forall|k: int| 0 <= k < i ==> self.value@[k] == other.value@[k],
            decreases n - i,
        {
            if self.value[i] != other.value[i] {
                return false;
            }
            i += 1;
        }
        assert(self.value@ =~= other.value@);
        true
    }
}

impl vstd::std_specs::cmp::PartialEqSpecImpl for Digest {
    open spec fn obeys_eq_spec() -> bool {
        true
    }

    open spec fn eq_spec(&self, other: &Digest) -> bool {
        self@ == other@
    }
}

/// Relies on std's `format!`: renders the non-secret fields of a state.
#[verifier::external_body]
fn format_state(leftover: usize, message_len: [u64; 2], is_finalized: bool) -> (r: String) {
    format!(
        "Sha384 {{ working_state: [***OMITTED***], buffer: [***OMITTED***], leftover: {:?}, message_len: {:?}, is_finalized: {:?} }}",
        leftover, message_len, is_finalized
    )
}

/// SHA-384 streaming state.
pub struct Sha384 {
    state: Sha2State,
}

impl Sha384 {
    pub closed spec fn wf(&self) -> bool {
        self.state.wf() && self.state.iv() == H0@
    }

    /// Every byte absorbed since the state was made or reset.
    pub closed spec fn absorbed(&self) -> Seq<u8> {
        self.state.absorbed()
    }

    pub closed spec fn finalized(&self) -> bool {
        self.state.finalized()
    }

    /// The message-length counter, in bits.
    pub closed spec fn bit_count(&self) -> int {
        self.state.bit_count()
    }

    /// Whether every field holds what `new()` puts there.
    pub closed spec fn is_fresh(&self) -> bool {
        self.state.is_fresh(H0)
    }

    /// Whether two states agree in every stored field.
    pub closed spec fn same_fields(&self, other: &Sha384) -> bool {
        self.state.same_fields(&other.state)
    }

    /// Initializes a `Sha384` state.
    pub fn new() -> (r: Sha384)
        ensures
            r.wf(),
            r.is_fresh(),
            r.absorbed() == Seq::<u8>::empty(),
            !r.finalized(),
            r.bit_count() == 0,
    {
        Sha384 { state: Sha2State::new(H0) }
    }

    /// Resets to the state that `new()` makes, reusing the storage.
    pub fn reset(&mut self)
        ensures
            final(self).wf(),
            final(self).is_fresh(),
            final(self).absorbed() == Seq::<u8>::empty(),
            !final(self).finalized(),
    {
        self.state.reset(H0);
    }

    /// Absorbs `data`. Fails, changing nothing, after `finalize` until `reset`.
    pub fn update(&mut self, data: &[u8]) -> (r: Result<(), UnknownCryptoError>)
        requires
            old(self).wf(),
            old(self).absorbed().len() + data@.len() <= max_message_bytes(),
        ensures
            final(self).wf(),
            old(self).finalized() ==> r is Err && *final(self) == *old(self),
            !old(self).finalized() ==> {
                &&& r is Ok
                &&& final(self).absorbed() == old(self).absorbed() + data@
                &&& !final(self).finalized()
            },
    {
        self.state.update(data)
    }

    /// Pads and finishes the hash. Fails, changing nothing, if already finalized.
    pub fn finalize(&mut self) -> (r: Result<Digest, UnknownCryptoError>)
        requires
            old(self).wf(),
        ensures
            final(self).wf(),
            final(self).finalized(),
            final(self).absorbed() == old(self).absorbed(),
            old(self).finalized() ==> r is Err && *final(self) == *old(self),
            !old(self).finalized() ==> r is Ok && r->Ok_0@ == sha384_spec(old(self).absorbed()),
    {
        match self.state.finalize_words() {
            Ok(words) => Ok(Digest { value: words_to_be(&words, OUTSIZE / 8) }),
            Err(e) => Err(e),
        }
    }

    /// The SHA-384 digest of `data` in one call.
    pub fn digest(data: &[u8]) -> (r: Result<Digest, UnknownCryptoError>)
        ensures
            r is Ok,
            r->Ok_0@ == sha384_spec(data@),
    {
        let n: usize = data.len();
        assert(n as int <= u64::MAX as int);
        let mut state = Sha384::new();
        let _ = state.update(data);
        proof {
            assert(Seq::<u8>::empty() + data@ =~= data@);
        }
        state.finalize()
    }

    /// Copies every field, so the copy goes on independently.
    pub fn duplicate(&self) -> (r: Sha384)
        ensures
            r == *self,
    {
        Sha384 { state: self.state.duplicate() }
    }

    /// Adds `length` bytes, counted in bits, to the message-length counter.
    /// The counter holds at most 2^128 - 1 bits.
    pub fn increment_mlen(&mut self, length: u64)
        requires
            length <= u64::MAX / 8,
            old(self).bit_count() + 8 * length <= u128::MAX,
        ensures
            final(self).bit_count() == old(self).bit_count() + 8 * length,
            final(self).absorbed() == old(self).absorbed(),
            final(self).finalized() == old(self).finalized(),
    {
        self.state.increment_mlen(length);
    }

    /// The message-length counter as a big-endian pair of words.
    pub fn message_len(&self) -> (r: [u64; 2])
        ensures
            mlen_value(r) == self.bit_count(),
    {
        self.state.message_len()
    }

    /// How many absorbed bytes wait in the buffer for a whole block.
    pub fn leftover(&self) -> (r: usize)
        requires
            self.wf(),
        ensures
            !self.finalized() ==> r == self.absorbed().len() % 128,
    {
        self.state.leftover()
    }

    pub fn is_finalized(&self) -> (r: bool)
        ensures
            r == self.finalized(),
    {
        self.state.is_finalized()
    }

    /// The state's public fields in `Debug` form, with the secret ones omitted.
    pub fn debug_string(&self) -> (r: String)
        requires
            self.wf(),
    {
        let mlen = self.state.message_len();
        format_state(self.state.leftover(), mlen, self.state.is_finalized())
    }
}

/// The message that `new` followed by one `update` per chunk has absorbed.
pub open spec fn absorb_chunks(chunks: Seq<Seq<u8>>) -> Seq<u8> {
    chunks.fold_left(Seq::<u8>::empty(), |acc: Seq<u8>, c: Seq<u8>| acc + c)
}

proof fn lemma_absorb_chunks(chunks: Seq<Seq<u8>>)
    ensures
        absorb_chunks(chunks) == chunks.flatten_alt(),
    decreases chunks.len(),
{
    if chunks.len() > 0 {
        lemma_absorb_chunks(chunks.drop_last());
    }
}

/// Streaming and one-shot hashing agree: finalizing after one `update` per
/// chunk gives the digest that `digest` gives on the chunks' concatenation,
/// for every way of cutting a message into chunks.
pub proof fn lemma_streaming_equals_one_shot(chunks: Seq<Seq<u8>>)
    ensures
        sha384_spec(absorb_chunks(chunks)) == sha384_spec(chunks.flatten()),
{
    lemma_absorb_chunks(chunks);
    chunks.lemma_flatten_and_flatten_alt_are_equivalent();
}

/// A reset state equals a new one field for field: any two states in the
/// state that `new` and `reset` leave are byte-for-byte the same.
pub proof fn lemma_reset_equals_new(reset: &Sha384, fresh: &Sha384)
    requires
        reset.is_fresh(),
        fresh.is_fresh(),
    ensures
        reset.same_fields(fresh),
{
    Sha2State::lemma_fresh_unique(&reset.state, &fresh.state, H0);
}

/// The message-length counter holds eight times the number of bytes absorbed.
pub proof fn lemma_counter_tracks_absorbed(state: &Sha384)
    requires
        state.wf(),
    ensures
        state.bit_count() == 8 * state.absorbed().len(),
{
    state.state.lemma_bit_count();
}

impl Default for Sha384 {
    fn default() -> (r: Sha384)
        ensures
            r.wf(),
            r.is_fresh(),
    {
        Sha384::new()
    }
}

/// Whether two states agree in every stored field: chaining words, buffer,
/// leftover count, counter and finalization flag.
pub fn compare_sha384_states(state_1: &Sha384, state_2: &Sha384) -> (r: bool)
    ensures
        r == state_1.same_fields(state_2),
{
    state_1.state.same_as(&state_2.state)
}

} // verus!

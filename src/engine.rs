//! The streaming Merkle–Damgård engine shared by SHA-384 and SHA-512: a
//! partial-block buffer, a 128-bit bit counter and the padding rule.
use crate::errors::UnknownCryptoError;
use crate::util::{zeroize_bytes, zeroize_words};
use crate::sha2::{be_bytes, be_byte, chain, compress, lemma_chain_block, BLOCKSIZE};
use vstd::arithmetic::div_mod::{lemma_fundamental_div_mod, lemma_fundamental_div_mod_converse};
use vstd::prelude::*;

verus! {

/// 2^64.
pub open spec fn word_modulus() -> int {
    0x1_0000_0000_0000_0000
}

/// The 128-bit value of a big-endian pair of words.
pub open spec fn mlen_value(m: [u64; 2]) -> int {
    m[0] as int * word_modulus() + m[1] as int
}

/// The most bytes that one session can absorb: their count in bits must fit in 128 bits.
pub open spec fn max_message_bytes() -> int {
    u128::MAX as int / 8
}

/// The message length in bits of a `len`-byte message, as two big-endian words.
pub open spec fn length_words(len: nat) -> Seq<u64> {
    seq![((8 * len) as int / word_modulus()) as u64, ((8 * len) as int % word_modulus()) as u64]
}

/// How many zero bytes follow the 0x80 marker so that the padded message,
/// with its 16-byte length field, fills whole blocks.
pub open spec fn pad_zeros(len: nat) -> nat {
    ((239 - (len % 128) as int) % 128) as nat
}

pub open spec fn zeros(n: nat) -> Seq<u8> {
    Seq::new(n, |i: int| 0u8)
}

/// The SHA-2 padded form of `msg`: the message, the byte 0x80, zero bytes and the
/// message length in bits as a 128-bit big-endian number.
pub open spec fn padded(msg: Seq<u8>) -> Seq<u8> {
    msg + seq![0x80u8] + zeros(pad_zeros(msg.len())) + be_bytes(length_words(msg.len()), 2)
}

/// The final chaining state of a SHA-2 computation over `msg` from `iv`.
pub open spec fn sha2_words(iv: Seq<u64>, msg: Seq<u8>) -> Seq<u64> {
    chain(iv, padded(msg))
}

/// Streaming state of a 64-bit SHA-2 hash.
pub struct Sha2State {
    working_state: [u64; 8],
    buffer: [u8; 128],
    leftover: usize,
    message_len: [u64; 2],
    is_finalized: bool,
    iv: Ghost<Seq<u64>>,
    absorbed: Ghost<Seq<u8>>,
}

/// Stores `w` big-endian at `buf[off..off + 8]`.
fn store_u64_be(buf: &mut [u8; 128], off: usize, w: u64)
    requires
        off + 8 <= 128,
    ensures
        forall|j: int|
            0 <= j < 128 ==> final(buf)[j] == if off <= j < off + 8 {
                be_byte(w, j - off)
            } else {
                old(buf)[j]
            },
{
    buf[off] = (w >> 56u64) as u8;
    buf[off + 1] = (w >> 48u64) as u8;
    buf[off + 2] = (w >> 40u64) as u8;
    buf[off + 3] = (w >> 32u64) as u8;
    buf[off + 4] = (w >> 24u64) as u8;
    buf[off + 5] = (w >> 16u64) as u8;
    buf[off + 6] = (w >> 8u64) as u8;
    buf[off + 7] = w as u8;
    assert(be_byte(w, 0) == (w >> 56u64) as u8);
    assert(be_byte(w, 1) == (w >> 48u64) as u8);
    assert(be_byte(w, 2) == (w >> 40u64) as u8);
    assert(be_byte(w, 3) == (w >> 32u64) as u8);
    assert(be_byte(w, 4) == (w >> 24u64) as u8);
    assert(be_byte(w, 5) == (w >> 16u64) as u8);
    assert(be_byte(w, 6) == (w >> 8u64) as u8);
    assert(be_byte(w, 7) == (w >> 0u64) as u8);
    assert((w >> 0u64) == w) by (bit_vector);
}

proof fn lemma_length_field(buf: Seq<u8>, hi: u64, lo: u64)
    requires
        buf.len() == 128,
        forall|j: int| 112 <= j < 120 ==> buf[j] == be_byte(hi, j - 112),
        forall|j: int| 120 <= j < 128 ==> buf[j] == be_byte(lo, j - 120),
    ensures
        buf.skip(112) == be_bytes(seq![hi, lo], 2),
{
    assert forall|j: int| 0 <= j < 16 implies buf.skip(112)[j] == be_bytes(seq![hi, lo], 2)[j] by {
        if j < 8 {
            assert(j / 8 == 0 && j % 8 == j);
        } else {
            assert(j / 8 == 1 && j % 8 == j - 8);
        }
    }
    assert(buf.skip(112) =~= be_bytes(seq![hi, lo], 2));
}

proof fn lemma_tail_len(n: int, r: int)
    requires
        0 <= r < 128,
        r <= n,
        (n - r) % 128 == 0,
    ensures
        n % 128 == r,
{
    lemma_fundamental_div_mod(n - r, 128);
    lemma_fundamental_div_mod_converse(n, 128, (n - r) / 128, r);
}

/// With `r < 112` bytes after the last whole block, padding fits in one block.
proof fn lemma_pad_one_block(msg: Seq<u8>, r: int, last: Seq<u8>)
    requires
        0 <= r < 112,
        r <= msg.len(),
        (msg.len() - r) % 128 == 0,
        last == msg.skip(msg.len() - r) + seq![0x80u8] + zeros((111 - r) as nat) + be_bytes(
            length_words(msg.len()),
            2,
        ),
    ensures
        padded(msg) == msg.take(msg.len() - r) + last,
{
    lemma_tail_len(msg.len() as int, r);
    assert(pad_zeros(msg.len()) == 111 - r);
    let p = msg.take(msg.len() - r);
    let tail = msg.skip(msg.len() - r);
    let l = be_bytes(length_words(msg.len()), 2);
    let z = zeros((111 - r) as nat);
    assert(msg =~= p + tail);
    assert(msg + seq![0x80u8] =~= p + (tail + seq![0x80u8]));
    assert(msg + seq![0x80u8] + z =~= p + (tail + seq![0x80u8] + z));
    assert(msg + seq![0x80u8] + z + l =~= p + (tail + seq![0x80u8] + z + l));
}

/// With `r >= 112` bytes after the last whole block, padding spills into a second block.
proof fn lemma_pad_two_blocks(msg: Seq<u8>, r: int, first: Seq<u8>, last: Seq<u8>)
    requires
        112 <= r < 128,
        r <= msg.len(),
        (msg.len() - r) % 128 == 0,
        first == msg.skip(msg.len() - r) + seq![0x80u8] + zeros((127 - r) as nat),
        last == zeros(112) + be_bytes(length_words(msg.len()), 2),
    ensures
        padded(msg) == msg.take(msg.len() - r) + first + last,
{
    lemma_tail_len(msg.len() as int, r);
    assert(pad_zeros(msg.len()) == 239 - r);
    let p = msg.take(msg.len() - r);
    let tail = msg.skip(msg.len() - r);
    let l = be_bytes(length_words(msg.len()), 2);
    let z = zeros((239 - r) as nat);
    assert(msg =~= p + tail);
    assert(z =~= zeros((127 - r) as nat) + zeros(112));
    assert(msg + seq![0x80u8] =~= p + (tail + seq![0x80u8]));
    assert(msg + seq![0x80u8] + z =~= p + first + zeros(112));
    assert(msg + seq![0x80u8] + z + l =~= p + first + last);
}

impl Drop for Sha2State {
    /// Secret material is overwritten with zeros when the state goes away.
    fn drop(&mut self)
        opens_invariants none
        no_unwind
    {
        zeroize_words(&mut self.working_state);
        zeroize_bytes(&mut self.buffer);
        zeroize_words(&mut self.message_len);
    }
}

impl Sha2State {
    /// Every byte absorbed since the state was made or reset.
    pub closed spec fn absorbed(&self) -> Seq<u8> {
        self.absorbed@
    }

    /// The initial chaining value that this state started from.
    pub closed spec fn iv(&self) -> Seq<u64> {
        self.iv@
    }

    pub closed spec fn finalized(&self) -> bool {
        self.is_finalized
    }

    /// The message-length counter, in bits.
    pub closed spec fn bit_count(&self) -> int {
        mlen_value(self.message_len)
    }

    pub closed spec fn wf(&self) -> bool {
        let n = self.absorbed@.len();
        let r = self.leftover as int;
        &&& self.iv@.len() == 8
        &&& r <= 128
        &&& mlen_value(self.message_len) == 8 * n
        &&& !self.is_finalized ==> {
            &&& r < 128
            &&& r <= n
            &&& (n - r) % 128 == 0
            &&& self.working_state@ == chain(self.iv@, self.absorbed@.take(n - r))
            &&& self.buffer@.take(r) == self.absorbed@.skip(n - r)
        }
    }

    /// Whether this is the state that `new(iv)` makes: chaining value `iv`, a zeroed
    /// buffer, nothing absorbed, a zero counter, not finalized.
    pub closed spec fn is_fresh(&self, iv: [u64; 8]) -> bool {
        &&& self.working_state == iv
        &&& self.buffer@ == Seq::new(128, |i: int| 0u8)
        &&& self.leftover == 0
        &&& self.message_len@ == seq![0u64, 0u64]
        &&& !self.is_finalized
        &&& self.iv@ == iv@
        &&& self.absorbed@ == Seq::<u8>::empty()
    }

    /// Whether two states agree in every field but the message-length counter.
    pub closed spec fn same_but_counter(&self, other: &Sha2State) -> bool {
        &&& self.working_state == other.working_state
        &&& self.buffer == other.buffer
        &&& self.leftover == other.leftover
        &&& self.is_finalized == other.is_finalized
        &&& self.iv == other.iv
        &&& self.absorbed == other.absorbed
    }

    /// Whether two states agree in every stored field.
    pub closed spec fn same_fields(&self, other: &Sha2State) -> bool {
        &&& self.working_state == other.working_state
        &&& self.buffer == other.buffer
        &&& self.leftover == other.leftover
        &&& self.message_len == other.message_len
        &&& self.is_finalized == other.is_finalized
    }

    pub fn new(iv: [u64; 8]) -> (r: Sha2State)
        ensures
            r.is_fresh(iv),
            r.wf(),
            r.absorbed() == Seq::<u8>::empty(),
            r.iv() == iv@,
            !r.finalized(),
            r.bit_count() == 0,
    {
        let r = Sha2State {
            working_state: iv,
            buffer: [0u8; 128],
            leftover: 0,
            message_len: [0u64; 2],
            is_finalized: false,
            iv: Ghost(iv@),
            absorbed: Ghost(Seq::empty()),
        };
        assert(r.absorbed@.take(0) =~= Seq::<u8>::empty());
        assert(r.buffer@ =~= Seq::new(128, |i: int| 0u8));
        assert(r.message_len@ =~= seq![0u64, 0u64]);
        assert(r.buffer@.take(0) =~= r.absorbed@.skip(0));
        r
    }

    pub fn reset(&mut self, iv: [u64; 8])
        ensures
            final(self).is_fresh(iv),
            final(self).wf(),
            final(self).absorbed() == Seq::<u8>::empty(),
            final(self).iv() == iv@,
            !final(self).finalized(),
            final(self).bit_count() == 0,
    {
        self.working_state = iv;
        self.buffer = [0u8; 128];
        self.leftover = 0;
        self.message_len = [0u64; 2];
        self.is_finalized = false;
        self.iv = Ghost(iv@);
        self.absorbed = Ghost(Seq::empty());
        assert(self.buffer@ =~= Seq::new(128, |i: int| 0u8));
        assert(self.message_len@ =~= seq![0u64, 0u64]);
        assert(self.absorbed@.take(0) =~= Seq::<u8>::empty());
        assert(self.buffer@.take(0) =~= self.absorbed@.skip(0));
    }

    /// The counter always holds eight times the number of absorbed bytes.
    pub proof fn lemma_bit_count(&self)
        requires
            self.wf(),
        ensures
            self.bit_count() == 8 * self.absorbed().len(),
    {
    }

    /// Two fresh states made from the same chaining value agree in every field.
    pub proof fn lemma_fresh_unique(a: &Sha2State, b: &Sha2State, iv: [u64; 8])
        requires
            a.is_fresh(iv),
            b.is_fresh(iv),
        ensures
            a.same_fields(b),
            a == b,
    {
        assert(a.buffer =~= b.buffer);
        assert(a.message_len =~= b.message_len);
    }

    /// How many absorbed bytes wait in the buffer for a whole block.
    pub fn leftover(&self) -> (r: usize)
        requires
            self.wf(),
        ensures
            !self.finalized() ==> r == self.absorbed().len() % 128,
    {
        proof {
            if !self.is_finalized {
                lemma_tail_len(self.absorbed@.len() as int, self.leftover as int);
            }
        }
        self.leftover
    }

    pub fn message_len(&self) -> (r: [u64; 2])
        ensures
            mlen_value(r) == self.bit_count(),
    {
        self.message_len
    }

    pub fn is_finalized(&self) -> (r: bool)
        ensures
            r == self.finalized(),
    {
        self.is_finalized
    }

    /// Copies every field, so the copy goes on independently.
    pub fn duplicate(&self) -> (r: Sha2State)
        ensures
            r == *self,
    {
        Sha2State {
            working_state: self.working_state,
            buffer: self.buffer,
            leftover: self.leftover,
            message_len: self.message_len,
            is_finalized: self.is_finalized,
            iv: Ghost(self.iv@),
            absorbed: Ghost(self.absorbed@),
        }
    }

    pub fn same_as(&self, other: &Sha2State) -> (r: bool)
        ensures
            r == self.same_fields(other),
    {
        if self.leftover != other.leftover || self.is_finalized != other.is_finalized
            || self.message_len[0] != other.message_len[0] || self.message_len[1]
            != other.message_len[1] {
            return false;
        }
        let mut i: usize = 0;
        while i < 8
            invariant
                i <= 8,
                forall|k: int| 0 <= k < i ==> self.working_state[k] == other.working_state[k],
            decreases 8 - i,
        {
            if self.working_state[i] != other.working_state[i] {
                return false;
            }
            i += 1;
        }
        let mut j: usize = 0;
        while j < BLOCKSIZE
            invariant
                j <= 128,
                forall|k: int| 0 <= k < j ==> self.buffer[k] == other.buffer[k],
            decreases 128 - j,
        {
            if self.buffer[j] != other.buffer[j] {
                return false;
            }
            j += 1;
        }
        assert(self.buffer =~= other.buffer);
        assert(self.working_state =~= other.working_state);
        assert(self.message_len =~= other.message_len);
        true
    }

    /// Adds `length` bytes, counted in bits, to the message-length counter.
    pub fn increment_mlen(&mut self, length: u64)
        requires
            length <= u64::MAX / 8,
            old(self).bit_count() + 8 * length <= u128::MAX,
        ensures
            final(self).bit_count() == old(self).bit_count() + 8 * length,
            final(self).same_but_counter(old(self)),
            final(self).absorbed() == old(self).absorbed(),
            final(self).finalized() == old(self).finalized(),
            final(self).iv() == old(self).iv(),
    {
        let len: u64 = length * 8;
        let lo = self.message_len[1];
        let res = lo.wrapping_add(len);
        self.message_len[1] = res;
        if res < lo {
            self.message_len[0] = self.message_len[0] + 1;
        }
    }

    /// Appends one byte to the buffer, compressing it once it holds a whole block.
    #[verifier::rlimit(30)]
    fn absorb_byte(&mut self, byte: u8)
        requires
            old(self).wf(),
            !old(self).is_finalized,
            old(self).absorbed@.len() + 1 <= max_message_bytes(),
        ensures
            final(self).wf(),
            !final(self).is_finalized,
            final(self).iv@ == old(self).iv@,
            final(self).absorbed@ == old(self).absorbed@.push(byte),
    {
        let ghost before = self.absorbed@;
        let ghost buf0 = self.buffer@;
        let r = self.leftover;
        self.buffer[r] = byte;
        self.leftover = r + 1;
        self.increment_mlen(1);
        self.absorbed = Ghost(before.push(byte));
        proof {
            let n = self.absorbed@.len();
            let m = before.len();
            assert(self.absorbed@.take(n - (r + 1)) =~= before.take(m - r));
            assert forall|k: int| 0 <= k < r implies buf0[k] == before[m - r + k] by {
                assert(buf0.take(r as int)[k] == before.skip(m - r)[k]);
            }
            assert(self.buffer@.take(r + 1) =~= self.absorbed@.skip(n - (r + 1)));
        }
        if self.leftover == BLOCKSIZE {
            proof {
                let a = self.absorbed@;
                let n = a.len();
                assert(self.buffer@.take(128) =~= self.buffer@);
                assert(a =~= a.take(n - 128) + self.buffer@);
                lemma_chain_block(self.iv@, a.take(n - 128), self.buffer@);
                assert(a.take(n as int) =~= a);
            }
            compress(&mut self.working_state, &self.buffer);
            self.leftover = 0;
            proof {
                let a = self.absorbed@;
                assert(self.buffer@.take(0) =~= a.skip(a.len() as int));
            }
        }
    }

    /// Absorbs `data`. Fails, changing nothing, once the state is finalized.
    pub fn update(&mut self, data: &[u8]) -> (r: Result<(), UnknownCryptoError>)
        requires
            old(self).wf(),
            old(self).absorbed().len() + data@.len() <= max_message_bytes(),
        ensures
            final(self).wf(),
            old(self).finalized() ==> r is Err && *final(self) == *old(self),
            !old(self).finalized() ==> {
                &&& r is Ok
                &&& final(self).absorbed() == old(self).absorbed() + data@
                &&& !final(self).finalized()
                &&& final(self).iv() == old(self).iv()
            },
    {
        if self.is_finalized {
            return Err(UnknownCryptoError);
        }
        let ghost start = self.absorbed@;
        let mut i: usize = 0;
        while i < data.len()
            invariant
                self.wf(),
                !self.is_finalized,
                i <= data@.len(),
                self.iv@ == old(self).iv@,
                self.absorbed@ == start + data@.take(i as int),
                start.len() + data@.len() <= max_message_bytes(),
            decreases data@.len() - i,
        {
            self.absorb_byte(data[i]);
            proof {
                assert(data@.take(i + 1) =~= data@.take(i as int).push(data@[i as int]));
            }
            i += 1;
        }
        assert(data@.take(data@.len() as int) =~= data@);
        Ok(())
    }

    /// Pads the absorbed message, compresses the last block(s) and returns the
    /// final chaining state. Fails, changing nothing, if already finalized.
    #[verifier::rlimit(50)]
    pub fn finalize_words(&mut self) -> (r: Result<[u64; 8], UnknownCryptoError>)
        requires
            old(self).wf(),
        ensures
            final(self).wf(),
            final(self).finalized(),
            final(self).absorbed() == old(self).absorbed(),
            final(self).iv() == old(self).iv(),
            old(self).finalized() ==> r is Err && *final(self) == *old(self),
            !old(self).finalized() ==> r is Ok && r->Ok_0@ == sha2_words(
                old(self).iv(),
                old(self).absorbed(),
            ),
    {
        if self.is_finalized {
            return Err(UnknownCryptoError);
        }
        let ghost msg = self.absorbed@;
        let ghost n = msg.len();
        let ghost iv = self.iv@;
        let r = self.leftover;
        let ghost p = msg.take(n - r);
        let ghost tail = msg.skip(n - r);
        let ghost len_bytes = be_bytes(length_words(n), 2);
        proof {
            lemma_fundamental_div_mod_converse(
                8 * n as int,
                word_modulus(),
                self.message_len[0] as int,
                self.message_len[1] as int,
            );
            assert(msg =~= p + tail);
        }
        let mut buf = self.buffer;
        let mut ws = self.working_state;
        buf[r] = 0x80;
        let mut i: usize = r + 1;
        while i < BLOCKSIZE
            invariant
                r < 128,
                r + 1 <= i <= 128,
                tail.len() == r,
                forall|j: int| 0 <= j < r ==> buf[j] == tail[j],
                buf[r as int] == 0x80,
                forall|j: int| r < j < i ==> buf[j] == 0,
            decreases 128 - i,
        {
            buf[i] = 0;
            i += 1;
        }
        if r + 1 > BLOCKSIZE - 16 {
            proof {
                assert(buf@ =~= tail + seq![0x80u8] + zeros((127 - r) as nat));
                lemma_chain_block(iv, p, buf@);
            }
            compress(&mut ws, &buf);
            buf = [0u8; 128];
        }
        let ghost body = buf@.take(112);
        let hi = self.message_len[0];
        let lo = self.message_len[1];
        store_u64_be(&mut buf, 112, hi);
        store_u64_be(&mut buf, 120, lo);
        proof {
            lemma_length_field(buf@, hi, lo);
            assert(length_words(n) =~= seq![hi, lo]);
            assert(buf@.take(112) =~= body);
            assert(buf@ =~= body + len_bytes);
        }
        let ghost last = buf@;
        compress(&mut ws, &buf);
        proof {
            if r + 1 > 112 {
                let b1 = tail + seq![0x80u8] + zeros((127 - r) as nat);
                assert(body =~= zeros(112));
                lemma_pad_two_blocks(msg, r as int, b1, last);
                lemma_chain_block(iv, p + b1, last);
            } else {
                assert(body =~= tail + seq![0x80u8] + zeros((111 - r) as nat));
                lemma_pad_one_block(msg, r as int, last);
                lemma_chain_block(iv, p, last);
            }
        }
        self.buffer = buf;
        self.working_state = ws;
        self.leftover = r + 1;
        self.is_finalized = true;
        Ok(ws)
    }
}

} // verus!

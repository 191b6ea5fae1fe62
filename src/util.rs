//! Constant-time comparison, secure random bytes and zeroization of secrets.
use crate::errors::UnknownCryptoError;
use rand::RngCore;
use subtle::ConstantTimeEq;
use vstd::prelude::*;
use zeroize::Zeroize;

verus! {

/// Relies on subtle's `ConstantTimeEq` for `[u8]` and its `From<Choice> for bool`:
/// the choice is 1 exactly when both slices have the same length and bytes, and
/// for equal lengths the time taken does not depend on the contents.
#[verifier::external_body]
fn ct_eq_bytes(a: &[u8], b: &[u8]) -> (r: bool)
    ensures
        r == (a@ == b@),
{
    bool::from(a.ct_eq(b))
}

/// Relies on rand's `OsRng::try_fill_bytes` (the operating system's generator):
/// `true` when the fill succeeded. The bytes written are unpredictable; only the
/// length is kept.
#[verifier::external_body]
fn os_fill_bytes(dst: &mut [u8]) -> (r: bool)
    ensures
        final(dst)@.len() == old(dst)@.len(),
{
    rand::rngs::OsRng.try_fill_bytes(dst).is_ok()
}

/// Relies on zeroize's `Zeroize` for `[u8]`: every byte is overwritten with zero.
#[verifier::external_body]
pub(crate) fn zeroize_bytes(x: &mut [u8])
    ensures
        final(x)@ == Seq::new(old(x)@.len(), |i: int| 0u8),
    opens_invariants none
    no_unwind
{
    x.zeroize();
}

/// Relies on zeroize's `Zeroize` for `[u64]`: every word is overwritten with zero.
#[verifier::external_body]
pub(crate) fn zeroize_words(x: &mut [u64])
    ensures
        final(x)@ == Seq::new(old(x)@.len(), |i: int| 0u64),
    opens_invariants none
    no_unwind
{
    x.zeroize();
}

/// Relies on zeroize's `Zeroize` for `Vec<u8>`: the elements and spare capacity
/// are overwritten with zero and the vector is left empty.
#[verifier::external_body]
pub(crate) fn zeroize_vec(x: &mut Vec<u8>)
    ensures
        final(x)@.len() == 0,
    opens_invariants none
    no_unwind
{
    x.zeroize();
}

/// Fills `dst` with bytes from the operating system's secure generator.
/// An empty `dst` is an error, and so is a failure of the generator.
pub fn gen_rand_key(dst: &mut [u8]) -> (r: Result<(), UnknownCryptoError>)
    ensures
        final(dst)@.len() == old(dst)@.len(),
        old(dst)@.len() == 0 ==> r is Err,
{
    if dst.len() == 0 {
        return Err(UnknownCryptoError);
    }
    if os_fill_bytes(dst) {
        Ok(())
    } else {
        Err(UnknownCryptoError)
    }
}

/// Compares two slices in constant time. `Ok(true)` when they are equal; an
/// error when their lengths differ or any byte differs.
pub fn compare_ct(a: &[u8], b: &[u8]) -> (r: Result<bool, UnknownCryptoError>)
    ensures
        r == Ok::<bool, UnknownCryptoError>(true) <==> a@ == b@,
        r is Err <==> a@ != b@,
{
    if a.len() != b.len() {
        return Err(UnknownCryptoError);
    }
    if ct_eq_bytes(a, b) {
        Ok(true)
    } else {
        Err(UnknownCryptoError)
    }
}

} // verus!

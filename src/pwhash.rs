//! Password hashing with PBKDF2-HMAC-SHA-512. A password hash is 128 bytes:
//! a random 64-byte salt followed by the 64-byte derived key.
use crate::errors::{UnknownCryptoError, ValidationCryptoError};
use crate::pbkdf2::{derive_key, lemma_pbkdf2_len, pbkdf2_spec, verify, Password};
use crate::util::gen_rand_key;
use vstd::prelude::*;

verus! {

/// The PBKDF2 iteration count of every password hash.
pub const ITERATIONS: usize = 512_000;

/// Length of the salt, the first half of a password hash.
pub const SALT_LEN: usize = 64;

/// Length of a whole password hash.
pub const HASH_LEN: usize = 128;

/// The password hash of `pw` under `salt`: the salt, then the derived key.
pub open spec fn password_hash_of(pw: Seq<u8>, salt: Seq<u8>) -> Seq<u8> {
    salt + pbkdf2_spec(pw, salt, ITERATIONS as nat, 64)
}

/// What verifying `pw` against the stored hash `env` yields.
pub open spec fn password_check(env: Seq<u8>, pw: Seq<u8>) -> Result<bool, ValidationCryptoError> {
    if env.len() != 128 {
        Err(ValidationCryptoError)
    } else {
        Ok(env.skip(64) == pbkdf2_spec(pw, env.take(64), ITERATIONS as nat, 64))
    }
}

/// Hashes `password` under the given salt.
pub fn hash_password_with_salt(password: &Password, salt: &[u8; 64]) -> (r: [u8; 128])
    ensures
        r@ == password_hash_of(password@, salt@),
{
    let mut key = [0u8; 64];
    let _ = derive_key(password, salt.as_slice(), ITERATIONS, &mut key);
    proof {
        lemma_pbkdf2_len(password@, salt@, ITERATIONS as nat, 64);
    }
    let mut out = [0u8; 128];
    let mut i: usize = 0;
    while i < HASH_LEN
        invariant
            i <= 128,
            key@ == pbkdf2_spec(password@, salt@, ITERATIONS as nat, 64),
            forall|j: int| 0 <= j < i ==> out@[j] == password_hash_of(password@, salt@)[j],
        decreases 128 - i,
    {
        if i < SALT_LEN {
            out[i] = salt[i];
        } else {
            out[i] = key[i - SALT_LEN];
        }
        i += 1;
    }
    assert(out@ =~= password_hash_of(password@, salt@));
    out
}

/// Hashes `password` under a fresh salt from the operating system's generator.
/// Fails only when the generator does.
pub fn hash_password(password: &Password) -> (r: Result<[u8; 128], UnknownCryptoError>)
    ensures
        r is Ok ==> r->Ok_0@ == password_hash_of(password@, r->Ok_0@.take(64)),
        r is Ok ==> password_check(r->Ok_0@, password@) == Ok::<bool, ValidationCryptoError>(
            true,
        ),
{
    let mut salt = [0u8; 64];
    match gen_rand_key(&mut salt) {
        Ok(()) => {},
        Err(e) => {
            return Err(e);
        },
    }
    let out = hash_password_with_salt(password, &salt);
    proof {
        lemma_hash_then_verify(password@, salt@);
        assert(out@.take(64) =~= salt@);
    }
    Ok(out)
}

/// Checks `password` against a stored hash. A hash that is not 128 bytes long is
/// refused; otherwise `Ok(true)` exactly when the key derived from the stored
/// salt matches the stored key.
pub fn verify_password_hash(expected_hash: &[u8], password: &Password) -> (r: Result<
    bool,
    ValidationCryptoError,
>)
    ensures
        r == password_check(expected_hash@, password@),
{
    if expected_hash.len() != HASH_LEN {
        return Err(ValidationCryptoError);
    }
    let mut dk = [0u8; 64];
    let stored_key = &expected_hash[64..128];
    let salt = &expected_hash[0..64];
    assert(stored_key@ =~= expected_hash@.skip(64));
    assert(salt@ =~= expected_hash@.take(64));
    verify(stored_key, password, salt, ITERATIONS, &mut dk)
}

/// A password hash made under any 64-byte salt verifies against its password.
pub proof fn lemma_hash_then_verify(pw: Seq<u8>, salt: Seq<u8>)
    requires
        salt.len() == 64,
    ensures
        password_hash_of(pw, salt).len() == 128,
        password_check(password_hash_of(pw, salt), pw) == Ok::<bool, ValidationCryptoError>(true),
{
    lemma_pbkdf2_len(pw, salt, ITERATIONS as nat, 64);
    let env = password_hash_of(pw, salt);
    assert(env.take(64) =~= salt);
    assert(env.skip(64) =~= pbkdf2_spec(pw, salt, ITERATIONS as nat, 64));
}

/// A 128-byte hash that keeps the salt of a genuine hash but differs from it
/// anywhere in the derived-key half (a single flipped bit, say) does not verify.
pub proof fn lemma_altered_key_rejected(pw: Seq<u8>, salt: Seq<u8>, env: Seq<u8>)
    requires
        salt.len() == 64,
        env.len() == 128,
        env.take(64) == salt,
        env != password_hash_of(pw, salt),
    ensures
        password_check(env, pw) == Ok::<bool, ValidationCryptoError>(false),
{
    lemma_pbkdf2_len(pw, salt, ITERATIONS as nat, 64);
    if env.skip(64) == pbkdf2_spec(pw, salt, ITERATIONS as nat, 64) {
        assert(env =~= password_hash_of(pw, salt));
    }
}

/// Any stored hash whose length is not 128 bytes is refused, whatever it holds.
pub proof fn lemma_wrong_length_refused(env: Seq<u8>, pw: Seq<u8>)
    requires
        env.len() != 128,
    ensures
        password_check(env, pw) == Err::<bool, ValidationCryptoError>(ValidationCryptoError),
{
}

} // verus!

//! Hash functions and password hashing: a verified SHA-384 / SHA-512 engine,
//! BLAKE2b, HMAC-SHA-512, PBKDF2-HMAC-SHA-512 and a salted password-hash
//! envelope, with constant-time comparison and secure random bytes.
pub mod errors;
pub mod sha2;
pub mod engine;
pub mod sha384;
pub mod sha512;
pub mod util;
pub mod hmac;
pub mod pbkdf2;
pub mod pwhash;
pub mod blake2b;

use vstd::prelude::*;

verus! {

/// Opaque error for any failed cryptographic operation: use after finalization,
/// a failed random source, a wrong length, or a failed constant-time comparison.
#[derive(Debug, Clone, Copy, PartialEq, Eq, Structural)]
pub struct UnknownCryptoError;

/// An input was rejected before any verification work was attempted.
#[derive(Debug, Clone, Copy, PartialEq, Eq, Structural)]
pub struct ValidationCryptoError;

} // verus!

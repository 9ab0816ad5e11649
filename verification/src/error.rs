//! Failure kinds of proof verification and of public-input decoding.

use vstd::prelude::*;

verus! {

/// Why a proof, or the public inputs bound to it, were not accepted.
#[derive(Clone, Copy, PartialEq, Eq, Debug, Structural)]
pub enum VerifyError {
    /// The proof is too short for the pathway that its first bytes select.
    InvalidFormat,
    /// The digest check of the legacy pathway failed.
    InvalidProof,
    /// The public-input bytes are shorter than the fixed layout.
    DeserializationError,
}

} // verus!

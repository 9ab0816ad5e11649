//! The acceptance decision for an opaque proof blob.
//!
//! The first four bytes of a proof select one of two pathways:
//!
//! * the marker pathway, taken when the proof starts with the ASCII marker
//!   `ULP1`. It is a structural gate only: the proof is accepted when it is at
//!   least 100 bytes long, and nothing cryptographic is checked;
//! * the legacy pathway, taken otherwise. The SHA-256 digest of the public
//!   inputs in their fixed layout, followed by the proof, is computed, and the
//!   proof is rejected only when that digest is all zero.

use crate::error::VerifyError;
use crate::public_inputs::{encode_public_inputs, layout, PublicInputs, PublicInputsView};
use sha2::Digest;
use vstd::prelude::*;

verus! {

/// Length of the marker that selects the marker pathway.
pub const MARKER_LEN: usize = 4;

/// Least length of a proof that the marker pathway accepts.
pub const MIN_MARKED_PROOF_LEN: usize = 100;

/// The way in which a proof is judged.
#[derive(Clone, Copy, PartialEq, Eq, Debug, Structural)]
pub enum Pathway {
    /// The proof starts with the marker `ULP1`.
    Marker,
    /// The proof carries no marker.
    Legacy,
}

/// The marker: the ASCII bytes of `ULP1`.
pub open spec fn marker() -> Seq<u8> {
    seq![0x55u8, 0x4Cu8, 0x50u8, 0x31u8]
}

/// The pathway that the first four bytes of `proof` select; none for a proof
/// of fewer than four bytes.
pub open spec fn pathway_of(proof: Seq<u8>) -> Option<Pathway> {
    if proof.len() < 4 {
        None
    } else if proof.subrange(0, 4) == marker() {
        Some(Pathway::Marker)
    } else {
        Some(Pathway::Legacy)
    }
}

/// The bytes that the legacy pathway hashes: the 76-byte layout of the public
/// inputs, then the whole proof.
pub open spec fn legacy_preimage(inputs: PublicInputsView, proof: Seq<u8>) -> Seq<u8> {
    layout(inputs) + proof
}

/// A digest passes unless all of its bytes are zero.
pub open spec fn digest_passes(digest: Seq<u8>) -> bool {
    exists|i: int| 0 <= i < digest.len() && digest[i] != 0
}

/// The SHA-256 digest of `data`, as `sha2` computes it.
pub uninterp spec fn sha256(data: Seq<u8>) -> Seq<u8>;

/// The outcome of verifying `proof` against `inputs`.
pub open spec fn verification_outcome(inputs: PublicInputsView, proof: Seq<u8>) -> Result<
    (),
    VerifyError,
> {
    match pathway_of(proof) {
        None => Err(VerifyError::InvalidFormat),
        Some(Pathway::Marker) => if proof.len() < 100 {
            Err(VerifyError::InvalidFormat)
        } else {
            Ok(())
        },
        Some(Pathway::Legacy) => if digest_passes(sha256(legacy_preimage(inputs, proof))) {
            Ok(())
        } else {
            Err(VerifyError::InvalidProof)
        },
    }
}

/// A verifier of proofs that a runtime may plug in: tells whether `proof` is
/// accepted for `public_inputs`.
pub trait SudokuProofVerifier {
    fn verify(public_inputs: &PublicInputs, proof: &[u8]) -> bool;
}

/// Calls `sha2::Sha256::digest` on `data` and hands back its 32 output bytes.
///
/// Not verified: Verus takes it on trust that what comes back is the SHA-256
/// digest of `data`, a function of the bytes of `data` alone.
#[verifier::external_body]
fn sha256_digest(data: &[u8]) -> (digest: [u8; 32])
    ensures
        digest@ == sha256(data@),
{
    sha2::Sha256::digest(data).into()
}

/// Tells which pathway judges `proof_bytes`.
///
/// Fails with `InvalidFormat` exactly when the proof has fewer than four bytes.
pub fn select_pathway(proof_bytes: &[u8]) -> (res: Result<Pathway, VerifyError>)
    ensures
        res == match pathway_of(proof_bytes@) {
            Some(pathway) => Ok::<Pathway, VerifyError>(pathway),
            None => Err::<Pathway, VerifyError>(VerifyError::InvalidFormat),
        },
{
    if proof_bytes.len() < MARKER_LEN {
        return Err(VerifyError::InvalidFormat);
    }
    let marked = proof_bytes[0] == 0x55 && proof_bytes[1] == 0x4C && proof_bytes[2] == 0x50
        && proof_bytes[3] == 0x31;
    proof {
        if marked {
            assert(proof_bytes@.subrange(0, 4) =~= marker());
        }
    }
    if marked {
        Ok(Pathway::Marker)
    } else {
        Ok(Pathway::Legacy)
    }
}

/// The marker pathway: accepts a proof of at least 100 bytes.
pub fn check_marked(proof_bytes: &[u8]) -> (res: Result<(), VerifyError>)
    ensures
        res == if proof_bytes@.len() < 100 {
            Err::<(), VerifyError>(VerifyError::InvalidFormat)
        } else {
            Ok::<(), VerifyError>(())
        },
{
    if proof_bytes.len() < MIN_MARKED_PROOF_LEN {
        Err(VerifyError::InvalidFormat)
    } else {
        Ok(())
    }
}

/// The acceptance rule of the legacy pathway, on a digest already computed:
/// `InvalidProof` exactly when every byte of `digest` is zero.
pub fn check_digest(digest: &[u8]) -> (res: Result<(), VerifyError>)
    ensures
        res == if digest_passes(digest@) {
            Ok::<(), VerifyError>(())
        } else {
            Err::<(), VerifyError>(VerifyError::InvalidProof)
        },
{
    let mut i: usize = 0;
    while i < digest.len()
        invariant
            i <= digest@.len(),
            forall|k: int| 0 <= k < i ==> digest@[k] == 0,
        decreases digest@.len() - i,
    {
        if digest[i] != 0 {
            return Ok(());
        }
        i += 1;
    }
    Err(VerifyError::InvalidProof)
}

/// The legacy pathway: hashes the public inputs and the proof, and judges the
/// digest.
pub fn check_legacy(public_inputs: &PublicInputs, proof_bytes: &[u8]) -> (res: Result<
    (),
    VerifyError,
>)
    ensures
        res == if digest_passes(sha256(legacy_preimage(public_inputs@, proof_bytes@))) {
            Ok::<(), VerifyError>(())
        } else {
            Err::<(), VerifyError>(VerifyError::InvalidProof)
        },
{
    let mut data = encode_public_inputs(public_inputs);
    data.extend_from_slice(proof_bytes);
    assert(data@ == legacy_preimage(public_inputs@, proof_bytes@));
    let digest = sha256_digest(data.as_slice());
    check_digest(digest.as_slice())
}

/// Decides whether `proof_bytes` is accepted for `public_inputs`.
pub fn verify_proof(public_inputs: &PublicInputs, proof_bytes: &[u8]) -> (res: Result<
    (),
    VerifyError,
>)
    ensures
        res == verification_outcome(public_inputs@, proof_bytes@),
        proof_bytes@.len() < 4 ==> res == Err::<(), VerifyError>(VerifyError::InvalidFormat),
        proof_bytes@.len() >= 100 && proof_bytes@.subrange(0, 4) == marker() ==> res is Ok,
        4 <= proof_bytes@.len() < 100 && proof_bytes@.subrange(0, 4) == marker() ==> res == Err::<
            (),
            VerifyError,
        >(VerifyError::InvalidFormat),
{
    match select_pathway(proof_bytes) {
        Err(e) => Err(e),
        Ok(Pathway::Marker) => check_marked(proof_bytes),
        Ok(Pathway::Legacy) => check_legacy(public_inputs, proof_bytes),
    }
}

} // verus!

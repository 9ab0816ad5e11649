use sha2::{Digest, Sha256};
use zk_sudoku::proof_verifier::{
    check_digest, check_legacy, check_marked, select_pathway, Pathway,
};
use zk_sudoku::{
    encode_public_inputs, verify_proof, PublicInputs, SudokuProofVerifier, VerifyError,
};

// Create a test UltraPlonk proof with ULP1 prefix
fn create_test_ulp_proof(valid: bool) -> Vec<u8> {
    let mut proof = Vec::new();
    // Add UltraPlonk prefix
    proof.extend_from_slice(&[85, 76, 80, 49]); // "ULP1"

    // Add mock proof data - enough to pass size validation
    if valid {
        proof.extend_from_slice(&[1u8; 128]);
    } else {
        // Invalid proof (too short)
        proof.extend_from_slice(&[1u8; 10]);
    }

    proof
}

fn inputs() -> PublicInputs {
    PublicInputs { pid: 1, puzzle_commitment: [1u8; 32], nullifier: [2u8; 32], time_sec: 10 }
}

#[test]
fn test_valid_ulp_proof() {
    let pi = PublicInputs { pid: 1, puzzle_commitment: [1u8; 32], nullifier: [2u8; 32], time_sec: 10 };
    let proof = create_test_ulp_proof(true);
    assert!(verify_proof(&pi, &proof).is_ok());
}

#[test]
fn test_invalid_ulp_proof() {
    let pi = PublicInputs { pid: 1, puzzle_commitment: [1u8; 32], nullifier: [2u8; 32], time_sec: 10 };
    let proof = create_test_ulp_proof(false);
    assert!(matches!(verify_proof(&pi, &proof), Err(VerifyError::InvalidFormat)));
}

#[test]
fn test_legacy_verification() {
    let pi = PublicInputs { pid: 1, puzzle_commitment: [1u8; 32], nullifier: [2u8; 32], time_sec: 10 };
    let proof = [9u8; 64];
    assert!(verify_proof(&pi, &proof).is_ok());
}

#[test]
fn test_invalid_format() {
    let pi = PublicInputs { pid: 1, puzzle_commitment: [1u8; 32], nullifier: [2u8; 32], time_sec: 10 };
    let proof = [9u8; 2]; // Too short
    assert!(matches!(verify_proof(&pi, &proof), Err(VerifyError::InvalidFormat)));
}

#[test]
fn proofs_shorter_than_four_bytes_are_malformed() {
    for proof in [&[][..], &[85][..], &[85, 76][..], &[85, 76, 80][..], &[0, 0, 0][..]] {
        assert!(matches!(verify_proof(&inputs(), proof), Err(VerifyError::InvalidFormat)));
        assert!(matches!(select_pathway(proof), Err(VerifyError::InvalidFormat)));
    }
}

#[test]
fn marked_proof_of_ten_bytes_is_malformed() {
    let mut proof = vec![85u8, 76, 80, 49];
    proof.extend_from_slice(&[1u8; 6]);
    assert_eq!(proof.len(), 10);
    assert!(matches!(verify_proof(&inputs(), &proof), Err(VerifyError::InvalidFormat)));
}

#[test]
fn marked_proof_is_accepted_from_100_bytes_on() {
    for len in [4usize, 5, 50, 99] {
        let mut proof = vec![0u8; len];
        proof[..4].copy_from_slice(b"ULP1");
        assert!(matches!(verify_proof(&inputs(), &proof), Err(VerifyError::InvalidFormat)));
    }
    for len in [100usize, 101, 132, 8192] {
        let mut proof = vec![0u8; len];
        proof[..4].copy_from_slice(b"ULP1");
        assert!(verify_proof(&inputs(), &proof).is_ok());
    }
}

#[test]
fn marked_proof_is_accepted_whatever_the_public_inputs() {
    let proof = create_test_ulp_proof(true);
    let other = PublicInputs { pid: 0, puzzle_commitment: [0u8; 32], nullifier: [0u8; 32], time_sec: 0 };
    assert!(verify_proof(&other, &proof).is_ok());
}

#[test]
fn pathway_is_selected_by_the_first_four_bytes() {
    assert!(matches!(select_pathway(b"ULP1"), Ok(Pathway::Marker)));
    assert!(matches!(select_pathway(b"ULP1 and more"), Ok(Pathway::Marker)));
    assert!(matches!(select_pathway(b"ULP2"), Ok(Pathway::Legacy)));
    assert!(matches!(select_pathway(b"ulp1"), Ok(Pathway::Legacy)));
    assert!(matches!(select_pathway(b"XLP1"), Ok(Pathway::Legacy)));
    assert!(matches!(select_pathway(b"UXP1"), Ok(Pathway::Legacy)));
    assert!(matches!(select_pathway(b"ULX1"), Ok(Pathway::Legacy)));
    assert!(matches!(select_pathway(&[9u8; 64]), Ok(Pathway::Legacy)));
}

#[test]
fn short_unmarked_proof_takes_the_legacy_pathway() {
    // Four bytes without the marker are hashed, not rejected for their length.
    assert!(verify_proof(&inputs(), &[9u8; 4]).is_ok());
    assert!(verify_proof(&inputs(), &[0u8; 4]).is_ok());
}

#[test]
fn marker_pathway_judges_length_only() {
    assert!(matches!(check_marked(&[0u8; 99]), Err(VerifyError::InvalidFormat)));
    assert!(check_marked(&[0u8; 100]).is_ok());
    assert!(matches!(check_marked(&[]), Err(VerifyError::InvalidFormat)));
}

#[test]
fn all_zero_digest_is_the_only_one_rejected() {
    assert!(matches!(check_digest(&[0u8; 32]), Err(VerifyError::InvalidProof)));
    assert!(matches!(check_digest(&[]), Err(VerifyError::InvalidProof)));
    for i in 0..32 {
        let mut digest = [0u8; 32];
        digest[i] = 1;
        assert!(check_digest(&digest).is_ok());
    }
    assert!(check_digest(&[0xffu8; 32]).is_ok());
}

#[test]
fn legacy_pathway_accepts_realistic_inputs() {
    assert!(check_legacy(&inputs(), &[9u8; 64]).is_ok());
    assert!(check_legacy(&inputs(), &[]).is_ok());
}

// The digest that the legacy pathway judges is SHA-256 of the 76-byte layout
// followed by the proof. These vectors are the published SHA-256 test vectors.
#[test]
fn digest_is_sha256() {
    let empty = Sha256::digest(b"");
    assert_eq!(
        empty.as_slice(),
        &[
            0xe3, 0xb0, 0xc4, 0x42, 0x98, 0xfc, 0x1c, 0x14, 0x9a, 0xfb, 0xf4, 0xc8, 0x99, 0x6f,
            0xb9, 0x24, 0x27, 0xae, 0x41, 0xe4, 0x64, 0x9b, 0x93, 0x4c, 0xa4, 0x95, 0x99, 0x1b,
            0x78, 0x52, 0xb8, 0x55
        ]
    );
    // Hashing in pieces, as the fields come, gives the digest of the layout
    // followed by the proof.
    let pi = inputs();
    let proof = [9u8; 64];
    let mut hasher = Sha256::new();
    hasher.update(pi.pid.to_le_bytes());
    hasher.update(pi.puzzle_commitment);
    hasher.update(pi.nullifier);
    hasher.update(pi.time_sec.to_le_bytes());
    hasher.update(proof);
    let streamed = hasher.finalize();
    let mut data = encode_public_inputs(&pi);
    data.extend_from_slice(&proof);
    assert_eq!(streamed, Sha256::digest(&data));
    assert!(check_digest(streamed.as_slice()).is_ok());
}

#[test]
fn all_zero_input_does_not_hash_to_zero() {
    // Every byte that is hashed is zero; the digest is not.
    let zero = PublicInputs { pid: 0, puzzle_commitment: [0u8; 32], nullifier: [0u8; 32], time_sec: 0 };
    assert!(verify_proof(&zero, &[0u8; 64]).is_ok());
    assert!(check_legacy(&zero, &[]).is_ok());
}

// A verifier plugged in through the interface: the library's own decision.
struct BuiltIn;

impl SudokuProofVerifier for BuiltIn {
    fn verify(public_inputs: &PublicInputs, proof: &[u8]) -> bool {
        verify_proof(public_inputs, proof).is_ok()
    }
}

#[test]
fn a_verifier_can_be_plugged_in() {
    assert!(<BuiltIn as SudokuProofVerifier>::verify(&inputs(), &create_test_ulp_proof(true)));
    assert!(!<BuiltIn as SudokuProofVerifier>::verify(&inputs(), &create_test_ulp_proof(false)));
    assert!(<BuiltIn as SudokuProofVerifier>::verify(&inputs(), &[9u8; 64]));
    assert!(!<BuiltIn as SudokuProofVerifier>::verify(&inputs(), &[9u8; 2]));
}

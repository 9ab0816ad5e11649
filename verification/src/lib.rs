//! Verification core for Sudoku submissions.
//!
//! A submission is either a completed board or an opaque proof together with
//! the public inputs it is bound to. The core decides whether it is accepted:
//!
//! * [`board`] decides whether an 81-cell grid is a complete and correct
//!   Sudoku solution;
//! * [`public_inputs`] holds the public inputs and their fixed 76-byte layout;
//! * [`proof_verifier`] decides whether a proof is accepted, along one of two
//!   pathways that the first bytes of the proof select.
//!
//! Around the core stand the pieces that a caller needs:
//!
//! * [`pallet`] turns both decisions into the outcome of a submission to a
//!   chain runtime, and [`weights`] gives the cost of each;
//! * [`board_text`] reads a board from its textual form;
//! * [`benchmarking`] supplies inputs for measurements.
//!
//! Every executable function carries a contract that Verus checks. The one
//! thing taken on trust is the SHA-256 digest, which the `sha2` crate computes.

pub mod benchmarking;
pub mod board;
pub mod board_text;
pub mod error;
pub mod pallet;
pub mod proof_verifier;
pub mod public_inputs;
pub mod weights;

pub use board::{verify_sudoku, BOARD_SIZE, DIM};
pub use error::VerifyError;
pub use proof_verifier::{verify_proof, SudokuProofVerifier};
pub use public_inputs::{encode_public_inputs, noir_inputs_to_public_inputs, PublicInputs};

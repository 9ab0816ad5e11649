//! The decisions of the two submissions that a chain runtime offers.
//!
//! A submission is decided here from plain values: the runtime authenticates
//! the sender, hands the submitted bytes over, deposits the event that the
//! outcome names, and reports the outcome's result.

use crate::board::{valid_solution, verify_sudoku, BOARD_SIZE};
use crate::proof_verifier::{verification_outcome, verify_proof};
use crate::public_inputs::{PublicInputs, PublicInputsView};
use crate::weights::Weight;
use vstd::prelude::*;

verus! {

/// What a submission makes known.
#[derive(Clone, Copy, PartialEq, Eq, Debug, Structural)]
pub enum Event {
    /// A submission was verified.
    Verified { puzzle_id: u64 },
    /// A submission failed verification.
    Rejected { puzzle_id: u64 },
}

/// Why a submission failed.
#[derive(Clone, Copy, PartialEq, Eq, Debug, Structural)]
pub enum Error {
    /// Board length must be exactly 81 digits.
    InvalidLength,
    /// Board failed Sudoku constraints.
    InvalidBoard,
}

/// The outcome of a submission: the event to deposit, if any, and the result
/// to report.
#[derive(Clone, Copy, PartialEq, Eq, Debug)]
pub struct Outcome {
    pub event: Option<Event>,
    pub result: Result<(), Error>,
}

/// The weights of the two submissions, as a runtime supplies them.
pub trait WeightInfo {
    /// Weight of a board submission.
    fn submit_board() -> Weight;

    /// Weight of a proof submission; `c` is the size of the proof in kilobytes.
    fn submit_proof(c: u32) -> Weight;
}

/// The outcome of submitting `board` for the puzzle `puzzle_id`.
pub open spec fn board_outcome(puzzle_id: u64, board: Seq<u8>) -> Outcome {
    if board.len() != 81 {
        Outcome { event: None, result: Err(Error::InvalidLength) }
    } else if valid_solution(board) {
        Outcome { event: Some(Event::Verified { puzzle_id }), result: Ok(()) }
    } else {
        Outcome { event: Some(Event::Rejected { puzzle_id }), result: Err(Error::InvalidBoard) }
    }
}

/// The outcome of submitting `proof` with the public inputs `inputs`.
pub open spec fn proof_outcome(inputs: PublicInputsView, proof: Seq<u8>) -> Outcome {
    if verification_outcome(inputs, proof) is Ok {
        Outcome { event: Some(Event::Verified { puzzle_id: inputs.pid }), result: Ok(()) }
    } else {
        Outcome {
            event: Some(Event::Rejected { puzzle_id: inputs.pid }),
            result: Err(Error::InvalidBoard),
        }
    }
}

/// The two submissions.
pub struct Pallet;

impl Pallet {
    /// Submit a Sudoku board for verification.
    ///
    /// A board of another length than 81 is refused with `InvalidLength` and
    /// no event. Otherwise the board is checked: a valid one is `Verified`,
    /// any other is `Rejected` and reported as `InvalidBoard`.
    pub fn submit_board(puzzle_id: u64, board: &[u8]) -> (outcome: Outcome)
        ensures
            outcome == board_outcome(puzzle_id, board@),
    {
        if board.len() != BOARD_SIZE {
            return Outcome { event: None, result: Err(Error::InvalidLength) };
        }
        let mut arr: [u8; BOARD_SIZE] = [0u8; BOARD_SIZE];
        let mut i: usize = 0;
        while i < BOARD_SIZE
            invariant
                i <= 81,
                board@.len() == 81,
                forall|k: int| 0 <= k < i ==> arr@[k] == board@[k],
            decreases 81 - i,
        {
            arr[i] = board[i];
            i += 1;
        }
        assert(arr@ =~= board@);
        if verify_sudoku(&arr) {
            Outcome { event: Some(Event::Verified { puzzle_id }), result: Ok(()) }
        } else {
            Outcome { event: Some(Event::Rejected { puzzle_id }), result: Err(Error::InvalidBoard) }
        }
    }

    /// Submit a proof and its public inputs for verification.
    ///
    /// An accepted proof is `Verified`; any other is `Rejected` and reported
    /// as `InvalidBoard`. The event names the puzzle of the public inputs.
    pub fn submit_proof(public_inputs: &PublicInputs, proof_bytes: &[u8]) -> (outcome: Outcome)
        ensures
            outcome == proof_outcome(public_inputs@, proof_bytes@),
    {
        match verify_proof(public_inputs, proof_bytes) {
            Ok(_) => Outcome {
                event: Some(Event::Verified { puzzle_id: public_inputs.pid }),
                result: Ok(()),
            },
            Err(_) => Outcome {
                event: Some(Event::Rejected { puzzle_id: public_inputs.pid }),
                result: Err(Error::InvalidBoard),
            },
        }
    }
}

/// Checks a board; the plain entry point for use without a runtime.
pub fn verify(board: &[u8; BOARD_SIZE]) -> (ok: bool)
    ensures
        ok == valid_solution(board@),
{
    verify_sudoku(board)
}

} // verus!

//! Inputs for measuring the two submissions: a solved board, a proof of a
//! chosen size that takes the marker pathway, and public inputs to go with it.

use crate::board::{
    block, cells_are_digits, column, group_complete, is_digit, occurs_once, row, valid_solution,
    BOARD_SIZE,
};
use crate::proof_verifier::{marker, pathway_of, Pathway};
use crate::public_inputs::PublicInputs;
use vstd::prelude::*;

verus! {

/// The puzzle that the sample inputs name.
pub const PUZZLE_ID: u64 = 42;

/// The cells of the solved board.
pub open spec fn solved_board() -> Seq<u8> {
    seq![
        5u8, 3u8, 4u8, 6u8, 7u8, 8u8, 9u8, 1u8, 2u8,
        6u8, 7u8, 2u8, 1u8, 9u8, 5u8, 3u8, 4u8, 8u8,
        1u8, 9u8, 8u8, 3u8, 4u8, 2u8, 5u8, 6u8, 7u8,
        8u8, 5u8, 9u8, 7u8, 6u8, 1u8, 4u8, 2u8, 3u8,
        4u8, 2u8, 6u8, 8u8, 5u8, 3u8, 7u8, 9u8, 1u8,
        7u8, 1u8, 3u8, 9u8, 2u8, 4u8, 8u8, 5u8, 6u8,
        9u8, 6u8, 1u8, 5u8, 3u8, 7u8, 2u8, 8u8, 4u8,
        2u8, 8u8, 7u8, 4u8, 1u8, 9u8, 6u8, 3u8, 5u8,
        3u8, 4u8, 5u8, 2u8, 8u8, 6u8, 1u8, 7u8, 9u8,
    ]
}

/// A proof of `size` bytes that starts with the marker: the marker, then
/// bytes of value 1. A size below four gives the marker alone.
pub open spec fn marked_proof(size: nat) -> Seq<u8> {
    marker() + Seq::new((if size >= 4 { size - 4 } else { 0 }) as nat, |i: int| 1u8)
}

/// Prepare a valid Sudoku solution.
pub fn valid_sudoku_board() -> (board: [u8; BOARD_SIZE])
    ensures
        board@ == solved_board(),
        valid_solution(board@),
{
    proof {
        lemma_solved_board_is_valid();
    }
    let board: [u8; BOARD_SIZE] = [
        5, 3, 4, 6, 7, 8, 9, 1, 2,
        6, 7, 2, 1, 9, 5, 3, 4, 8,
        1, 9, 8, 3, 4, 2, 5, 6, 7,
        8, 5, 9, 7, 6, 1, 4, 2, 3,
        4, 2, 6, 8, 5, 3, 7, 9, 1,
        7, 1, 3, 9, 2, 4, 8, 5, 6,
        9, 6, 1, 5, 3, 7, 2, 8, 4,
        2, 8, 7, 4, 1, 9, 6, 3, 5,
        3, 4, 5, 2, 8, 6, 1, 7, 9,
    ];
    board
}

/// Prepare a marker-prefixed proof of the size given.
pub fn create_proof_bytes(size: u32) -> (proof_bytes: Vec<u8>)
    ensures
        proof_bytes@ == marked_proof(size as nat),
        pathway_of(proof_bytes@) == Some(Pathway::Marker),
{
    let mut proof_bytes: Vec<u8> = Vec::with_capacity(size as usize);
    proof_bytes.push(85);
    proof_bytes.push(76);
    proof_bytes.push(80);
    proof_bytes.push(49);
    while proof_bytes.len() < size as usize
        invariant
            proof_bytes@.len() >= 4,
            proof_bytes@.len() <= size || proof_bytes@.len() == 4,
            proof_bytes@ == marked_proof(proof_bytes@.len()),
        decreases size - proof_bytes@.len(),
    {
        proof_bytes.push(1);
    }
    assert(proof_bytes@.subrange(0, 4) =~= marker());
    proof_bytes
}

/// Prepare public inputs for the proof.
pub fn create_public_inputs() -> (inputs: PublicInputs)
    ensures
        inputs.pid == PUZZLE_ID,
        inputs.puzzle_commitment@ == Seq::new(32, |i: int| 1u8),
        inputs.nullifier@ == Seq::new(32, |i: int| 2u8),
        inputs.time_sec == 1234,
{
    let inputs = PublicInputs {
        pid: PUZZLE_ID,
        puzzle_commitment: [1u8; 32],
        nullifier: [2u8; 32],
        time_sec: 1234,
    };
    inputs
}

/// Every row of the solved board is complete.
proof fn lemma_solved_rows(r: int)
    requires
        0 <= r < 9,
    ensures
        group_complete(row(solved_board(), r)),
{
    let g = row(solved_board(), r);
    assert forall|digit: u8| is_digit(digit) implies occurs_once(g, digit) by {
        // Naming the nine cells lets the solver look each of them up.
        assert(g[0] + g[1] + g[2] + g[3] + g[4] + g[5] + g[6] + g[7] + g[8] == 45);
    }
}

/// Every column of the solved board is complete.
proof fn lemma_solved_columns(c: int)
    requires
        0 <= c < 9,
    ensures
        group_complete(column(solved_board(), c)),
{
    let g = column(solved_board(), c);
    assert forall|digit: u8| is_digit(digit) implies occurs_once(g, digit) by {
        // Naming the nine cells lets the solver look each of them up.
        assert(g[0] + g[1] + g[2] + g[3] + g[4] + g[5] + g[6] + g[7] + g[8] == 45);
    }
}

/// Every 3x3 block of the solved board is complete.
proof fn lemma_solved_blocks(i: int, j: int)
    requires
        0 <= i < 3,
        0 <= j < 3,
    ensures
        group_complete(block(solved_board(), i, j)),
{
    let g = block(solved_board(), i, j);
    assert forall|digit: u8| is_digit(digit) implies occurs_once(g, digit) by {
        // Naming the nine cells lets the solver look each of them up.
        assert(g[0] + g[1] + g[2] + g[3] + g[4] + g[5] + g[6] + g[7] + g[8] == 45);
    }
}

/// The solved board is a valid solution.
pub proof fn lemma_solved_board_is_valid()
    ensures
        valid_solution(solved_board()),
{
    let board = solved_board();
    assert forall|r: int| 0 <= r < 9 implies group_complete(#[trigger] row(board, r)) by {
        lemma_solved_rows(r);
    }
    assert forall|c: int| 0 <= c < 9 implies group_complete(#[trigger] column(board, c)) by {
        lemma_solved_columns(c);
    }
    assert forall|i: int, j: int| 0 <= i < 3 && 0 <= j < 3 implies group_complete(
        #[trigger] block(board, i, j),
    ) by {
        lemma_solved_blocks(i, j);
    }
}

} // verus!

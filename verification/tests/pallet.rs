use zk_sudoku::pallet::{verify, Error, Event, Outcome, Pallet, WeightInfo as Weights};
use zk_sudoku::weights::{proof_size_kb, Weight, WeightInfo};
use zk_sudoku::{encode_public_inputs, noir_inputs_to_public_inputs, PublicInputs, BOARD_SIZE};

#[test]
fn submit_valid_board_emits_verified() {
    let board: [u8; BOARD_SIZE] = [
        5, 3, 4, 6, 7, 8, 9, 1, 2, //
        6, 7, 2, 1, 9, 5, 3, 4, 8, //
        1, 9, 8, 3, 4, 2, 5, 6, 7, //
        8, 5, 9, 7, 6, 1, 4, 2, 3, //
        4, 2, 6, 8, 5, 3, 7, 9, 1, //
        7, 1, 3, 9, 2, 4, 8, 5, 6, //
        9, 6, 1, 5, 3, 7, 2, 8, 4, //
        2, 8, 7, 4, 1, 9, 6, 3, 5, //
        3, 4, 5, 2, 8, 6, 1, 7, 9,
    ];
    let bvec: Vec<u8> = board.to_vec();
    let outcome = Pallet::submit_board(42, &bvec);
    assert!(outcome.result.is_ok());
    assert_eq!(outcome.event, Some(Event::Verified { puzzle_id: 42 }));
}

#[test]
fn submit_invalid_board_rejected() {
    let mut board: [u8; BOARD_SIZE] = [
        5, 3, 4, 6, 7, 8, 9, 1, 2, //
        6, 7, 2, 1, 9, 5, 3, 4, 8, //
        1, 9, 8, 3, 4, 2, 5, 6, 7, //
        8, 5, 9, 7, 6, 1, 4, 2, 3, //
        4, 2, 6, 8, 5, 3, 7, 9, 1, //
        7, 1, 3, 9, 2, 4, 8, 5, 6, //
        9, 6, 1, 5, 3, 7, 2, 8, 4, //
        2, 8, 7, 4, 1, 9, 6, 3, 5, //
        3, 4, 5, 2, 8, 6, 1, 7, 9,
    ];
    board[1] = 5; // make row invalid
    let bvec: Vec<u8> = board.to_vec();
    let outcome = Pallet::submit_board(42, &bvec);
    assert_eq!(outcome.result, Err(Error::InvalidBoard));
    assert_eq!(outcome.event, Some(Event::Rejected { puzzle_id: 42 }));
}

#[test]
fn submit_proof_happy_path() {
    let pi = PublicInputs { pid: 42, puzzle_commitment: [1u8; 32], nullifier: [2u8; 32], time_sec: 7 };
    let pi_bytes = encode_public_inputs(&pi);
    let proof = vec![9u8; 64];
    let decoded = noir_inputs_to_public_inputs(&pi_bytes).unwrap();
    let outcome = Pallet::submit_proof(&decoded, &proof);
    assert!(outcome.result.is_ok());
    assert_eq!(outcome.event, Some(Event::Verified { puzzle_id: 42 }));
}

#[test]
fn board_of_wrong_length_is_refused_without_event() {
    for len in [0usize, 1, 80, 82, 100] {
        let outcome = Pallet::submit_board(7, &vec![1u8; len]);
        assert_eq!(outcome, Outcome { event: None, result: Err(Error::InvalidLength) });
    }
}

#[test]
fn rejected_proof_names_the_puzzle_of_its_inputs() {
    let pi = PublicInputs { pid: 99, puzzle_commitment: [1u8; 32], nullifier: [2u8; 32], time_sec: 7 };
    // too short for any pathway
    let outcome = Pallet::submit_proof(&pi, &[1u8, 2]);
    assert_eq!(
        outcome,
        Outcome { event: Some(Event::Rejected { puzzle_id: 99 }), result: Err(Error::InvalidBoard) }
    );
    // marked, but shorter than 100 bytes
    let mut short = b"ULP1".to_vec();
    short.extend_from_slice(&[1u8; 10]);
    let outcome = Pallet::submit_proof(&pi, &short);
    assert_eq!(outcome.event, Some(Event::Rejected { puzzle_id: 99 }));
    assert_eq!(outcome.result, Err(Error::InvalidBoard));
}

#[test]
fn marked_proof_of_full_size_is_verified() {
    let pi = PublicInputs { pid: 5, puzzle_commitment: [0u8; 32], nullifier: [0u8; 32], time_sec: 0 };
    let mut proof = b"ULP1".to_vec();
    proof.resize(8192, 1);
    let outcome = Pallet::submit_proof(&pi, &proof);
    assert_eq!(outcome, Outcome { event: Some(Event::Verified { puzzle_id: 5 }), result: Ok(()) });
}

#[test]
fn plain_entry_point_agrees_with_verify_sudoku() {
    let mut board = zk_sudoku::benchmarking::valid_sudoku_board();
    assert!(verify(&board));
    board[80] = 1;
    assert!(!verify(&board));
}

#[test]
fn board_weight_is_100_microseconds() {
    assert_eq!(<WeightInfo as Weights>::submit_board(), Weight::from_parts(100_000, 0));
}

#[test]
fn proof_weight_grows_by_200_microseconds_per_kilobyte() {
    assert_eq!(<WeightInfo as Weights>::submit_proof(0), Weight::from_parts(100_000, 0));
    assert_eq!(<WeightInfo as Weights>::submit_proof(1), Weight::from_parts(300_000, 0));
    assert_eq!(<WeightInfo as Weights>::submit_proof(9), Weight::from_parts(1_900_000, 0));
    assert_eq!(
        <WeightInfo as Weights>::submit_proof(u32::MAX),
        Weight { ref_time: 100_000 + 200_000 * 4_294_967_295u64, proof_size: 0 }
    );
}

#[test]
fn proof_size_is_charged_in_started_kilobytes() {
    assert_eq!(proof_size_kb(0), 1);
    assert_eq!(proof_size_kb(64), 1);
    assert_eq!(proof_size_kb(1023), 1);
    assert_eq!(proof_size_kb(1024), 2);
    assert_eq!(proof_size_kb(8192), 9);
}

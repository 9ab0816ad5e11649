//! Validation of a Sudoku board.
//!
//! A board is 81 cells in row-major order. It is a valid solution when every
//! cell holds a digit from 1 to 9 and each of the 27 groups (nine rows, nine
//! columns, nine 3x3 blocks) holds each digit exactly once.

use vstd::prelude::*;

verus! {

/// Number of cells of a board.
pub const BOARD_SIZE: usize = 81;

/// Side length of a board.
pub const DIM: usize = 9;

/// A cell value that may appear in a solution.
pub open spec fn is_digit(value: u8) -> bool {
    1 <= value <= 9
}

/// The cells of row `r`, left to right.
pub open spec fn row(board: Seq<u8>, r: int) -> Seq<u8> {
    Seq::new(9, |k: int| board[r * 9 + k])
}

/// The cells of column `c`, top to bottom.
pub open spec fn column(board: Seq<u8>, c: int) -> Seq<u8> {
    Seq::new(9, |k: int| board[k * 9 + c])
}

/// The cells of the 3x3 block in block-row `i` and block-column `j`, row by row.
pub open spec fn block(board: Seq<u8>, i: int, j: int) -> Seq<u8> {
    Seq::new(9, |k: int| board[(3 * i + k / 3) * 9 + (3 * j + k % 3)])
}

/// `digit` occurs at exactly one position of `group`.
pub open spec fn occurs_once(group: Seq<u8>, digit: u8) -> bool {
    &&& exists|k: int| 0 <= k < group.len() && group[k] == digit
    &&& forall|j: int, k: int|
        0 <= j < group.len() && 0 <= k < group.len() && group[j] == digit && group[k] == digit
            ==> j == k
}

/// Every digit from 1 to 9 occurs exactly once in `group`.
pub open spec fn group_complete(group: Seq<u8>) -> bool {
    forall|digit: u8| is_digit(digit) ==> occurs_once(group, digit)
}

/// Every cell of the board holds a digit from 1 to 9.
pub open spec fn cells_are_digits(board: Seq<u8>) -> bool {
    forall|i: int| 0 <= i < board.len() ==> is_digit(#[trigger] board[i])
}

/// The board is a complete and correct Sudoku solution.
pub open spec fn valid_solution(board: Seq<u8>) -> bool {
    &&& board.len() == 81
    &&& cells_are_digits(board)
    &&& forall|r: int| 0 <= r < 9 ==> group_complete(#[trigger] row(board, r))
    &&& forall|c: int| 0 <= c < 9 ==> group_complete(#[trigger] column(board, c))
    &&& forall|i: int, j: int|
        0 <= i < 3 && 0 <= j < 3 ==> group_complete(#[trigger] block(board, i, j))
}

/// Row-major index of the cell in row `row` and column `col`.
pub fn idx(row: usize, col: usize) -> (i: usize)
    requires
        row * 9 + col <= usize::MAX,
    ensures
        i == row * 9 + col,
        row < 9 && col < 9 ==> i < 81,
{
    row * DIM + col
}

/// Whether `value` is a digit from 1 to 9.
pub fn is_valid_digit(value: u8) -> (ok: bool)
    ensures
        ok == is_digit(value),
{
    value >= 1 && value <= 9
}

/// Clears every marker.
pub fn reset_seen(seen: &mut [bool; 10])
    ensures
        forall|d: int| 0 <= d < 10 ==> !final(seen)[d],
{
    let mut d: usize = 0;
    while d < 10
        invariant
            d <= 10,
            forall|e: int| 0 <= e < d ==> !seen[e],
        decreases 10 - d,
    {
        seen[d] = false;
        d += 1;
    }
}

/// Whether the markers of all digits from 1 to 9 are set.
pub fn check_all_seen_once(seen: &[bool; 10]) -> (all: bool)
    ensures
        all == (forall|d: int| 1 <= d <= 9 ==> seen[d]),
{
    let mut d: usize = 1;
    while d <= 9
        invariant
            1 <= d <= 10,
            forall|e: int| 1 <= e < d ==> seen[e],
        decreases 10 - d,
    {
        if !seen[d] {
            return false;
        }
        d += 1;
    }
    true
}

/// The markers in `seen` record exactly the first `n` cells of `group`, all of
/// which are digits and pairwise different.
pub open spec fn marks_prefix(seen: Seq<bool>, group: Seq<u8>, n: int) -> bool {
    &&& seen.len() == 10
    &&& 0 <= n <= group.len()
    &&& forall|k: int| 0 <= k < n ==> is_digit(#[trigger] group[k]) && seen[group[k] as int]
    &&& forall|j: int, k: int| 0 <= j < k < n ==> group[j] != group[k]
    &&& forall|d: int|
        0 <= d < 10 && #[trigger] seen[d] ==> exists|k: int| 0 <= k < n && group[k] == d
}

/// Marking the digit of the next cell extends the recorded prefix by one.
proof fn lemma_mark_next(before: Seq<bool>, after: Seq<bool>, group: Seq<u8>, n: int)
    requires
        marks_prefix(before, group, n),
        n < group.len(),
        is_digit(group[n]),
        !before[group[n] as int],
        after == before.update(group[n] as int, true),
    ensures
        marks_prefix(after, group, n + 1),
{
    assert forall|d: int| 0 <= d < 10 && #[trigger] after[d] implies exists|k: int|
        0 <= k < n + 1 && group[k] == d by {
        // The new marker is witnessed by cell `n`, an old one by an earlier cell.
        if d != group[n] as int {
            let k = choose|k: int| 0 <= k < n && group[k] == d;
            assert(group[k] == d);
        }
    }
}

/// A cell whose digit is already marked repeats an earlier cell of the group.
proof fn lemma_repeated_digit(seen: Seq<bool>, group: Seq<u8>, n: int)
    requires
        marks_prefix(seen, group, n),
        n < group.len(),
        is_digit(group[n]),
        seen[group[n] as int],
    ensures
        !group_complete(group),
{
    // The digit of cell `n` occurs at an earlier cell too.
    let k = choose|k: int| 0 <= k < n && group[k] == group[n] as int;
    assert(!occurs_once(group, group[n]));
}

/// A fully scanned group of nine cells is complete exactly when every digit
/// from 1 to 9 is marked.
proof fn lemma_scanned_group(seen: Seq<bool>, group: Seq<u8>)
    requires
        group.len() == 9,
        marks_prefix(seen, group, 9),
    ensures
        group_complete(group) == (forall|d: int| 1 <= d <= 9 ==> seen[d]),
{
    if forall|d: int| 1 <= d <= 9 ==> seen[d] {
        assert forall|digit: u8| is_digit(digit) implies occurs_once(group, digit) by {
            // Marked, so it occurs; the cells differ pairwise, so only once.
            assert(seen[digit as int]);
            let k = choose|k: int| 0 <= k < 9 && group[k] == digit as int;
            assert(group[k] == digit);
        }
    } else {
        // A digit that is not marked occurs nowhere.
        let d = choose|d: int| 1 <= d <= 9 && !seen[d];
        assert(is_digit(d as u8));
        assert(!occurs_once(group, d as u8));
    }
}

/// Records the next cell of a group, unless it breaks the group's rules.
///
/// Returns `false`, and leaves the markers alone, when `value` is no digit or
/// its marker is already set.
fn mark_cell(
    seen: &mut [bool; 10],
    value: u8,
    Ghost(group): Ghost<Seq<u8>>,
    Ghost(n): Ghost<int>,
) -> (fresh: bool)
    requires
        marks_prefix(old(seen)@, group, n),
        n < group.len(),
        group[n] == value,
    ensures
        fresh == (is_digit(value) && !old(seen)[value as int]),
        fresh ==> marks_prefix(final(seen)@, group, n + 1),
        !fresh ==> *final(seen) == *old(seen),
        !fresh && is_digit(value) ==> !group_complete(group),
{
    if !is_valid_digit(value) {
        return false;
    }
    if seen[value as usize] {
        proof {
            lemma_repeated_digit(seen@, group, n);
        }
        return false;
    }
    seen[value as usize] = true;
    proof {
        lemma_mark_next(old(seen)@, seen@, group, n);
    }
    true
}

/// Decides whether `board` is a complete and correct Sudoku solution.
///
/// Rows are checked first, then columns, then the 3x3 blocks; the first
/// violation found ends the check.
pub fn verify_sudoku(board: &[u8; BOARD_SIZE]) -> (ok: bool)
    ensures
        ok == valid_solution(board@),
{
    let mut seen: [bool; 10] = [false; 10];

    let mut r: usize = 0;
    while r < DIM
        invariant
            r <= 9,
            forall|i: int| 0 <= i < r * 9 ==> is_digit(#[trigger] board@[i]),
            forall|q: int| 0 <= q < r ==> group_complete(#[trigger] row(board@, q)),
        decreases 9 - r,
    {
        let ghost group = row(board@, r as int);
        reset_seen(&mut seen);
        let mut c: usize = 0;
        while c < DIM
            invariant
                r < 9,
                c <= 9,
                group == row(board@, r as int),
                marks_prefix(seen@, group, c as int),
            decreases 9 - c,
        {
            let v = board[idx(r, c)];
            if !mark_cell(&mut seen, v, Ghost(group), Ghost(c as int)) {
                return false;
            }
            c += 1;
        }
        proof {
            lemma_scanned_group(seen@, group);
        }
        if !check_all_seen_once(&seen) {
            return false;
        }
        assert forall|i: int| 0 <= i < (r + 1) * 9 implies is_digit(#[trigger] board@[i]) by {
            if i >= r * 9 {
                assert(is_digit(group[i - r * 9]));
            }
        }
        r += 1;
    }

    let mut c: usize = 0;
    while c < DIM
        invariant
            c <= 9,
            forall|q: int| 0 <= q < c ==> group_complete(#[trigger] column(board@, q)),
        decreases 9 - c,
    {
        let ghost group = column(board@, c as int);
        reset_seen(&mut seen);
        let mut r: usize = 0;
        while r < DIM
            invariant
                c < 9,
                r <= 9,
                group == column(board@, c as int),
                marks_prefix(seen@, group, r as int),
            decreases 9 - r,
        {
            let v = board[idx(r, c)];
            if !mark_cell(&mut seen, v, Ghost(group), Ghost(r as int)) {
                return false;
            }
            r += 1;
        }
        proof {
            lemma_scanned_group(seen@, group);
        }
        if !check_all_seen_once(&seen) {
            return false;
        }
        c += 1;
    }

    let mut br: usize = 0;
    while br < DIM
        invariant
            br <= 9,
            br % 3 == 0,
            forall|i: int, j: int|
                0 <= i < br / 3 && 0 <= j < 3 ==> group_complete(#[trigger] block(board@, i, j)),
        decreases 9 - br,
    {
        let mut bc: usize = 0;
        while bc < DIM
            invariant
                br < 9,
                br % 3 == 0,
                bc <= 9,
                bc % 3 == 0,
                forall|i: int, j: int|
                    0 <= i < br / 3 && 0 <= j < 3 ==> group_complete(
                        #[trigger] block(board@, i, j),
                    ),
                forall|j: int|
                    0 <= j < bc / 3 ==> group_complete(#[trigger] block(board@, br as int / 3, j)),
            decreases 9 - bc,
        {
            let ghost group = block(board@, br as int / 3, bc as int / 3);
            reset_seen(&mut seen);
            let mut r: usize = br;
            while r < br + 3
                invariant
                    br < 9,
                    br % 3 == 0,
                    bc < 9,
                    bc % 3 == 0,
                    br <= r <= br + 3,
                    group == block(board@, br as int / 3, bc as int / 3),
                    marks_prefix(seen@, group, (r - br) * 3),
                decreases br + 3 - r,
            {
                let mut c: usize = bc;
                while c < bc + 3
                    invariant
                        br < 9,
                        br % 3 == 0,
                        bc < 9,
                        bc % 3 == 0,
                        br <= r < br + 3,
                        bc <= c <= bc + 3,
                        group == block(board@, br as int / 3, bc as int / 3),
                        marks_prefix(seen@, group, (r - br) * 3 + (c - bc)),
                    decreases bc + 3 - c,
                {
                    let v = board[idx(r, c)];
                    let ghost n = (r - br) * 3 + (c - bc);
                    if !mark_cell(&mut seen, v, Ghost(group), Ghost(n)) {
                        return false;
                    }
                    c += 1;
                }
                r += 1;
            }
            proof {
                lemma_scanned_group(seen@, group);
            }
            if !check_all_seen_once(&seen) {
                return false;
            }
            bc += 3;
        }
        br += 3;
    }

    true
}

/// A board on which some cell has been set to 0 or to a value above 9 is not a
/// valid solution, whatever the other cells hold.
pub proof fn lemma_out_of_range_cell_invalidates(board: Seq<u8>, cell: int, value: u8)
    requires
        0 <= cell < board.len(),
        value == 0 || value >= 10,
    ensures
        !valid_solution(board.update(cell, value)),
{
    let changed = board.update(cell, value);
    assert(!is_digit(changed[cell]));
}

} // verus!

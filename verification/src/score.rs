//! Scoring: a board is worth the sum of the points of its runs.
//!
//! A run is a maximal stretch of occupied cells whose values never step down
//! from left to right. A wildcard repeats the value carried by the cell to its
//! left, so it always continues that cell's run; where nothing is carried to
//! it, it stands as a run of one cell and carries nothing on.

use vstd::prelude::*;
use crate::cards::{points_for_run, run_points, BOARD_SIZE, JOKER};

verus! {

/// The value that cell `i` hands to its right neighbour for comparison, or 0
/// where it hands on none: an empty cell, a position off the board, or a
/// wildcard that itself received none.
pub open spec fn carried(board: Seq<u8>, i: int) -> int
    decreases i + 1,
{
    if i < 0 || i >= board.len() {
        0
    } else if board[i] == 0 {
        0
    } else if board[i] == JOKER {
        carried(board, i - 1)
    } else {
        board[i] as int
    }
}

/// Whether cell `i` belongs to the same run as cell `i - 1`.
pub open spec fn extends_run(board: Seq<u8>, i: int) -> bool {
    &&& 0 < i < board.len()
    &&& board[i] != 0
    &&& carried(board, i - 1) != 0
    &&& (board[i] == JOKER || board[i] >= carried(board, i - 1))
}

/// Length of the run that cell `i` is the last cell of so far: the number of
/// cells from the start of its run up to `i`. Zero for an empty cell.
pub open spec fn run_len(board: Seq<u8>, i: int) -> nat
    decreases i + 1,
{
    if i < 0 || i >= board.len() || board[i] == 0 {
        0
    } else if extends_run(board, i) {
        run_len(board, i - 1) + 1
    } else {
        1
    }
}

/// Whether a run ends at cell `i`: the cell is occupied and its right
/// neighbour does not continue it.
pub open spec fn closes_run(board: Seq<u8>, i: int) -> bool {
    &&& 0 <= i < board.len()
    &&& board[i] != 0
    &&& !extends_run(board, i + 1)
}

/// Points of the runs that end in one of the first `n` cells.
pub open spec fn score_upto(board: Seq<u8>, n: int) -> int
    decreases n,
{
    if n <= 0 {
        0
    } else {
        score_upto(board, n - 1) + if closes_run(board, n - 1) {
            run_points(run_len(board, n - 1) as int)
        } else {
            0
        }
    }
}

/// The score of a board: the points of all its runs.
pub open spec fn board_score(board: Seq<u8>) -> int {
    score_upto(board, board.len() as int)
}

/// A run ending at cell `i` has at most `i + 1` cells.
pub proof fn lemma_run_len_bound(board: Seq<u8>, i: int)
    requires
        -1 <= i < board.len(),
    ensures
        run_len(board, i) <= i + 1,
    decreases i + 1,
{
    if i >= 0 && board[i] != 0 && extends_run(board, i) {
        lemma_run_len_bound(board, i - 1);
    }
}

/// Every cell earns at most 15 points: the runs closed within the first `n`
/// cells, together with 15 points for each cell of the run still open at
/// cell `n`, stay within `15 * (n + 1)`.
pub proof fn lemma_score_upto_bound(board: Seq<u8>, n: int)
    requires
        0 <= n <= board.len() <= BOARD_SIZE,
    ensures
        0 <= score_upto(board, n) <= 15 * n,
        n < board.len() ==> score_upto(board, n) + 15 * run_len(board, n) <= 15 * (n + 1),
    decreases n,
{
    if n > 0 {
        lemma_score_upto_bound(board, n - 1);
        lemma_run_len_bound(board, n - 1);
    }
    if n < board.len() {
        lemma_run_len_bound(board, n);
    }
}

/// A board of twenty cells scores between 0 and 300.
pub proof fn lemma_board_score_bound(board: Seq<u8>)
    requires
        board.len() == BOARD_SIZE,
    ensures
        0 <= board_score(board) <= 300,
{
    lemma_score_upto_bound(board, board.len() as int);
}

/// A wildcard that receives a value from its left neighbour lengthens that
/// neighbour's run by one and hands the same value on. A wildcard that
/// receives none (first cell, or after an empty cell or a valueless
/// wildcard) is a run of exactly one cell and hands nothing on.
pub proof fn lemma_wildcard_runs(board: Seq<u8>, i: int)
    requires
        0 <= i < board.len(),
        board[i] == JOKER,
    ensures
        carried(board, i - 1) != 0 ==> {
            &&& extends_run(board, i)
            &&& run_len(board, i) == run_len(board, i - 1) + 1
            &&& carried(board, i) == carried(board, i - 1)
        },
        carried(board, i - 1) == 0 ==> {
            &&& !extends_run(board, i)
            &&& run_len(board, i) == 1
            &&& carried(board, i) == 0
            &&& !extends_run(board, i + 1)
        },
{
}

/// Scores a board in one pass from left to right.
pub fn score_cells(board: &[u8; 20]) -> (total: i32)
    ensures
        total == board_score(board@),
        0 <= total <= 300,
{
    let mut total: i32 = 0;
    let mut len: usize = 0;
    let mut last: u8 = 0;
    let mut i: usize = 0;
    while i < BOARD_SIZE
        invariant
            0 <= i <= BOARD_SIZE,
            board@.len() == BOARD_SIZE,
            len == run_len(board@, i - 1),
            last == carried(board@, i - 1),
            total == score_upto(board@, i - 1),
            len <= i,
            0 <= total <= 15 * i,
        decreases BOARD_SIZE - i,
    {
        let cell: u8 = board[i];
        proof {
            lemma_run_len_bound(board@, i as int);
            if i > 0 {
                lemma_score_upto_bound(board@, i as int);
            }
        }
        if cell == 0 {
            total = total + points_for_run(len);
            len = 0;
            last = 0;
        } else {
            let val: u8 = if cell == JOKER { last } else { cell };
            if last != 0 && val >= last {
                len = len + 1;
            } else {
                total = total + points_for_run(len);
                len = 1;
            }
            last = val;
        }
        i = i + 1;
    }
    proof {
        lemma_board_score_bound(board@);
    }
    total + points_for_run(len)
}

} // verus!

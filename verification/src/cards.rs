//! The deck: which cards exist, how many copies of each, and what a run is worth.

use vstd::prelude::*;

verus! {

/// Number of cells on a board.
pub const BOARD_SIZE: usize = 20;

/// Lowest face value.
pub const MIN_CARD: u8 = 1;

/// Highest face value.
pub const MAX_CARD: u8 = 30;

/// Cell and card code of the wildcard.
pub const JOKER: u8 = 31;

/// Number of card codes, the empty code included.
pub const CARD_CODES: usize = 32;

/// Copies of `card` in a full deck: two of each value from 11 to 19, one of
/// every other face value and of the wildcard, none of anything else.
pub open spec fn copies(card: int) -> int {
    if 11 <= card <= 19 {
        2
    } else if MIN_CARD <= card <= MAX_CARD || card == JOKER {
        1
    } else {
        0
    }
}

/// Points awarded for a closed run of `len` cells.
pub open spec fn run_points(len: int) -> int {
    if len == 2 {
        1
    } else if len == 3 {
        3
    } else if len == 4 {
        5
    } else if len == 5 {
        7
    } else if len == 6 {
        9
    } else if len == 7 {
        10
    } else if len == 8 {
        15
    } else if len == 9 {
        20
    } else if len == 10 {
        25
    } else if len == 11 {
        30
    } else if len == 12 {
        20
    } else if len == 13 {
        40
    } else if len == 14 {
        50
    } else if len == 15 {
        60
    } else if len == 16 {
        70
    } else if len == 17 {
        50
    } else if len == 18 {
        100
    } else if len == 19 {
        150
    } else if len == 20 {
        300
    } else {
        0
    }
}

pub fn full_copies(card: u8) -> (n: u8)
    ensures
        n == copies(card as int),
{
    if 11 <= card && card <= 19 {
        2
    } else if (MIN_CARD <= card && card <= MAX_CARD) || card == JOKER {
        1
    } else {
        0
    }
}

pub fn points_for_run(len: usize) -> (p: i32)
    requires
        len <= BOARD_SIZE,
    ensures
        p == run_points(len as int),
        0 <= p <= 15 * len,
{
    let table: [i32; 21] = [
        0, 0, 1, 3, 5, 7, 9, 10, 15, 20, 25, 30, 20, 40, 50, 60, 70, 50, 100, 150, 300,
    ];
    table[len]
}

} // verus!

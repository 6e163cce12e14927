//! Counting over boards and decks as plain sequences.

use vstd::prelude::*;
use crate::cards::{copies, BOARD_SIZE, CARD_CODES, JOKER};

verus! {

/// Sum of the first `n` counters of `deck`.
pub open spec fn sum_upto(deck: Seq<u8>, n: int) -> int
    decreases n,
{
    if n <= 0 {
        0
    } else {
        sum_upto(deck, n - 1) + deck[n - 1]
    }
}

/// Number of cards left in `deck`: the sum of all its counters.
pub open spec fn deck_total(deck: Seq<u8>) -> int {
    sum_upto(deck, deck.len() as int)
}

/// Number of empty cells among the first `n` cells of `board`.
pub open spec fn empties_upto(board: Seq<u8>, n: int) -> int
    decreases n,
{
    if n <= 0 {
        0
    } else {
        empties_upto(board, n - 1) + if board[n - 1] == 0 { 1int } else { 0int }
    }
}

/// Number of empty cells of `board`.
pub open spec fn count_empty(board: Seq<u8>) -> int {
    empties_upto(board, board.len() as int)
}

/// Number of cells among the first `n` cells of `board` that hold `card`.
pub open spec fn occurrences_upto(board: Seq<u8>, card: int, n: int) -> int
    decreases n,
{
    if n <= 0 {
        0
    } else {
        occurrences_upto(board, card, n - 1) + if board[n - 1] == card { 1int } else { 0int }
    }
}

/// Number of cells of `board` that hold `card`.
pub open spec fn occurrences(board: Seq<u8>, card: int) -> int {
    occurrences_upto(board, card, board.len() as int)
}

/// Indices of the empty cells among the first `n` cells of `board`, ascending.
pub open spec fn empty_cells_upto(board: Seq<u8>, n: int) -> Seq<usize>
    decreases n,
{
    if n <= 0 {
        Seq::empty()
    } else if board[n - 1] == 0 {
        empty_cells_upto(board, n - 1).push((n - 1) as usize)
    } else {
        empty_cells_upto(board, n - 1)
    }
}

/// Indices of the empty cells of `board`, ascending.
pub open spec fn empty_cells(board: Seq<u8>) -> Seq<usize> {
    empty_cells_upto(board, board.len() as int)
}

/// Number of cards with a code below `n` in a full deck.
pub open spec fn full_upto(n: int) -> int
    decreases n,
{
    if n <= 0 {
        0
    } else {
        full_upto(n - 1) + copies(n - 1)
    }
}

/// A board that can be dealt from one deck: twenty cells, each empty or a
/// card code, and no card on it more often than the deck holds it.
pub open spec fn valid_board(board: Seq<u8>) -> bool {
    &&& board.len() == BOARD_SIZE
    &&& forall|i: int| 0 <= i < board.len() ==> board[i] <= JOKER
    &&& forall|card: int| 1 <= card <= JOKER ==> occurrences(board, card) <= copies(card)
}

pub proof fn lemma_empties_upto_bounds(board: Seq<u8>, n: int)
    requires
        0 <= n,
    ensures
        0 <= empties_upto(board, n) <= n,
    decreases n,
{
    if n > 0 {
        lemma_empties_upto_bounds(board, n - 1);
    }
}

/// The empty cells of a board number between none and all.
pub proof fn lemma_count_empty_bounds(board: Seq<u8>)
    ensures
        0 <= count_empty(board) <= board.len(),
{
    lemma_empties_upto_bounds(board, board.len() as int);
}

pub proof fn lemma_occurrences_upto_bounds(board: Seq<u8>, card: int, n: int)
    requires
        0 <= n,
    ensures
        0 <= occurrences_upto(board, card, n) <= n,
    decreases n,
{
    if n > 0 {
        lemma_occurrences_upto_bounds(board, card, n - 1);
    }
}

pub proof fn lemma_empties_upto_update(board: Seq<u8>, pos: int, v: u8, n: int)
    requires
        0 <= pos < board.len(),
        0 <= n <= board.len(),
    ensures
        empties_upto(board.update(pos, v), n) == empties_upto(board, n) + if pos < n {
            (if v == 0 { 1int } else { 0int }) - (if board[pos] == 0 { 1int } else { 0int })
        } else {
            0int
        },
    decreases n,
{
    if n > 0 {
        lemma_empties_upto_update(board, pos, v, n - 1);
    }
}

/// Filling an empty cell leaves one empty cell fewer; clearing an occupied
/// cell leaves one more.
pub proof fn lemma_count_empty_update(board: Seq<u8>, pos: int, v: u8)
    requires
        0 <= pos < board.len(),
    ensures
        count_empty(board.update(pos, v)) == count_empty(board) + (if v == 0 {
            1int
        } else {
            0int
        }) - (if board[pos] == 0 { 1int } else { 0int }),
{
    lemma_empties_upto_update(board, pos, v, board.len() as int);
}

pub proof fn lemma_sum_upto_update(deck: Seq<u8>, card: int, v: u8, n: int)
    requires
        0 <= card < deck.len(),
        0 <= n <= deck.len(),
    ensures
        sum_upto(deck.update(card, v), n) == sum_upto(deck, n) + if card < n {
            v - deck[card]
        } else {
            0
        },
    decreases n,
{
    if n > 0 {
        lemma_sum_upto_update(deck, card, v, n - 1);
    }
}

/// Changing one counter changes the total by the same amount.
pub proof fn lemma_deck_total_update(deck: Seq<u8>, card: int, v: u8)
    requires
        0 <= card < deck.len(),
    ensures
        deck_total(deck.update(card, v)) == deck_total(deck) + v - deck[card],
{
    lemma_sum_upto_update(deck, card, v, deck.len() as int);
}

pub proof fn lemma_sum_upto_monotonic(deck: Seq<u8>, m: int, n: int)
    requires
        m <= n,
    ensures
        0 <= sum_upto(deck, m) <= sum_upto(deck, n),
    decreases n - m, n,
{
    if m < n {
        lemma_sum_upto_monotonic(deck, m, n - 1);
    } else if m > 0 {
        lemma_sum_upto_monotonic(deck, m - 1, n - 1);
    }
}

/// A full deck holds forty cards.
pub proof fn lemma_full_deck_size()
    ensures
        full_upto(CARD_CODES as int) == 40,
{
    assert(full_upto(0) == 0);
    assert(full_upto(4) == 3) by {
        reveal_with_fuel(full_upto, 5);
    }
    assert(full_upto(8) == 7) by {
        reveal_with_fuel(full_upto, 5);
    }
    assert(full_upto(11) == 10) by {
        reveal_with_fuel(full_upto, 4);
    }
    assert(full_upto(15) == 18) by {
        reveal_with_fuel(full_upto, 5);
    }
    assert(full_upto(20) == 28) by {
        reveal_with_fuel(full_upto, 6);
    }
    assert(full_upto(24) == 32) by {
        reveal_with_fuel(full_upto, 5);
    }
    assert(full_upto(28) == 36) by {
        reveal_with_fuel(full_upto, 5);
    }
    assert(full_upto(32) == 40) by {
        reveal_with_fuel(full_upto, 5);
    }
}

/// A deck that holds no card more often than a full deck does is no larger
/// than a full deck.
pub proof fn lemma_sum_upto_within_full(deck: Seq<u8>, n: int)
    requires
        0 <= n <= deck.len(),
        forall|c: int| 0 <= c < deck.len() ==> deck[c] <= copies(c),
    ensures
        0 <= sum_upto(deck, n) <= full_upto(n),
    decreases n,
{
    if n > 0 {
        lemma_sum_upto_within_full(deck, n - 1);
    }
}

/// The number of copies of `card` that remain after dealing `taken` of them:
/// never fewer than none.
pub open spec fn copies_left(card: int, taken: int) -> int {
    if taken >= copies(card) {
        0
    } else {
        copies(card) - taken
    }
}

/// Whether `deck` is what a full deck holds once the first `n` cells of
/// `board` are dealt from it.
pub open spec fn dealt_upto(board: Seq<u8>, deck: Seq<u8>, n: int) -> bool {
    &&& deck.len() == CARD_CODES
    &&& deck[0] == 0
    &&& forall|c: int|
        1 <= c <= JOKER ==> deck[c] == copies_left(c, occurrences_upto(board, c, n))
}

/// What a full deck holds once `board` is dealt from it: of each card the
/// copies that exist less those on the board, and never fewer than none.
pub open spec fn dealt_deck(board: Seq<u8>) -> Seq<u8> {
    Seq::new(
        CARD_CODES as nat,
        |c: int|
            if c == 0 {
                0u8
            } else {
                copies_left(c, occurrences(board, c)) as u8
            },
    )
}

/// A dealt deck holds no card more often than a full deck does.
pub proof fn lemma_dealt_within_full(board: Seq<u8>, deck: Seq<u8>, n: int)
    requires
        0 <= n,
        dealt_upto(board, deck, n),
    ensures
        forall|c: int| 0 <= c < deck.len() ==> deck[c] <= copies(c),
{
    assert forall|c: int| 0 <= c < deck.len() implies deck[c] <= copies(c) by {
        lemma_occurrences_upto_bounds(board, c, n);
    }
}

proof fn lemma_dealt_at_least(board: Seq<u8>, deck: Seq<u8>, n: int, m: int)
    requires
        0 <= n <= board.len(),
        0 <= m <= CARD_CODES,
        dealt_upto(board, deck, n),
    ensures
        sum_upto(deck, m) >= full_upto(m) - cells_below(board, n, m),
    decreases m,
{
    if m > 0 {
        lemma_dealt_at_least(board, deck, n, m - 1);
    }
}

proof fn lemma_dealt_exactly(board: Seq<u8>, deck: Seq<u8>, n: int, m: int)
    requires
        0 <= n <= board.len(),
        0 <= m <= CARD_CODES,
        dealt_upto(board, deck, n),
        forall|c: int| 1 <= c <= JOKER ==> occurrences_upto(board, c, n) <= copies(c),
    ensures
        sum_upto(deck, m) == full_upto(m) - cells_below(board, n, m),
    decreases m,
{
    if m > 0 {
        lemma_dealt_exactly(board, deck, n, m - 1);
    }
}

/// Number of cells among the first `n` of `board` that hold a card with a
/// code from 1 to `m - 1`.
pub open spec fn cells_below(board: Seq<u8>, n: int, m: int) -> int
    decreases m,
{
    if m <= 1 {
        0
    } else {
        cells_below(board, n, m - 1) + occurrences_upto(board, m - 1, n)
    }
}

/// Counting the occupied cells card by card gives the number of cells that
/// are not empty.
pub proof fn lemma_cells_below_all(board: Seq<u8>, n: int, m: int)
    requires
        0 <= n <= board.len(),
        1 <= m,
    ensures
        cells_below(board, n, m) == n - empties_upto(board, n) - above_upto(board, m, n),
    decreases m, n,
{
    if m == 1 {
        lemma_above_upto_all(board, n);
    } else {
        lemma_cells_below_all(board, n, m - 1);
        lemma_above_split(board, m - 1, n);
    }
}

/// Number of cells among the first `n` of `board` whose code is `m` or more.
pub open spec fn above_upto(board: Seq<u8>, m: int, n: int) -> int
    decreases n,
{
    if n <= 0 {
        0
    } else {
        above_upto(board, m, n - 1) + if board[n - 1] >= m { 1int } else { 0int }
    }
}

pub proof fn lemma_above_upto_all(board: Seq<u8>, n: int)
    requires
        0 <= n <= board.len(),
    ensures
        above_upto(board, 1, n) == n - empties_upto(board, n),
    decreases n,
{
    if n > 0 {
        lemma_above_upto_all(board, n - 1);
    }
}

pub proof fn lemma_above_split(board: Seq<u8>, m: int, n: int)
    requires
        0 <= n <= board.len(),
    ensures
        above_upto(board, m, n) == above_upto(board, m + 1, n) + occurrences_upto(board, m, n),
    decreases n,
{
    if n > 0 {
        lemma_above_split(board, m, n - 1);
    }
}

pub proof fn lemma_above_upto_none(board: Seq<u8>, m: int, n: int)
    requires
        0 <= n <= board.len(),
        forall|i: int| 0 <= i < board.len() ==> board[i] < m,
    ensures
        above_upto(board, m, n) == 0,
    decreases n,
{
    if n > 0 {
        lemma_above_upto_none(board, m, n - 1);
    }
}

proof fn lemma_above_upto_bounds(board: Seq<u8>, m: int, n: int)
    requires
        0 <= n <= board.len(),
    ensures
        0 <= above_upto(board, m, n),
    decreases n,
{
    if n > 0 {
        lemma_above_upto_bounds(board, m, n - 1);
    }
}

/// Dealing a board of twenty cells from a full deck leaves at least forty
/// cards less one for each occupied cell, and exactly that many where the
/// board is valid.
pub proof fn lemma_dealt_deck_total(board: Seq<u8>)
    requires
        board.len() == BOARD_SIZE,
    ensures
        deck_total(dealt_deck(board)) >= 20 + count_empty(board),
        valid_board(board) ==> deck_total(dealt_deck(board)) == 20 + count_empty(board),
{
    let n = board.len() as int;
    let deck = dealt_deck(board);
    assert(dealt_upto(board, deck, n)) by {
        assert forall|c: int| 1 <= c <= JOKER implies deck[c] == copies_left(
            c,
            occurrences_upto(board, c, n),
        ) by {
            lemma_occurrences_upto_bounds(board, c, n);
        }
    }
    lemma_dealt_at_least(board, deck, n, 32);
    lemma_cells_below_all(board, n, 32);
    lemma_above_upto_bounds(board, 32, n);
    lemma_full_deck_size();
    if valid_board(board) {
        lemma_dealt_exactly(board, deck, n, 32);
        lemma_above_upto_none(board, 32, n);
    }
}

} // verus!

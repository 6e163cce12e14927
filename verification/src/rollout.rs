//! Random completion: fill the empty cells in board order with cards drawn
//! from what the deck still holds, and score the result.

use vstd::prelude::*;
use crate::cards::{copies, BOARD_SIZE, CARD_CODES, JOKER};
use crate::counting::{
    count_empty, deck_total, empties_upto, lemma_count_empty_update, lemma_deck_total_update,
    lemma_empties_upto_update, lemma_sum_upto_monotonic, sum_upto,
};
use crate::params::{Expectation, McParams, Outcome};
use crate::rng::{range_draw, scramble, SimpleRng};
use crate::score::{board_score, lemma_board_score_bound, score_cells};
use crate::state::GameState;

verus! {

/// The lowest card from `card` upwards whose cumulative count exceeds `idx`
/// (the wildcard where none does).
pub open spec fn first_above(deck: Seq<u8>, idx: int, card: int) -> int
    decreases JOKER - card,
{
    if card >= JOKER || sum_upto(deck, card + 1) > idx {
        card
    } else {
        first_above(deck, idx, card + 1)
    }
}

/// The card that index `idx` selects: with the cards of the deck laid out in
/// ascending order of value, the one at position `idx`.
pub open spec fn card_at(deck: Seq<u8>, idx: int) -> int {
    first_above(deck, idx, 1)
}

/// The cumulative counts around the selected card enclose the index, so the
/// deck holds at least one copy of it.
pub proof fn lemma_card_at_range(deck: Seq<u8>, idx: int)
    requires
        deck.len() == CARD_CODES,
        deck[0] == 0,
        0 <= idx < deck_total(deck),
    ensures
        1 <= card_at(deck, idx) <= JOKER,
        sum_upto(deck, card_at(deck, idx)) <= idx < sum_upto(deck, card_at(deck, idx) + 1),
        deck[card_at(deck, idx)] > 0,
{
    assert(sum_upto(deck, 1) == 0) by {
        reveal_with_fuel(sum_upto, 2);
    }
    lemma_first_above_range(deck, idx, 1);
}

proof fn lemma_first_above_range(deck: Seq<u8>, idx: int, card: int)
    requires
        deck.len() == CARD_CODES,
        1 <= card <= JOKER,
        sum_upto(deck, card) <= idx < deck_total(deck),
    ensures
        card <= first_above(deck, idx, card) <= JOKER,
        sum_upto(deck, first_above(deck, idx, card)) <= idx < sum_upto(
            deck,
            first_above(deck, idx, card) + 1,
        ),
    decreases JOKER - card,
{
    if card < JOKER && sum_upto(deck, card + 1) <= idx {
        lemma_first_above_range(deck, idx, card + 1);
    }
}

/// A board, the deck beside it and the generator state, as one completion
/// leaves them.
pub struct Filled {
    pub board: Seq<u8>,
    pub deck: Seq<u8>,
    pub rng: u64,
}

/// One completion from cell `pos` on: each empty cell takes the card
/// selected by a draw in `[0, cards left)`, which leaves the deck.
pub open spec fn fill_from(board: Seq<u8>, deck: Seq<u8>, rng: u64, pos: int) -> Filled
    decreases board.len() - pos,
{
    if pos < 0 || pos >= board.len() {
        Filled { board, deck, rng }
    } else if board[pos] != 0 {
        fill_from(board, deck, rng, pos + 1)
    } else {
        let card = card_at(deck, range_draw(rng, deck_total(deck) as u8) as int);
        fill_from(
            board.update(pos, card as u8),
            deck.update(card, (deck[card] - 1) as u8),
            scramble(rng),
            pos + 1,
        )
    }
}

/// The sum of the scores of `sims` completions made one after another, and
/// the generator state after the last.
pub open spec fn rollout_sum(board: Seq<u8>, deck: Seq<u8>, rng: u64, sims: int) -> Outcome
    decreases sims,
{
    if sims <= 0 {
        Outcome { num: 0, rng }
    } else {
        let before = rollout_sum(board, deck, rng, sims - 1);
        let filled = fill_from(board, deck, before.rng, 0);
        Outcome { num: before.num + board_score(filled.board), rng: filled.rng }
    }
}

/// A completion changes no cell count: the result is again a board of the
/// same length.
pub proof fn lemma_fill_from_len(board: Seq<u8>, deck: Seq<u8>, rng: u64, pos: int)
    ensures
        fill_from(board, deck, rng, pos).board.len() == board.len(),
    decreases board.len() - pos,
{
    if 0 <= pos < board.len() {
        if board[pos] != 0 {
            lemma_fill_from_len(board, deck, rng, pos + 1);
        } else {
            let card = card_at(deck, range_draw(rng, deck_total(deck) as u8) as int);
            lemma_fill_from_len(
                board.update(pos, card as u8),
                deck.update(card, (deck[card] - 1) as u8),
                scramble(rng),
                pos + 1,
            );
        }
    }
}

/// The sum of `sims` scores lies between 0 and `300 * sims`.
pub proof fn lemma_rollout_sum_bound(board: Seq<u8>, deck: Seq<u8>, rng: u64, sims: int)
    requires
        board.len() == BOARD_SIZE,
        0 <= sims,
    ensures
        0 <= rollout_sum(board, deck, rng, sims).num <= 300 * sims,
    decreases sims,
{
    if sims > 0 {
        lemma_rollout_sum_bound(board, deck, rng, sims - 1);
        let before = rollout_sum(board, deck, rng, sims - 1);
        lemma_fill_from_len(board, deck, before.rng, 0);
        lemma_board_score_bound(fill_from(board, deck, before.rng, 0).board);
    }
}

/// Selects the card at position `idx` of the deck laid out in ascending order.
pub fn pick_card(deck: &[u8; 32], idx: u8) -> (card: u8)
    requires
        deck@[0] == 0,
        idx < deck_total(deck@) <= u8::MAX,
    ensures
        card == card_at(deck@, idx as int),
        1 <= card <= JOKER,
        sum_upto(deck@, card as int) <= idx < sum_upto(deck@, card as int + 1),
        deck@[card as int] > 0,
{
    let mut acc: u8 = 0;
    let mut card: u8 = 1;
    proof {
        assert(sum_upto(deck@, 1) == 0) by {
            reveal_with_fuel(sum_upto, 2);
        }
        lemma_card_at_range(deck@, idx as int);
    }
    while card < JOKER
        invariant
            1 <= card <= JOKER,
            deck@.len() == CARD_CODES,
            acc == sum_upto(deck@, card as int),
            acc <= idx < deck_total(deck@) <= u8::MAX,
            first_above(deck@, idx as int, card as int) == card_at(deck@, idx as int),
        decreases JOKER - card,
    {
        let c: u8 = deck[card as usize];
        proof {
            lemma_sum_upto_monotonic(deck@, card as int + 1, CARD_CODES as int);
        }
        if acc + c > idx {
            return card;
        }
        acc = acc + c;
        card = card + 1;
    }
    card
}

/// Completes `board` once: every empty cell, in board order, takes a card
/// drawn from `deck`, which holds `deck_len` cards.
pub fn fill_board(
    board: &mut [u8; 20],
    deck: &mut [u8; 32],
    deck_len: u8,
    rng: &mut SimpleRng,
)
    requires
        old(deck)@[0] == 0,
        deck_len == deck_total(old(deck)@),
        count_empty(old(board)@) <= deck_len,
    ensures
        fill_from(old(board)@, old(deck)@, old(rng).state(), 0) == (Filled {
            board: final(board)@,
            deck: final(deck)@,
            rng: final(rng).state(),
        }),
        count_empty(final(board)@) == 0,
        forall|i: int|
            0 <= i < BOARD_SIZE && old(board)@[i] != 0 ==> final(board)@[i] == old(board)@[i],
        deck_total(final(deck)@) == deck_len - count_empty(old(board)@),
        forall|c: int| 0 <= c < CARD_CODES ==> final(deck)@[c] <= old(deck)@[c],
        old(rng).wf() ==> final(rng).wf(),
{
    let mut left: u8 = deck_len;
    let mut pos: usize = 0;
    while pos < BOARD_SIZE
        invariant
            0 <= pos <= BOARD_SIZE,
            deck@[0] == 0,
            left == deck_total(deck@),
            empties_upto(board@, pos as int) == 0,
            count_empty(board@) <= deck_total(deck@),
            count_empty(board@) + deck_len - left == count_empty(old(board)@),
            forall|i: int|
                0 <= i < BOARD_SIZE && old(board)@[i] != 0 ==> board@[i] == old(board)@[i],
            forall|i: int| pos <= i < BOARD_SIZE ==> board@[i] == old(board)@[i],
            forall|c: int| 0 <= c < CARD_CODES ==> deck@[c] <= old(deck)@[c],
            fill_from(old(board)@, old(deck)@, old(rng).state(), 0) == fill_from(
                board@,
                deck@,
                rng.state(),
                pos as int,
            ),
            old(rng).wf() ==> rng.wf(),
        decreases BOARD_SIZE - pos,
    {
        if board[pos] == 0 {
            proof {
                lemma_empties_upto_monotonic(board@, pos as int + 1, BOARD_SIZE as int);
            }
            let idx: u8 = rng.gen_range(left);
            let drawn: u8 = pick_card(deck, idx);
            proof {
                lemma_deck_total_update(
                    deck@,
                    drawn as int,
                    (deck@[drawn as int] - 1) as u8,
                );
                lemma_count_empty_update(board@, pos as int, drawn);
                lemma_empties_upto_update(board@, pos as int, drawn, pos as int + 1);
            }
            deck[drawn as usize] = deck[drawn as usize] - 1;
            left = left - 1;
            board[pos] = drawn;
        }
        pos = pos + 1;
    }
}

proof fn lemma_empties_upto_monotonic(board: Seq<u8>, m: int, n: int)
    requires
        0 <= m <= n,
    ensures
        empties_upto(board, m) <= empties_upto(board, n),
    decreases n - m,
{
    if m < n {
        lemma_empties_upto_monotonic(board, m, n - 1);
    }
}

/// The mean score of `p.sims` random completions of `st`, as the sum of the
/// scores over the number of completions. The state is only read.
pub fn rollout(st: &GameState, p: &McParams, rng: &mut SimpleRng) -> (e: Expectation)
    requires
        st.wf(),
        count_empty(st@.board) <= st.remaining(),
    ensures
        e.num == rollout_sum(st@.board, st@.deck, old(rng).state(), p.sims as int).num,
        final(rng).state() == rollout_sum(
            st@.board,
            st@.deck,
            old(rng).state(),
            p.sims as int,
        ).rng,
        e.den == p.sims,
        e.num <= 300 * e.den,
        old(rng).wf() ==> final(rng).wf(),
{
    let mut sum: u128 = 0;
    let mut t: usize = 0;
    while t < p.sims
        invariant
            0 <= t <= p.sims,
            st.wf(),
            count_empty(st@.board) <= st.remaining(),
            (Outcome { num: sum as int, rng: rng.state() }) == rollout_sum(
                st@.board,
                st@.deck,
                old(rng).state(),
                t as int,
            ),
            sum <= 300 * t,
            old(rng).wf() ==> rng.wf(),
        decreases p.sims - t,
    {
        let mut board: [u8; 20] = st.board();
        let mut deck: [u8; 32] = st.deck_counts();
        assert(deck@[0] <= copies(0));
        fill_board(&mut board, &mut deck, st.deck_len(), rng);
        let score: i32 = score_cells(&board);
        sum = sum + score as u128;
        t = t + 1;
    }
    Expectation { num: sum, den: p.sims as u128 }
}

} // verus!

//! Properties of the search that hold for every board, deck and generator.

use vstd::prelude::*;
use crate::cards::{copies, BOARD_SIZE, CARD_CODES, JOKER};
use crate::counting::{
    count_empty, deck_total, lemma_count_empty_bounds, lemma_count_empty_update,
    lemma_deck_total_update, lemma_sum_upto_monotonic, sum_upto,
};
use crate::params::{McParams, Outcome};
use crate::rollout::lemma_rollout_sum_bound;
use crate::score::{board_score, lemma_board_score_bound};
use crate::search::{
    after_draw, before_draw, draws, draws_left, ev_scale, lemma_ev_scale_nonnegative,
    lemma_sum_step, never_samples, placements,
};
use crate::state::GameState;

verus! {

/// The sum of the draw weights of the cards `1..=upto`: the count of each
/// card that can be drawn.
pub open spec fn draw_weights(deck: Seq<u8>, upto: int) -> int
    decreases upto,
{
    if upto <= 0 {
        0
    } else {
        draw_weights(deck, upto - 1) + if deck[upto] != 0 {
            deck[upto] as int
        } else {
            0
        }
    }
}

/// On a board with no empty cell the value is the score itself, over the
/// denominator 1, and the generator is not touched: no draw and no sample
/// enters.
pub proof fn lemma_full_board_value(
    board: Seq<u8>,
    deck: Seq<u8>,
    p: McParams,
    rng: u64,
    level: int,
)
    requires
        count_empty(board) == 0,
    ensures
        before_draw(board, deck, p, rng, level) == (Outcome { num: board_score(board), rng }),
        ev_scale(deck_total(deck), count_empty(board), p, level) == 1,
{
}

/// The probabilities with which the cards are drawn add up to one: the
/// weights of all cards that can be drawn sum to the number of undrawn
/// cards, which is the denominator of each probability.
pub proof fn lemma_draw_weights_total(st: GameState)
    requires
        st.wf(),
    ensures
        draw_weights(st@.deck, JOKER as int) == st.remaining(),
{
    assert(st@.deck[0] <= copies(0));
    lemma_draw_weights_upto(st@.deck, JOKER as int);
}

proof fn lemma_draw_weights_upto(deck: Seq<u8>, upto: int)
    requires
        deck.len() == CARD_CODES,
        0 <= upto <= JOKER,
    ensures
        draw_weights(deck, upto) == sum_upto(deck, upto + 1) - deck[0],
        0 <= draw_weights(deck, upto) <= deck_total(deck),
    decreases upto,
{
    if upto > 0 {
        lemma_draw_weights_upto(deck, upto - 1);
    } else {
        reveal_with_fuel(sum_upto, 2);
    }
    lemma_sum_upto_monotonic(deck, upto + 1, CARD_CODES as int);
}

/// Every value lies between 0 and 300: the numerator is never negative and
/// never more than 300 times the denominator.
pub proof fn lemma_value_bounds(board: Seq<u8>, deck: Seq<u8>, p: McParams, rng: u64, level: int)
    requires
        board.len() == BOARD_SIZE,
        deck.len() == CARD_CODES,
    ensures
        0 <= before_draw(board, deck, p, rng, level).num <= 300 * ev_scale(
            deck_total(deck),
            count_empty(board),
            p,
            level,
        ),
    decreases count_empty(board), 2int, 0int,
{
    if deck_total(deck) <= 0 || count_empty(board) <= 0 {
        lemma_board_score_bound(board);
    } else if level >= p.rollout_limit {
        lemma_rollout_sum_bound(board, deck, rng, p.sims as int);
    } else {
        let below = ev_scale(deck_total(deck) - 1, count_empty(board) - 1, p, level + 1);
        lemma_ev_scale_nonnegative(deck_total(deck) - 1, count_empty(board) - 1, p, level + 1);
        lemma_draws_bound(board, deck, p, rng, level, JOKER as int);
        lemma_draw_weights_upto(deck, JOKER as int);
        lemma_sum_step(
            draws(board, deck, p, rng, level, JOKER as int).num,
            draw_weights(deck, JOKER as int),
            0,
            0,
            below,
            deck_total(deck),
        );
    }
}

proof fn lemma_draws_bound(
    board: Seq<u8>,
    deck: Seq<u8>,
    p: McParams,
    rng: u64,
    level: int,
    upto: int,
)
    requires
        board.len() == BOARD_SIZE,
        deck.len() == CARD_CODES,
        0 <= upto <= JOKER,
        1 <= count_empty(board),
    ensures
        0 <= draws(board, deck, p, rng, level, upto).num <= 300 * ev_scale(
            deck_total(deck) - 1,
            count_empty(board) - 1,
            p,
            level + 1,
        ) * draw_weights(deck, upto),
    decreases count_empty(board), 1int, upto,
{
    let below = ev_scale(deck_total(deck) - 1, count_empty(board) - 1, p, level + 1);
    lemma_ev_scale_nonnegative(deck_total(deck) - 1, count_empty(board) - 1, p, level + 1);
    if upto > 0 {
        lemma_draws_bound(board, deck, p, rng, level, upto - 1);
        lemma_draw_weights_upto(deck, upto - 1);
        lemma_draw_weights_upto(deck, upto);
        let before = draws(board, deck, p, rng, level, upto - 1);
        if deck[upto] != 0 {
            let drawn = deck.update(upto, (deck[upto] - 1) as u8);
            lemma_deck_total_update(deck, upto, (deck[upto] - 1) as u8);
            lemma_placements_bound(
                board,
                drawn,
                upto as u8,
                p,
                before.rng,
                level,
                board.len() as int,
            );
            let child = after_draw(board, drawn, upto as u8, p, before.rng, level);
            assert(child == placements(
                board,
                drawn,
                upto as u8,
                p,
                before.rng,
                level,
                board.len() as int,
            ));
            lemma_sum_step(
                before.num,
                draw_weights(deck, upto - 1),
                deck[upto] as int,
                child.num,
                below,
                deck_total(deck),
            );
        }
    } else {
        assert(300 * below * 0 == 0);
    }
}

proof fn lemma_placements_bound(
    board: Seq<u8>,
    deck: Seq<u8>,
    card: u8,
    p: McParams,
    rng: u64,
    level: int,
    upto: int,
)
    requires
        board.len() == BOARD_SIZE,
        deck.len() == CARD_CODES,
        0 <= upto <= board.len(),
        1 <= count_empty(board),
    ensures
        0 <= placements(board, deck, card, p, rng, level, upto).num <= 300 * ev_scale(
            deck_total(deck),
            count_empty(board) - 1,
            p,
            level + 1,
        ),
    decreases count_empty(board), 0int, upto,
{
    lemma_ev_scale_nonnegative(deck_total(deck), count_empty(board) - 1, p, level + 1);
    if upto > 0 {
        lemma_placements_bound(board, deck, card, p, rng, level, upto - 1);
        if board[upto - 1] == 0 && card != 0 {
            let before = placements(board, deck, card, p, rng, level, upto - 1);
            lemma_count_empty_update(board, upto - 1, card);
            lemma_count_empty_bounds(board.update(upto - 1, card));
            lemma_value_bounds(board.update(upto - 1, card), deck, p, before.rng, level + 1);
        }
    }
}

/// Where the search never samples, its value does not depend on the
/// generator and the generator is left as it was: two runs from the same
/// state give the same value whatever the generators hold.
pub proof fn lemma_exact_ignores_generator(
    board: Seq<u8>,
    deck: Seq<u8>,
    p: McParams,
    a: u64,
    b: u64,
    level: int,
)
    requires
        board.len() == BOARD_SIZE,
        deck.len() == CARD_CODES,
        never_samples(deck_total(deck), count_empty(board), p, level),
    ensures
        before_draw(board, deck, p, a, level).num == before_draw(board, deck, p, b, level).num,
        before_draw(board, deck, p, a, level).rng == a,
        before_draw(board, deck, p, b, level).rng == b,
    decreases count_empty(board), 2int, 0int,
{
    if deck_total(deck) > 0 && count_empty(board) > 0 {
        lemma_draws_exact(board, deck, p, a, b, level, JOKER as int);
    }
}

proof fn lemma_draws_exact(
    board: Seq<u8>,
    deck: Seq<u8>,
    p: McParams,
    a: u64,
    b: u64,
    level: int,
    upto: int,
)
    requires
        board.len() == BOARD_SIZE,
        deck.len() == CARD_CODES,
        0 <= upto <= JOKER,
        1 <= draws_left(deck_total(deck), count_empty(board)),
        level + draws_left(deck_total(deck), count_empty(board)) <= p.rollout_limit,
    ensures
        draws(board, deck, p, a, level, upto).num == draws(board, deck, p, b, level, upto).num,
        draws(board, deck, p, a, level, upto).rng == a,
        draws(board, deck, p, b, level, upto).rng == b,
    decreases count_empty(board), 1int, upto,
{
    if upto > 0 {
        lemma_draws_exact(board, deck, p, a, b, level, upto - 1);
        if deck[upto] != 0 {
            let drawn = deck.update(upto, (deck[upto] - 1) as u8);
            lemma_deck_total_update(deck, upto, (deck[upto] - 1) as u8);
            lemma_placements_exact(board, drawn, upto as u8, p, a, b, level, board.len() as int);
            assert(after_draw(board, drawn, upto as u8, p, a, level) == placements(
                board,
                drawn,
                upto as u8,
                p,
                a,
                level,
                board.len() as int,
            ));
            assert(after_draw(board, drawn, upto as u8, p, b, level) == placements(
                board,
                drawn,
                upto as u8,
                p,
                b,
                level,
                board.len() as int,
            ));
        }
    }
}

proof fn lemma_placements_exact(
    board: Seq<u8>,
    deck: Seq<u8>,
    card: u8,
    p: McParams,
    a: u64,
    b: u64,
    level: int,
    upto: int,
)
    requires
        board.len() == BOARD_SIZE,
        deck.len() == CARD_CODES,
        0 <= upto <= board.len(),
        1 <= count_empty(board),
        never_samples(deck_total(deck), count_empty(board) - 1, p, level + 1),
    ensures
        placements(board, deck, card, p, a, level, upto).num == placements(
            board,
            deck,
            card,
            p,
            b,
            level,
            upto,
        ).num,
        placements(board, deck, card, p, a, level, upto).rng == a,
        placements(board, deck, card, p, b, level, upto).rng == b,
    decreases count_empty(board), 0int, upto,
{
    if upto > 0 {
        lemma_placements_exact(board, deck, card, p, a, b, level, upto - 1);
        if board[upto - 1] == 0 && card != 0 {
            lemma_count_empty_update(board, upto - 1, card);
            lemma_count_empty_bounds(board.update(upto - 1, card));
            lemma_exact_ignores_generator(board.update(upto - 1, card), deck, p, a, b, level + 1);
        }
    }
}

} // verus!

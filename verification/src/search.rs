//! The exact expectation: the average over the next draw of the best
//! placement of the drawn card, down to a full board, an empty deck, or the
//! depth at which random completions take over.
//!
//! Every branch below one state reaches its leaves at the same depth, so all
//! values at one state share a denominator. The search therefore works on
//! numerators alone and is exact.

use vstd::prelude::*;
use crate::cards::{copies, BOARD_SIZE, CARD_CODES, JOKER};
use crate::counting::{
    count_empty, deck_total, empties_upto, lemma_count_empty_bounds, lemma_count_empty_update,
    lemma_sum_upto_monotonic, sum_upto,
};
use crate::params::{Expectation, McParams, Outcome};
use crate::rng::SimpleRng;
use crate::rollout::{rollout, rollout_sum};
use crate::score::board_score;
use crate::state::{lemma_state_eq, GameState};

verus! {

/// The denominator shared by all values at a state with `remaining` undrawn
/// cards and `empties` empty cells, reached at depth `level`: 1 at a leaf,
/// the sample count where random completions take over, and otherwise the
/// number of cards that can be drawn times the denominator one level down.
pub open spec fn ev_scale(remaining: int, empties: int, p: McParams, level: int) -> int
    decreases empties,
{
    if remaining <= 0 || empties <= 0 {
        1
    } else if level >= p.rollout_limit {
        p.sims as int
    } else {
        remaining * ev_scale(remaining - 1, empties - 1, p, level + 1)
    }
}

/// The number of draws that can still follow from a state with `remaining`
/// undrawn cards and `empties` empty cells: one for each empty cell, as long
/// as the deck lasts.
pub open spec fn draws_left(remaining: int, empties: int) -> int {
    if empties <= remaining {
        empties
    } else {
        remaining
    }
}

/// Whether the search from such a state at depth `level` ends at full boards
/// or an empty deck before it reaches the depth at which it would sample.
pub open spec fn never_samples(remaining: int, empties: int, p: McParams, level: int) -> bool {
    draws_left(remaining, empties) <= 0 || level + draws_left(remaining, empties)
        <= p.rollout_limit
}

/// Whether every state that the search samples from has a card for each of
/// its empty cells: the deck is large enough now, and then stays so, or the
/// search never samples.
pub open spec fn fillable(remaining: int, empties: int, p: McParams, level: int) -> bool {
    empties <= remaining || never_samples(remaining, empties, p, level)
}

/// The larger of two numerators.
pub open spec fn larger(a: int, b: int) -> int {
    if a >= b {
        a
    } else {
        b
    }
}

/// Value before a draw, as a numerator over `ev_scale`: the score at a full
/// board or an empty deck, the sum of sampled scores at the depth limit, and
/// otherwise the count-weighted sum over the cards that can be drawn.
pub open spec fn before_draw(
    board: Seq<u8>,
    deck: Seq<u8>,
    p: McParams,
    rng: u64,
    level: int,
) -> Outcome
    decreases count_empty(board), 2int, 0int,
{
    if deck_total(deck) <= 0 || count_empty(board) <= 0 {
        Outcome { num: board_score(board), rng }
    } else if level >= p.rollout_limit {
        rollout_sum(board, deck, rng, p.sims as int)
    } else {
        draws(board, deck, p, rng, level, JOKER as int)
    }
}

/// The part of the weighted sum contributed by the cards `1..=upto`: each
/// card still in the deck adds its count times the value after drawing it.
pub open spec fn draws(
    board: Seq<u8>,
    deck: Seq<u8>,
    p: McParams,
    rng: u64,
    level: int,
    upto: int,
) -> Outcome
    decreases count_empty(board), 1int, upto,
{
    if upto <= 0 {
        Outcome { num: 0, rng }
    } else {
        let before = draws(board, deck, p, rng, level, upto - 1);
        if deck[upto] == 0 {
            before
        } else {
            let child = after_draw(
                board,
                deck.update(upto, (deck[upto] - 1) as u8),
                upto as u8,
                p,
                before.rng,
                level,
            );
            Outcome { num: before.num + deck[upto] * child.num, rng: child.rng }
        }
    }
}

/// Value after drawing `card`: the best over all empty cells of the value
/// before the next draw with the card placed there.
pub open spec fn after_draw(
    board: Seq<u8>,
    deck: Seq<u8>,
    card: u8,
    p: McParams,
    rng: u64,
    level: int,
) -> Outcome
    decreases count_empty(board), 1int, 0int,
{
    placements(board, deck, card, p, rng, level, board.len() as int)
}

/// The best value over the empty cells among the first `upto` cells.
pub open spec fn placements(
    board: Seq<u8>,
    deck: Seq<u8>,
    card: u8,
    p: McParams,
    rng: u64,
    level: int,
    upto: int,
) -> Outcome
    decreases count_empty(board), 0int, upto,
{
    if upto <= 0 {
        Outcome { num: 0, rng }
    } else {
        let before = placements(board, deck, card, p, rng, level, upto - 1);
        if upto > board.len() || board[upto - 1] != 0 || card == 0 {
            before
        } else {
            proof {
                lemma_count_empty_update(board, upto - 1, card);
                lemma_count_empty_bounds(board.update(upto - 1, card));
            }
            let child = before_draw(board.update(upto - 1, card), deck, p, before.rng, level + 1);
            Outcome { num: larger(before.num, child.num), rng: child.rng }
        }
    }
}

/// A denominator is never negative.
pub proof fn lemma_ev_scale_nonnegative(remaining: int, empties: int, p: McParams, level: int)
    ensures
        0 <= ev_scale(remaining, empties, p, level),
    decreases empties,
{
    if remaining > 0 && empties > 0 && level < p.rollout_limit {
        lemma_ev_scale_nonnegative(remaining - 1, empties - 1, p, level + 1);
        let below = ev_scale(remaining - 1, empties - 1, p, level + 1);
        assert(0 <= remaining * below) by (nonlinear_arith)
            requires
                0 <= remaining,
                0 <= below,
        ;
    }
}

/// With at least one sample per approximation every denominator is positive.
pub proof fn lemma_ev_scale_positive(remaining: int, empties: int, p: McParams, level: int)
    requires
        p.sims > 0,
    ensures
        1 <= ev_scale(remaining, empties, p, level),
    decreases empties,
{
    if remaining > 0 && empties > 0 && level < p.rollout_limit {
        lemma_ev_scale_positive(remaining - 1, empties - 1, p, level + 1);
        let below = ev_scale(remaining - 1, empties - 1, p, level + 1);
        assert(1 <= remaining * below) by (nonlinear_arith)
            requires
                1 <= remaining,
                1 <= below,
        ;
    }
}

/// A search that goes at most one level deep over a deck of at most forty
/// cards has a denominator of at most forty times the sample count, which
/// always fits.
pub proof fn lemma_shallow_scale_bound(remaining: int, empties: int, p: McParams, level: int)
    requires
        remaining <= 40,
        p.rollout_limit <= level + 1,
    ensures
        0 <= ev_scale(remaining, empties, p, level),
        300 * ev_scale(remaining, empties, p, level) <= u128::MAX,
{
    lemma_ev_scale_nonnegative(remaining, empties, p, level);
    if remaining > 0 && empties > 0 && level < p.rollout_limit {
        let below = ev_scale(remaining - 1, empties - 1, p, level + 1);
        assert(below == 1 || below == p.sims);
        assert(remaining * below <= 40 * usize::MAX) by (nonlinear_arith)
            requires
                0 < remaining <= 40,
                0 <= below <= usize::MAX,
        ;
    }
}

/// The denominator one level down is no larger than the one above it.
proof fn lemma_scale_step(remaining: int, below: int)
    by (nonlinear_arith)
    requires
        1 <= remaining,
        0 <= below,
    ensures
        300 * below <= 300 * (remaining * below),
{
}

/// Adding one card's share keeps the running sum within the share of the
/// cards counted so far.
pub proof fn lemma_sum_step(
    sum: int,
    counted: int,
    cnt: int,
    child: int,
    below: int,
    remaining: int,
)
    by (nonlinear_arith)
    requires
        0 <= sum <= 300 * below * counted,
        0 <= child <= 300 * below,
        0 <= cnt,
        0 <= counted,
        counted + cnt <= remaining,
        0 <= below,
    ensures
        cnt * child <= 300 * (remaining * below),
        sum + cnt * child <= 300 * below * (counted + cnt),
        sum + cnt * child <= 300 * (remaining * below),
{
}

/// The conditions under which `ev_before_draw` can evaluate a state: no
/// sample runs out of cards, and the largest numerator that can arise, 300
/// times the denominator, fits in 128 bits.
pub open spec fn evaluable(st: GameState, p: McParams, level: int) -> bool {
    &&& fillable(st.remaining(), count_empty(st@.board), p, level)
    &&& 300 * ev_scale(st.remaining(), count_empty(st@.board), p, level) <= u128::MAX
}

/// Computes the denominator `ev_scale`, or `None` where it exceeds 128 bits.
pub fn checked_scale(remaining: u8, empties: usize, p: &McParams, level: usize) -> (r: Option<
    u128,
>)
    ensures
        match r {
            Some(d) => d == ev_scale(remaining as int, empties as int, *p, level as int),
            None => ev_scale(remaining as int, empties as int, *p, level as int) > u128::MAX,
        },
    decreases empties,
{
    if remaining == 0 || empties == 0 {
        Some(1)
    } else if level >= p.rollout_limit {
        Some(p.sims as u128)
    } else {
        match checked_scale(remaining - 1, empties - 1, p, level + 1) {
            None => {
                proof {
                    let below = ev_scale(
                        remaining as int - 1,
                        empties as int - 1,
                        *p,
                        level as int + 1,
                    );
                    assert(remaining * below >= below) by (nonlinear_arith)
                        requires
                            1 <= remaining,
                            0 <= below,
                    ;
                }
                None
            },
            Some(below) => (remaining as u128).checked_mul(below),
        }
    }
}

/// Tells whether `ev_before_draw` can evaluate `st` at depth `level`.
pub fn can_evaluate(st: &GameState, p: &McParams, level: usize) -> (ok: bool)
    ensures
        ok == evaluable(*st, *p, level as int),
{
    let empties: usize = st.empty_count();
    let remaining: u8 = st.deck_len();
    if empties > remaining as usize && remaining > 0 {
        if level > p.rollout_limit || p.rollout_limit - level < remaining as usize {
            return false;
        }
    }
    match checked_scale(remaining, empties, p, level) {
        None => false,
        Some(d) => d <= u128::MAX / 300,
    }
}

/// The expected final score of `st` before the next draw, at depth `level`.
///
/// The value is `num / den`. The state is explored in place and handed back
/// exactly as it was received.
pub fn ev_before_draw(
    st: &mut GameState,
    p: &McParams,
    rng: &mut SimpleRng,
    level: usize,
) -> (e: Expectation)
    requires
        old(st).wf(),
        evaluable(*old(st), *p, level as int),
    ensures
        *final(st) == *old(st),
        e.num == before_draw(
            old(st)@.board,
            old(st)@.deck,
            *p,
            old(rng).state(),
            level as int,
        ).num,
        final(rng).state() == before_draw(
            old(st)@.board,
            old(st)@.deck,
            *p,
            old(rng).state(),
            level as int,
        ).rng,
        e.den == ev_scale(old(st).remaining(), count_empty(old(st)@.board), *p, level as int),
        e.num <= 300 * e.den,
        old(rng).wf() ==> final(rng).wf(),
    decreases count_empty(old(st)@.board), 1int,
{
    let empties: usize = st.empty_count();
    let deck_len: u8 = st.deck_len();
    if deck_len == 0 || empties == 0 {
        let score: i32 = st.score();
        return Expectation { num: score as u128, den: 1 };
    }
    if level >= p.rollout_limit {
        return rollout(st, p, rng);
    }
    let ghost board = st@.board;
    let ghost deck = st@.deck;
    let ghost seed = rng.state();
    let ghost below = ev_scale(deck_len as int - 1, empties as int - 1, *p, level as int + 1);
    proof {
        lemma_ev_scale_nonnegative(deck_len as int - 1, empties as int - 1, *p, level as int + 1);
        lemma_scale_step(deck_len as int, below);
        assert(sum_upto(deck, 1) == 0) by {
            reveal_with_fuel(sum_upto, 2);
            assert(deck[0] <= copies(0));
        }
    }
    let mut num: u128 = 0;
    let mut den: u128 = 0;
    let mut card: u8 = 1;
    while card <= JOKER
        invariant
            1 <= card <= JOKER + 1,
            *st == *old(st),
            st.wf(),
            board == st@.board,
            deck == st@.deck,
            deck_len == st.remaining(),
            empties == count_empty(board),
            1 <= empties,
            1 <= deck_len,
            fillable(deck_len as int, empties as int, *p, level as int),
            level < p.rollout_limit,
            below == ev_scale(deck_len as int - 1, empties as int - 1, *p, level as int + 1),
            0 <= below,
            300 * below <= 300 * (deck_len * below) <= u128::MAX,
            (Outcome { num: num as int, rng: rng.state() }) == draws(
                board,
                deck,
                *p,
                seed,
                level as int,
                card as int - 1,
            ),
            num <= 300 * below * sum_upto(deck, card as int),
            0 <= sum_upto(deck, card as int) <= deck_len,
            sum_upto(deck, card as int) > 0 ==> den == below,
            old(rng).wf() ==> rng.wf(),
        decreases JOKER + 1 - card,
    {
        let cnt: u8 = st.deck_count(card);
        proof {
            lemma_sum_upto_monotonic(deck, card as int + 1, CARD_CODES as int);
        }
        if cnt != 0 {
            st.draw(card);
            let child: Expectation = ev_after_draw(st, card, p, rng, level);
            proof {
                lemma_sum_step(
                    num as int,
                    sum_upto(deck, card as int),
                    cnt as int,
                    child.num as int,
                    below,
                    deck_len as int,
                );
            }
            num = num + (cnt as u128) * child.num;
            den = child.den;
            st.undraw(card);
            proof {
                lemma_state_eq(*st, *old(st));
            }
        }
        card = card + 1;
    }
    proof {
        let total = sum_upto(deck, CARD_CODES as int);
        assert(300 * below * total == 300 * (total * below)) by (nonlinear_arith);
    }
    Expectation { num, den: (deck_len as u128) * den }
}

/// The expected final score of `st` once `card` has been drawn: the best
/// over all empty cells of the value with the card placed there.
///
/// `st` is the state with the card already out of the deck. It is handed
/// back exactly as it was received.
pub fn ev_after_draw(
    st: &mut GameState,
    card: u8,
    p: &McParams,
    rng: &mut SimpleRng,
    level: usize,
) -> (e: Expectation)
    requires
        old(st).wf(),
        1 <= card <= JOKER,
        1 <= count_empty(old(st)@.board),
        fillable(old(st).remaining(), count_empty(old(st)@.board) - 1, *p, level as int + 1),
        level < usize::MAX,
        300 * ev_scale(
            old(st).remaining(),
            count_empty(old(st)@.board) - 1,
            *p,
            level as int + 1,
        ) <= u128::MAX,
    ensures
        *final(st) == *old(st),
        e.num == after_draw(
            old(st)@.board,
            old(st)@.deck,
            card,
            *p,
            old(rng).state(),
            level as int,
        ).num,
        final(rng).state() == after_draw(
            old(st)@.board,
            old(st)@.deck,
            card,
            *p,
            old(rng).state(),
            level as int,
        ).rng,
        e.den == ev_scale(
            old(st).remaining(),
            count_empty(old(st)@.board) - 1,
            *p,
            level as int + 1,
        ),
        e.num <= 300 * e.den,
        old(rng).wf() ==> final(rng).wf(),
    decreases count_empty(old(st)@.board), 0int,
{
    let ghost board = st@.board;
    let ghost deck = st@.deck;
    let ghost seed = rng.state();
    let ghost below = ev_scale(st.remaining(), count_empty(board) - 1, *p, level as int + 1);
    let mut best: u128 = 0;
    let mut den: u128 = 0;
    let mut pos: usize = 0;
    while pos < BOARD_SIZE
        invariant
            0 <= pos <= BOARD_SIZE,
            *st == *old(st),
            st.wf(),
            board == st@.board,
            deck == st@.deck,
            1 <= card <= JOKER,
            1 <= count_empty(board),
            fillable(st.remaining(), count_empty(board) - 1, *p, level as int + 1),
            level < usize::MAX,
            below == ev_scale(st.remaining(), count_empty(board) - 1, *p, level as int + 1),
            300 * below <= u128::MAX,
            (Outcome { num: best as int, rng: rng.state() }) == placements(
                board,
                deck,
                card,
                *p,
                seed,
                level as int,
                pos as int,
            ),
            best <= 300 * below || empties_upto(board, pos as int) == 0,
            empties_upto(board, pos as int) == 0 ==> best == 0,
            empties_upto(board, pos as int) > 0 ==> den == below,
            0 <= empties_upto(board, pos as int),
            old(rng).wf() ==> rng.wf(),
        decreases BOARD_SIZE - pos,
    {
        if st.cell(pos) == 0 {
            st.place(pos, card);
            let child: Expectation = ev_before_draw(st, p, rng, level + 1);
            if child.num > best {
                best = child.num;
            }
            den = child.den;
            st.remove(pos);
            proof {
                lemma_state_eq(*st, *old(st));
            }
        }
        pos = pos + 1;
    }
    Expectation { num: best, den }
}

} // verus!

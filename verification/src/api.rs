//! Entry points that take a board as text.

use vstd::prelude::*;
use crate::cards::BOARD_SIZE;
use crate::counting::{
    count_empty, dealt_deck, deck_total, lemma_count_empty_bounds, lemma_count_empty_update,
};
use crate::params::{Expectation, McParams, Outcome};
use crate::parse::{board_from_str, parsed_board};
use crate::rng::SimpleRng;
use crate::score::board_score;
use crate::search::{
    before_draw, ev_before_draw, ev_scale, lemma_ev_scale_positive, lemma_shallow_scale_bound,
};
use crate::state::{lemma_deck_total_bound, lemma_state_eq, GameState};

verus! {

/// The parameters the entry points search with: `sims` samples, and random
/// completion from depth 1 on.
pub open spec fn entry_params(sims: usize) -> McParams {
    McParams { sims, rollout_limit: 1 }
}

/// The value of the board `cells` dealt from a full deck, as a numerator,
/// with the generator starting in state `seed`.
pub open spec fn board_value(cells: Seq<u8>, sims: usize, seed: u64) -> Outcome {
    before_draw(cells, dealt_deck(cells), entry_params(sims), seed, 0)
}

/// The denominator that goes with `board_value`.
pub open spec fn board_scale(cells: Seq<u8>, sims: usize) -> int {
    ev_scale(deck_total(dealt_deck(cells)), count_empty(cells), entry_params(sims), 0)
}

/// Numerators cell by cell, and the generator state after the last cell.
pub struct CellOutcomes {
    pub nums: Seq<int>,
    pub rng: u64,
}

/// The values of the first `upto` cells with `card` placed on each in turn:
/// zero for an occupied cell, and for an empty one the value of the board
/// with the card there. The card stays in the deck.
pub open spec fn cell_values(
    cells: Seq<u8>,
    deck: Seq<u8>,
    card: u8,
    p: McParams,
    rng: u64,
    upto: int,
) -> CellOutcomes
    decreases upto,
{
    if upto <= 0 {
        CellOutcomes { nums: Seq::empty(), rng }
    } else {
        let before = cell_values(cells, deck, card, p, rng, upto - 1);
        if cells[upto - 1] != 0 {
            CellOutcomes { nums: before.nums.push(0), rng: before.rng }
        } else {
            let value = before_draw(cells.update(upto - 1, card), deck, p, before.rng, 0);
            CellOutcomes { nums: before.nums.push(value.num), rng: value.rng }
        }
    }
}

/// The numerators of the values of all twenty cells of a board dealt from a
/// full deck, with the generator starting in state `seed`.
pub open spec fn cell_numerators(cells: Seq<u8>, card: u8, sims: usize, seed: u64) -> Seq<int> {
    cell_values(
        cells,
        dealt_deck(cells),
        card,
        entry_params(sims),
        seed,
        BOARD_SIZE as int,
    ).nums
}

/// The numerators of a sequence of fractions.
pub open spec fn numerators(vals: Seq<Expectation>) -> Seq<int> {
    Seq::new(vals.len(), |i: int| vals[i].num as int)
}

/// The denominator of the value of cell `pos` with `card` placed on it.
pub open spec fn cell_scale(cells: Seq<u8>, card: u8, sims: usize, pos: int) -> int {
    if cells[pos] != 0 {
        1
    } else {
        ev_scale(
            deck_total(dealt_deck(cells)),
            count_empty(cells.update(pos, card)),
            entry_params(sims),
            0,
        )
    }
}

/// The expected final score of the board that `board` spells, sampling with `rng`.
pub fn expected_value_with_rng(board: &str, sims: usize, rng: &mut SimpleRng) -> (r: Result<
    Expectation,
    String,
>)
    ensures
        match r {
            Ok(e) => {
                &&& parsed_board(board@) matches Ok(cells)
                &&& e.num == board_value(cells, sims, old(rng).state()).num
                &&& e.den == board_scale(cells, sims)
                &&& final(rng).state() == board_value(cells, sims, old(rng).state()).rng
                &&& e.num <= 300 * e.den
                &&& count_empty(cells) == 0 ==> e.num == board_score(cells) && e.den == 1
            },
            Err(msg) => parsed_board(board@) == Err::<Seq<u8>, Seq<char>>(msg@) && *final(rng)
                == *old(rng),
        },
        old(rng).wf() ==> final(rng).wf(),
{
    let cells: [u8; 20] = match board_from_str(board) {
        Ok(cells) => cells,
        Err(msg) => {
            return Err(msg);
        },
    };
    let mut st: GameState = GameState::new(cells);
    let p: McParams = McParams { sims, rollout_limit: McParams::default().rollout_limit };
    proof {
        lemma_count_empty_bounds(cells@);
        lemma_deck_total_bound(st@);
        lemma_shallow_scale_bound(st.remaining(), count_empty(cells@), p, 0);
    }
    Ok(ev_before_draw(&mut st, &p, rng, 0))
}

/// The expected final score of the board that `board` spells, sampling with
/// a generator seeded from the clock.
pub fn expected_value_current_board(board: &str, sims: usize) -> (r: Result<Expectation, String>)
    ensures
        match r {
            Ok(e) => {
                &&& parsed_board(board@) matches Ok(cells)
                &&& exists|seed: u64|
                    seed != 0 && e.num == (#[trigger] board_value(cells, sims, seed)).num
                &&& e.den == board_scale(cells, sims)
                &&& e.num <= 300 * e.den
                &&& count_empty(cells) == 0 ==> e.num == board_score(cells) && e.den == 1
            },
            Err(msg) => parsed_board(board@) == Err::<Seq<u8>, Seq<char>>(msg@),
        },
{
    let mut rng: SimpleRng = SimpleRng::default();
    expected_value_with_rng(board, sims, &mut rng)
}

/// For each cell of the board that `board` spells, the expected final score
/// with `card` placed there, sampling with `rng`; an occupied cell reports
/// the fraction 0/1.
pub fn expected_values_after_card_with_rng(
    board: &str,
    card: u8,
    sims: usize,
    rng: &mut SimpleRng,
) -> (r: Result<[Expectation; 20], String>)
    ensures
        match r {
            Ok(vals) => {
                &&& parsed_board(board@) matches Ok(cells)
                &&& final(rng).state() == cell_values(
                    cells,
                    dealt_deck(cells),
                    card,
                    entry_params(sims),
                    old(rng).state(),
                    BOARD_SIZE as int,
                ).rng
                &&& numerators(vals@) == cell_numerators(cells, card, sims, old(rng).state())
                &&& forall|i: int|
                    0 <= i < BOARD_SIZE ==> {
                        &&& (#[trigger] vals@[i]).den == cell_scale(cells, card, sims, i)
                        &&& vals@[i].num <= 300 * vals@[i].den
                        &&& cells[i] != 0 ==> vals@[i].num == 0 && vals@[i].den == 1
                        &&& sims > 0 ==> vals@[i].den > 0
                    }
            },
            Err(msg) => parsed_board(board@) == Err::<Seq<u8>, Seq<char>>(msg@) && *final(rng)
                == *old(rng),
        },
        old(rng).wf() ==> final(rng).wf(),
{
    let cells: [u8; 20] = match board_from_str(board) {
        Ok(cells) => cells,
        Err(msg) => {
            return Err(msg);
        },
    };
    let mut st: GameState = GameState::new(cells);
    let p: McParams = McParams { sims, rollout_limit: McParams::default().rollout_limit };
    let ghost start = st;
    let ghost seed = rng.state();
    let mut vals: [Expectation; 20] = [Expectation { num: 0, den: 1 };20];
    let mut pos: usize = 0;
    proof {
        lemma_count_empty_bounds(cells@);
        lemma_deck_total_bound(st@);
    }
    while pos < BOARD_SIZE
        invariant
            0 <= pos <= BOARD_SIZE,
            st == start,
            st.wf(),
            st@.board == cells@,
            st@.deck == dealt_deck(cells@),
            p == entry_params(sims),
            20 <= st.remaining() <= 40,
            Seq::new(pos as nat, |i: int| vals@[i].num as int) =~= cell_values(
                cells@,
                st@.deck,
                card,
                p,
                seed,
                pos as int,
            ).nums,
            rng.state() == cell_values(cells@, st@.deck, card, p, seed, pos as int).rng,
            forall|i: int|
                0 <= i < pos ==> {
                    &&& (#[trigger] vals@[i]).den == cell_scale(cells@, card, sims, i)
                    &&& vals@[i].num <= 300 * vals@[i].den
                    &&& cells@[i] != 0 ==> vals@[i].num == 0 && vals@[i].den == 1
                    &&& sims > 0 ==> vals@[i].den > 0
                },
            forall|i: int| pos <= i < BOARD_SIZE ==> vals@[i] == (Expectation { num: 0, den: 1 }),
            old(rng).wf() ==> rng.wf(),
        decreases BOARD_SIZE - pos,
    {
        let ghost before = Seq::new(pos as nat, |i: int| vals@[i].num as int);
        if st.cell(pos) == 0 {
            st.place(pos, card);
            proof {
                lemma_count_empty_update(cells@, pos as int, card);
                lemma_count_empty_bounds(st@.board);
                lemma_shallow_scale_bound(st.remaining(), count_empty(st@.board), p, 0);
                if sims > 0 {
                    lemma_ev_scale_positive(st.remaining(), count_empty(st@.board), p, 0);
                }
            }
            let value: Expectation = ev_before_draw(&mut st, &p, rng, 0);
            vals[pos] = value;
            st.remove(pos);
            proof {
                lemma_state_eq(st, start);
            }
        }
        assert(Seq::new((pos + 1) as nat, |i: int| vals@[i].num as int) =~= before.push(
            vals@[pos as int].num as int,
        ));
        pos = pos + 1;
    }
    assert(numerators(vals@) =~= Seq::new(BOARD_SIZE as nat, |i: int| vals@[i].num as int));
    Ok(vals)
}

/// For each cell of the board that `board` spells, the expected final score
/// with `card` placed there, sampling with a generator seeded from the
/// clock; an occupied cell reports the fraction 0/1.
pub fn expected_values_after_card(board: &str, card: u8, sims: usize) -> (r: Result<
    [Expectation; 20],
    String,
>)
    ensures
        match r {
            Ok(vals) => {
                &&& parsed_board(board@) matches Ok(cells)
                &&& exists|seed: u64|
                    seed != 0 && numerators(vals@) == #[trigger] cell_numerators(
                        cells,
                        card,
                        sims,
                        seed,
                    )
                &&& forall|i: int|
                    0 <= i < BOARD_SIZE ==> {
                        &&& (#[trigger] vals@[i]).den == cell_scale(cells, card, sims, i)
                        &&& vals@[i].num <= 300 * vals@[i].den
                        &&& cells[i] != 0 ==> vals@[i].num == 0 && vals@[i].den == 1
                        &&& sims > 0 ==> vals@[i].den > 0
                    }
            },
            Err(msg) => parsed_board(board@) == Err::<Seq<u8>, Seq<char>>(msg@),
        },
{
    let mut rng: SimpleRng = SimpleRng::default();
    expected_values_after_card_with_rng(board, card, sims, &mut rng)
}

} // verus!

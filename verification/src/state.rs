//! The board and the deck that remains beside it, mutated in place and
//! restored by paired operations.

use vstd::prelude::*;
use crate::cards::{copies, full_copies, BOARD_SIZE, CARD_CODES, JOKER};
use crate::counting::{
    count_empty, dealt_deck, dealt_upto, deck_total, empties_upto, empty_cells, empty_cells_upto,
    lemma_count_empty_update, lemma_dealt_deck_total, lemma_dealt_within_full,
    lemma_deck_total_update, lemma_full_deck_size, lemma_sum_upto_monotonic,
    lemma_sum_upto_within_full, sum_upto, valid_board,
};
use crate::score::{board_score, score_cells};

verus! {

/// What a game state stands for: the twenty cells and the thirty-two counters.
pub struct GameView {
    /// Cell codes, left to right: 0 empty, 1 to 30 a face value, 31 the wildcard.
    pub board: Seq<u8>,
    /// Undrawn copies by card code; the counter of code 0 is always 0.
    pub deck: Seq<u8>,
}

/// The shape every game state keeps: twenty cells, thirty-two counters, and
/// no counter above the number of copies that exist.
pub open spec fn well_formed(v: GameView) -> bool {
    &&& v.board.len() == BOARD_SIZE
    &&& v.deck.len() == CARD_CODES
    &&& forall|c: int| 0 <= c < v.deck.len() ==> v.deck[c] <= copies(c)
}

/// A well-formed deck holds at most forty cards.
pub proof fn lemma_deck_total_bound(v: GameView)
    requires
        well_formed(v),
    ensures
        0 <= deck_total(v.deck) <= 40,
{
    lemma_sum_upto_within_full(v.deck, v.deck.len() as int);
    lemma_full_deck_size();
}

/// Two states with the same cells, the same counters and the same stored
/// total are the same state.
pub proof fn lemma_state_eq(a: GameState, b: GameState)
    requires
        a@.board =~= b@.board,
        a@.deck =~= b@.deck,
        a.remaining() == b.remaining(),
    ensures
        a == b,
{
    assert(a.board =~= b.board);
    assert(a.deck_count =~= b.deck_count);
}

/// A board and the deck beside it.
#[derive(Clone, Debug)]
pub struct GameState {
    /// Cell codes: 0 empty, 1 to 30 a face value, 31 the wildcard.
    board: [u8; 20],
    /// Undrawn copies by card code.
    deck_count: [u8; 32],
    /// Undrawn cards in all: the sum of the counters.
    deck_len: u8,
}

impl View for GameState {
    type V = GameView;

    closed spec fn view(&self) -> GameView {
        GameView { board: self.board@, deck: self.deck_count@ }
    }
}

impl GameState {
    /// The stored count of undrawn cards.
    pub closed spec fn remaining(&self) -> int {
        self.deck_len as int
    }

    /// The state is well formed and its stored total is the sum of its counters.
    pub open spec fn wf(&self) -> bool {
        &&& well_formed(self@)
        &&& self.remaining() == deck_total(self@.deck)
    }

    /// Deals `board` from a full deck: every card on the board is taken out
    /// of the counters, as far as the deck holds it, and the total is the sum
    /// of what is left.
    pub fn new(board: [u8; 20]) -> (st: Self)
        ensures
            st.wf(),
            st@.board == board@,
            st@.deck == dealt_deck(board@),
            st.remaining() == deck_total(st@.deck),
            st.remaining() >= 20 + count_empty(board@),
            valid_board(board@) ==> st.remaining() == 20 + count_empty(board@),
    {
        let mut deck_count: [u8; 32] = [0u8; 32];
        let mut card: usize = 0;
        while card < CARD_CODES
            invariant
                0 <= card <= CARD_CODES,
                forall|c: int| 0 <= c < card ==> deck_count@[c] == copies(c),
            decreases CARD_CODES - card,
        {
            deck_count[card] = full_copies(card as u8);
            card = card + 1;
        }
        assert(deck_count@[0] == copies(0));
        let mut i: usize = 0;
        while i < BOARD_SIZE
            invariant
                0 <= i <= BOARD_SIZE,
                dealt_upto(board@, deck_count@, i as int),
            decreases BOARD_SIZE - i,
        {
            let c: u8 = board[i];
            if c != 0 && c <= JOKER {
                let ix: usize = c as usize;
                if deck_count[ix] > 0 {
                    deck_count[ix] = deck_count[ix] - 1;
                }
            }
            i = i + 1;
        }
        let mut deck_len: u8 = 0;
        let mut k: usize = 0;
        proof {
            lemma_dealt_within_full(board@, deck_count@, BOARD_SIZE as int);
            assert(deck_count@ =~= dealt_deck(board@));
            lemma_dealt_deck_total(board@);
            lemma_sum_upto_within_full(deck_count@, CARD_CODES as int);
            lemma_full_deck_size();
        }
        while k < CARD_CODES
            invariant
                0 <= k <= CARD_CODES,
                deck_len == sum_upto(deck_count@, k as int),
                deck_total(deck_count@) <= 40,
                forall|c: int| 0 <= c < deck_count@.len() ==> deck_count@[c] <= copies(c),
            decreases CARD_CODES - k,
        {
            proof {
                lemma_sum_upto_monotonic(deck_count@, k as int + 1, CARD_CODES as int);
            }
            deck_len = deck_len + deck_count[k];
            k = k + 1;
        }
        GameState { board, deck_count, deck_len }
    }

    /// Puts `card` on the empty cell `pos`.
    pub fn place(&mut self, pos: usize, card: u8)
        requires
            old(self).wf(),
            pos < BOARD_SIZE,
            old(self)@.board[pos as int] == 0,
        ensures
            final(self).wf(),
            final(self)@.board == old(self)@.board.update(pos as int, card),
            final(self)@.deck == old(self)@.deck,
            final(self).remaining() == old(self).remaining(),
            card != 0 ==> count_empty(final(self)@.board) == count_empty(old(self)@.board) - 1,
    {
        proof {
            lemma_count_empty_update(self@.board, pos as int, card);
        }
        self.board[pos] = card;
    }

    /// Clears cell `pos`.
    pub fn remove(&mut self, pos: usize)
        requires
            old(self).wf(),
            pos < BOARD_SIZE,
        ensures
            final(self).wf(),
            final(self)@.board == old(self)@.board.update(pos as int, 0u8),
            final(self)@.deck == old(self)@.deck,
            final(self).remaining() == old(self).remaining(),
    {
        self.board[pos] = 0;
    }

    /// Takes one copy of `card` out of the deck.
    pub fn draw(&mut self, card: u8)
        requires
            old(self).wf(),
            1 <= card <= JOKER,
            old(self)@.deck[card as int] > 0,
        ensures
            final(self).wf(),
            final(self)@.board == old(self)@.board,
            final(self)@.deck == old(self)@.deck.update(
                card as int,
                (old(self)@.deck[card as int] - 1) as u8,
            ),
            final(self).remaining() == old(self).remaining() - 1,
    {
        proof {
            lemma_deck_total_update(
                self@.deck,
                card as int,
                (self@.deck[card as int] - 1) as u8,
            );
            lemma_sum_upto_monotonic(self@.deck, card as int + 1, CARD_CODES as int);
            lemma_sum_upto_monotonic(self@.deck, 0, card as int);
        }
        self.deck_count[card as usize] = self.deck_count[card as usize] - 1;
        self.deck_len = self.deck_len - 1;
    }

    /// Puts one copy of `card` back into the deck.
    pub fn undraw(&mut self, card: u8)
        requires
            old(self).wf(),
            1 <= card <= JOKER,
            old(self)@.deck[card as int] < copies(card as int),
        ensures
            final(self).wf(),
            final(self)@.board == old(self)@.board,
            final(self)@.deck == old(self)@.deck.update(
                card as int,
                (old(self)@.deck[card as int] + 1) as u8,
            ),
            final(self).remaining() == old(self).remaining() + 1,
    {
        proof {
            lemma_deck_total_update(
                self@.deck,
                card as int,
                (self@.deck[card as int] + 1) as u8,
            );
            lemma_deck_total_bound(self@);
            lemma_deck_total_bound(
                GameView {
                    board: self@.board,
                    deck: self@.deck.update(card as int, (self@.deck[card as int] + 1) as u8),
                },
            );
        }
        self.deck_count[card as usize] = self.deck_count[card as usize] + 1;
        self.deck_len = self.deck_len + 1;
    }

    /// The score of the board as it stands.
    pub fn score(&self) -> (total: i32)
        ensures
            total == board_score(self@.board),
            0 <= total <= 300,
    {
        score_cells(&self.board)
    }

    /// The indices of the empty cells, in board order.
    pub fn empty_positions(&self) -> (cells: Vec<usize>)
        ensures
            cells@ == empty_cells(self@.board),
            cells@.len() == count_empty(self@.board),
    {
        let mut cells: Vec<usize> = Vec::new();
        let mut i: usize = 0;
        while i < BOARD_SIZE
            invariant
                0 <= i <= BOARD_SIZE,
                cells@ == empty_cells_upto(self.board@, i as int),
                cells@.len() == empties_upto(self.board@, i as int),
            decreases BOARD_SIZE - i,
        {
            if self.board[i] == 0 {
                cells.push(i);
            }
            i = i + 1;
        }
        cells
    }

    /// The number of empty cells.
    pub fn empty_count(&self) -> (n: usize)
        ensures
            n == count_empty(self@.board),
            n <= BOARD_SIZE,
    {
        let mut n: usize = 0;
        let mut i: usize = 0;
        while i < BOARD_SIZE
            invariant
                0 <= i <= BOARD_SIZE,
                n == empties_upto(self.board@, i as int),
                n <= i,
            decreases BOARD_SIZE - i,
        {
            if self.board[i] == 0 {
                n = n + 1;
            }
            i = i + 1;
        }
        n
    }

    /// A copy of the twenty cells.
    pub fn board(&self) -> (cells: [u8; 20])
        ensures
            cells@ == self@.board,
    {
        self.board
    }

    /// A copy of the thirty-two counters.
    pub fn deck_counts(&self) -> (counts: [u8; 32])
        ensures
            counts@ == self@.deck,
    {
        self.deck_count
    }

    /// The code in cell `pos`.
    pub fn cell(&self, pos: usize) -> (c: u8)
        requires
            pos < BOARD_SIZE,
        ensures
            c == self@.board[pos as int],
    {
        self.board[pos]
    }

    /// The number of undrawn copies of `card`.
    pub fn deck_count(&self, card: u8) -> (n: u8)
        requires
            card <= JOKER,
        ensures
            n == self@.deck[card as int],
    {
        self.deck_count[card as usize]
    }

    /// The number of undrawn cards.
    pub fn deck_len(&self) -> (n: u8)
        ensures
            n == self.remaining(),
    {
        self.deck_len
    }
}

} // verus!

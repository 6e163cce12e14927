//! Expected final score of a partially filled board in a solitaire card
//! placement game, computed exactly over draws and placements down to a depth
//! limit and by random completion below it.
//!
//! Cards are drawn one at a time from a deck of forty and placed on a board
//! of twenty cells; the board scores by its runs of non-decreasing values.
//! [`GameState`] holds a board and the deck that remains, [`ev_before_draw`]
//! computes the expected score under best placement as an exact fraction
//! ([`Expectation`]), and [`rollout`] estimates it by random completion with
//! a generator whose stream is fully specified ([`SimpleRng`]).

pub mod api;
pub mod cards;
pub mod counting;
pub mod laws;
pub mod params;
pub mod parse;
pub mod rng;
pub mod rollout;
pub mod score;
pub mod search;
pub mod state;

pub use api::{
    expected_value_current_board, expected_value_with_rng, expected_values_after_card,
    expected_values_after_card_with_rng,
};
pub use cards::BOARD_SIZE;
pub use params::{Expectation, McParams};
pub use parse::board_from_str;
pub use rng::SimpleRng;
pub use rollout::rollout;
pub use search::{can_evaluate, checked_scale, ev_after_draw, ev_before_draw};
pub use state::GameState;

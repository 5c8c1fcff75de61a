//! A turn-based card-battle simulator, verified: decks of cards are dealt,
//! played and resolved in independent matches, and the results are tallied
//! into win/loss/draw counts. Each match advances one phase per tick
//! through a Play/Attack/Halt state machine; the only randomness is the
//! shuffle before each draw and the choice of an open play-area slot, both
//! taken from a per-side generator.

pub mod board;
pub mod engine;
pub mod model;
mod rng;

pub use board::{count_wins, grid_position, lemma_tally_total, Board};
pub use engine::{advance, advance_deterministic};
pub use model::{
    dummy_deck, Card, Deck, Game, GamePhase, Match, PlayArea, Side, NUMBER_OF_GAMES,
    SQRT_NUMBER_OF_GAMES, TURN_LIMIT,
};

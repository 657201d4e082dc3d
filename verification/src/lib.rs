//! A falling-block puzzle engine with verified rules.
//!
//! * `shape`: the seven tetrimino kinds and their rotation states.
//! * `grid`: the playfield, with placement test, merge and row clearing.
//! * `tetrimino`: a live piece that moves and turns against a playfield.
//! * `game`: the state machine of a game, with gravity, scoring and levels.
//! * `score`: the update policy of the high-score ledger.
//! * `ledger`: the stored form of the high-score ledger.

pub mod game;
pub mod grid;
pub mod ledger;
pub mod score;
pub mod shape;
pub mod tetrimino;

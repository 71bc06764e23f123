//! Session core of a two-team word-guessing party game: a bit-encoded board,
//! a phase-typed game state machine, the per-lobby connection router and the
//! lobby's event handling.

pub mod bits;
pub mod board;
pub mod errors;
pub mod game;
pub mod players;
pub mod web;

//! A chess rules engine: board state, per-piece move generation, check
//! resolution, move execution and end-of-game detection.
//!
//! A game is a [`state::State`], owned by whoever plays it; there is no
//! shared game. Its mathematical model is a [`position::Position`], over
//! which the rules are stated: [`moves::possible_move`] for the movement
//! geometry, [`check::legal_move`] for check resolution,
//! [`position::Position::after_move`] for the effect of a move and
//! [`state::game_over`] for the end of the game. The module [`laws`] proves
//! what follows from them for every position.
//!
//! Knights use the eight canonical L-shaped jumps. A pawn's double step does
//! not look at the square passed over, and only the pawn's own side blocks
//! its way forward. Pins are not detected: out of check, a move may expose
//! the mover's king. Castling, en passant, pawn promotion, draw by
//! repetition and the fifty-move rule are intentionally unsupported; a pawn
//! that reaches the farthest rank is reported and stays a pawn.

pub mod board;
pub mod check;
pub mod laws;
pub mod moves;
pub mod piece;
pub mod player;
pub mod position;
pub mod session;
pub mod state;
pub mod utils;

//! A rules engine for a game of checkers on 8x8 squares with flying kings,
//! and a Monte Carlo player for it.
//!
//! - `comun` holds the plain values: squares, moves, sides, results.
//! - `rules` says what a legal move is, what a move does to a game and when
//!   a game is over.
//! - `laws` proves what follows from the rules for every game.
//! - `game_manager` is the game as it is played, proved against `rules`.
//! - `ia` holds the players that choose moves by themselves.
//! - `board` decides what the clicks of a player at the board mean.

pub mod board;
pub mod comun;
pub mod game_manager;
pub mod ia;
pub mod laws;
pub mod rules;

//! Rules engine for Reversi on a four-by-four board.
//!
//! [`rules`] states the rules over a mathematical model of the board, and every operation of
//! the engine is proved against it. [`game`] holds the board and its operations, [`capture`]
//! the walk along a direction that both the legality test and the placement use, [`commands`]
//! what a host application asks of a game, and [`laws`] what holds of every game.

pub mod capture;
pub mod commands;
pub mod game;
pub mod laws;
pub mod rules;

//! Rules of a two-party card game, player against dealer, evaluated on plain
//! card values and, without branching on any card, on encrypted ones.
//!
//! `rules` holds the hand scorer and the rule chain, `table` the model of a
//! game that every engine refines, `naive_game` the plain engine,
//! `scalars` the encrypted-scalar capability, `oblivious` the branch-free
//! rules over it, and `secure_game` and `game` the encrypted engines.

pub mod game;
pub mod game_state;
pub mod naive_game;
pub mod oblivious;
mod random;
pub mod rules;
pub mod scalars;
pub mod secure_game;
pub mod table;

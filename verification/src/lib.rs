//! A limit hold'em poker toolkit: cards and decks, a lookup-table hand
//! evaluator, card abstractions of a player's information set, the game state
//! of a heads-up limit game, and the encodings of actions and histories.

pub mod config;
pub mod evaluate;
pub mod models;
pub mod subgame_solver;
pub mod text;
pub mod thread_utils;
pub mod traversal;
pub mod validation;

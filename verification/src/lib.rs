//! A Klondike solitaire engine with a verified rule set.
//!
//! The library keeps the state of one game (seven tableau piles, a stock, a
//! waste and four foundations), decides which moves are legal, carries them
//! out, and drives a greedy automatic player. Every operation is specified
//! against a mathematical model of the table, [`table::Table`].

pub mod card;
pub mod table;
pub mod clock;
pub mod game;
pub mod laws;
pub mod random;
pub mod search;
pub mod strategy;
pub mod player;
pub mod text;
pub mod stats;
pub mod keys;

//! Core of a chess engine: sliding-piece attack tables indexed by bit extraction or
//! multiplicative hashing, the table of squares between two squares, and a full-width
//! negamax search with node counting and cooperative cancellation.

pub mod types;
pub mod bitboard;
pub mod magic;
pub mod tables;
pub mod lines;
pub mod limits;
pub mod position;
pub mod thread;
pub mod search;

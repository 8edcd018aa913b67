//! Bitboard chess move generation: board representation, magic attack
//! tables, check and pin detection, legal move generation, and a reversible
//! make/undo state machine.

pub mod benchmark;
pub mod bitboard;
pub mod board;
pub mod color;
pub mod error;
pub mod fen;
pub mod magic;
pub mod move_gen;
pub mod notation;
pub mod piece;
pub mod wizardry;

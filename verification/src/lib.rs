//! A two-player chess engine: board set-up, move notation, the movement rules of
//! every piece, check detection, move application and game-state classification.
//!
//! Boards are `[[Option<Piece>; 8]; 8]` indexed as `board[rank][file]`, with rank 0
//! the white home rank and file 0 the a-file.

pub mod pieces;
pub mod board;
pub mod attack;
pub mod rules;
pub mod moves;
pub mod notation;
pub mod display;
pub mod laws;
pub mod rule_laws;

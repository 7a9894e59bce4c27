use vstd::prelude::*;

verus! {

/// The two sides.
#[derive(Debug, PartialEq, Eq, Structural, Copy, Clone)]
pub enum PieceColor {
    White,
    Black,
}

/// The six kinds of chess piece.
#[derive(Debug, PartialEq, Eq, Structural, Copy, Clone)]
pub enum PieceType {
    Pawn,
    Knight,
    Bishop,
    Rook,
    Queen,
    King,
}

/// The outcome classification of a position for the side to move.
#[derive(Debug, PartialEq, Eq, Structural, Copy, Clone)]
pub enum GameState {
    Playing,
    Checkmate,
    Stalemate,
}

/// A piece on the board, with the two flags the special moves depend on:
/// whether it has moved (castling, pawn double steps) and whether it is a pawn
/// that has just made a double step (en passant).
#[derive(Debug, PartialEq, Eq, Structural, Copy, Clone)]
pub struct Piece {
    pub color: PieceColor,
    pub piece_type: PieceType,
    pub has_moved: bool,
    pub en_passantable: bool,
}

/// The other side.
pub open spec fn other_side(c: PieceColor) -> PieceColor {
    match c {
        PieceColor::White => PieceColor::Black,
        PieceColor::Black => PieceColor::White,
    }
}

/// The side that moves after `c`.
pub fn opponent(c: PieceColor) -> (o: PieceColor)
    ensures
        o == other_side(c),
        o != c,
{
    match c {
        PieceColor::White => PieceColor::Black,
        PieceColor::Black => PieceColor::White,
    }
}

} // verus!

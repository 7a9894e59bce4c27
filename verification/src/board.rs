use vstd::prelude::*;
use crate::pieces::Piece;

verus! {

/// A chess board, indexed `board[rank][file]`.
pub type Board = [[Option<Piece>; 8]; 8];

/// Whether `(x, y)` (file, rank) names a square of the board.
pub open spec fn on_board(x: int, y: int) -> bool {
    0 <= x < 8 && 0 <= y < 8
}

/// The content of square `(x, y)`; `None` off the board.
pub open spec fn at(b: Board, x: int, y: int) -> Option<Piece> {
    if on_board(x, y) {
        b[y][x]
    } else {
        None
    }
}

/// The board `b` with square `(x, y)` replaced by `v`.
pub open spec fn put(b: Board, x: int, y: int, v: Option<Piece>) -> Board {
    vstd::array::spec_array_update(b, y, vstd::array::spec_array_update(b[y], x, v))
}

/// Writing square `(x, y)` changes that square and no other.
pub proof fn lemma_put(b: Board, x: int, y: int, v: Option<Piece>)
    requires
        on_board(x, y),
    ensures
        forall|i: int, j: int|
            on_board(i, j) ==> #[trigger] at(put(b, x, y, v), i, j) == if i == x && j == y {
                v
            } else {
                at(b, i, j)
            },
{
}

/// Writes `v` on square `(x, y)`.
pub(crate) fn set_square(board: &mut Board, x: usize, y: usize, v: Option<Piece>)
    requires
        x < 8,
        y < 8,
    ensures
        *final(board) == put(*old(board), x as int, y as int, v),
        forall|i: int, j: int|
            on_board(i, j) ==> #[trigger] at(*final(board), i, j) == if i == x && j == y {
                v
            } else {
                at(*old(board), i, j)
            },
{
    board[y][x] = v;
    proof {
        lemma_put(*old(board), x as int, y as int, v);
    }
}

} // verus!

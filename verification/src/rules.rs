use vstd::prelude::*;
use crate::pieces::{Piece, PieceColor, PieceType};
use crate::board::{Board, on_board, at};
use crate::attack::{abs, attacked, is_attacked};

verus! {

/// Square `(x, y)` is empty.
pub open spec fn empty(b: Board, x: int, y: int) -> bool {
    at(b, x, y) is None
}

/// Square `(x, y)` holds a piece of `color`.
pub open spec fn friendly(b: Board, x: int, y: int, color: PieceColor) -> bool {
    match at(b, x, y) {
        Some(q) => q.color == color,
        None => false,
    }
}

/// How many ranks a move from rank `y` to rank `y2` advances, seen from `color`'s side.
pub open spec fn advance(color: PieceColor, y: int, y2: int) -> int {
    match color {
        PieceColor::White => y2 - y,
        PieceColor::Black => y - y2,
    }
}

/// The direction (-1, 0 or 1) from `a` towards `b`.
pub open spec fn sign(a: int, b: int) -> int {
    if b > a {
        1
    } else if b == a {
        0
    } else {
        -1
    }
}

/// `v` moved `k` steps in direction `s`.
pub open spec fn step(v: int, s: int, k: int) -> int {
    if s == 1 {
        v + k
    } else if s == -1 {
        v - k
    } else {
        v
    }
}

/// The number of single steps a straight or diagonal move takes.
pub open spec fn path_len(x: int, y: int, x2: int, y2: int) -> int {
    if abs(x2 - x) >= abs(y2 - y) {
        abs(x2 - x)
    } else {
        abs(y2 - y)
    }
}

/// The move runs along a file, a rank or a diagonal.
pub open spec fn on_line(x: int, y: int, x2: int, y2: int) -> bool {
    x == x2 || y == y2 || abs(x2 - x) == abs(y2 - y)
}

/// Every square strictly between `(x, y)` and `(x2, y2)` is empty.
pub open spec fn path_clear(b: Board, x: int, y: int, x2: int, y2: int) -> bool {
    forall|k: int|
        1 <= k < path_len(x, y, x2, y2) ==> #[trigger] empty(
            b,
            step(x, sign(x, x2), k),
            step(y, sign(y, y2), k),
        )
}

/// A sliding move: the way is clear and the destination holds no piece of the mover's colour.
pub open spec fn slide_ok(b: Board, x: int, y: int, x2: int, y2: int, p: Piece) -> bool {
    path_clear(b, x, y, x2, y2) && !friendly(b, x2, y2, p.color)
}

/// Pawn rule: one step forward onto an empty square, two from an unmoved pawn
/// over two empty squares, or one diagonal step forward capturing an enemy piece
/// or, onto an empty square, an en-passant-able enemy pawn beside it.
pub open spec fn pawn_move_ok(b: Board, x: int, y: int, x2: int, y2: int, p: Piece) -> bool {
    let adv = advance(p.color, y, y2);
    if abs(x2 - x) == 0 {
        if adv == 1 {
            empty(b, x2, y2)
        } else if adv == 2 {
            !p.has_moved && empty(b, x2, y2) && empty(b, x2, if y2 > y { y + 1 } else { y - 1 })
        } else {
            false
        }
    } else if abs(x2 - x) == 1 {
        adv == 1 && match at(b, x2, y2) {
            Some(c) => c.color != p.color,
            None => match at(b, x2, y) {
                Some(c) => c.color != p.color && c.en_passantable,
                None => false,
            },
        }
    } else {
        false
    }
}

/// Knight rule: an L-shaped jump onto a square holding no piece of the knight's colour.
pub open spec fn knight_move_ok(b: Board, x: int, y: int, x2: int, y2: int, p: Piece) -> bool {
    abs(x2 - x) + abs(y2 - y) == 3 && abs(abs(x2 - x) - abs(y2 - y)) == 1 && !friendly(
        b,
        x2,
        y2,
        p.color,
    )
}

/// Bishop rule: a diagonal slide.
pub open spec fn bishop_move_ok(b: Board, x: int, y: int, x2: int, y2: int, p: Piece) -> bool {
    abs(x2 - x) == abs(y2 - y) && slide_ok(b, x, y, x2, y2, p)
}

/// Rook rule: a slide along a file or a rank.
pub open spec fn rook_move_ok(b: Board, x: int, y: int, x2: int, y2: int, p: Piece) -> bool {
    (x2 == x || y2 == y) && slide_ok(b, x, y, x2, y2, p)
}

/// Queen rule: a bishop or a rook move.
pub open spec fn queen_move_ok(b: Board, x: int, y: int, x2: int, y2: int, p: Piece) -> bool {
    bishop_move_ok(b, x, y, x2, y2, p) || rook_move_ok(b, x, y, x2, y2, p)
}

/// None of the squares the king crosses when castling (its own square and the
/// next two towards the rook) is attacked.
pub open spec fn castle_squares_safe(b: Board, x: int, y: int, kingside: bool, color: PieceColor) -> bool {
    forall|xi: int|
        (if kingside {
            x <= xi <= x + 2
        } else {
            x - 2 <= xi <= x
        }) ==> !#[trigger] attacked(b, xi, y, color)
}

/// The squares between the king and the rook's corner (files 1 to 6) are empty.
pub open spec fn castle_squares_empty(b: Board, x: int, y: int, kingside: bool) -> bool {
    forall|xi: int|
        (if kingside {
            x + 1 <= xi <= 6
        } else {
            1 <= xi <= x - 1
        }) ==> #[trigger] empty(b, xi, y)
}

/// King rule: a single step onto a square holding no piece of the king's colour
/// and not attacked in the current position; or, for an unmoved king moving more
/// than one file along its rank, castling towards the corner on that side, which
/// must hold an unmoved rook of the king's colour.
pub open spec fn king_move_ok(b: Board, x: int, y: int, x2: int, y2: int, p: Piece) -> bool {
    if abs(x2 - x) <= 1 && abs(y2 - y) <= 1 {
        slide_ok(b, x, y, x2, y2, p) && !attacked(b, x2, y2, p.color)
    } else if !p.has_moved && y2 == y {
        match at(b, if x2 > x { 7 } else { 0 }, y) {
            Some(rook) => castle_squares_safe(b, x, y2, x2 > x, p.color) && castle_squares_empty(
                b,
                x,
                y2,
                x2 > x,
            ) && rook.piece_type == PieceType::Rook && rook.color == p.color && !rook.has_moved,
            None => false,
        }
    } else {
        false
    }
}

/// The movement rule of piece `p` allows the move `(x, y) -> (x2, y2)`.
pub open spec fn piece_rule_ok(b: Board, x: int, y: int, x2: int, y2: int, p: Piece) -> bool {
    match p.piece_type {
        PieceType::Pawn => pawn_move_ok(b, x, y, x2, y2, p),
        PieceType::Knight => knight_move_ok(b, x, y, x2, y2, p),
        PieceType::Bishop => bishop_move_ok(b, x, y, x2, y2, p),
        PieceType::Rook => rook_move_ok(b, x, y, x2, y2, p),
        PieceType::Queen => queen_move_ok(b, x, y, x2, y2, p),
        PieceType::King => king_move_ok(b, x, y, x2, y2, p),
    }
}

/// All four coordinates name board squares.
pub open spec fn coords_on_board(c: (usize, usize, usize, usize)) -> bool {
    c.0 < 8 && c.1 < 8 && c.2 < 8 && c.3 < 8
}

fn delta(a: i8, b: i8) -> (r: i8)
    requires
        -60 <= a <= 60,
        -60 <= b <= 60,
    ensures
        r == abs(b - a),
{
    if b < a {
        a - b
    } else {
        b - a
    }
}

fn holds_friend(board: &Board, x: i8, y: i8, color: PieceColor) -> (r: bool)
    requires
        on_board(x as int, y as int),
    ensures
        r == friendly(*board, x as int, y as int, color),
{
    board[y as usize][x as usize].is_some() && (board[y as usize][x as usize].unwrap().color == color)
}

fn is_pawn_move_valid(coords: (usize, usize, usize, usize), piece: &Piece, board: &Board) -> (r: bool)
    requires
        coords_on_board(coords),
    ensures
        r == pawn_move_ok(*board, coords.0 as int, coords.1 as int, coords.2 as int, coords.3 as int, *piece),
{
    let (x, y, x2, y2) = (coords.0 as i8, coords.1 as i8, coords.2 as i8, coords.3 as i8);
    let adv: i8 = match piece.color {
        PieceColor::White => y2 - y,
        PieceColor::Black => 0 - (y2 - y),
    };
    match delta(x, x2) {
        0 => {
            if adv == 1 {
                board[y2 as usize][x2 as usize].is_none()
            } else if adv == 2 {
                !piece.has_moved && board[y2 as usize][x2 as usize].is_none()
                    && board[(if y2 > y { y + 1 } else { y - 1 }) as usize][x2 as usize].is_none()
            } else {
                false
            }
        },
        1 => {
            if adv != 1 {
                return false;
            }
            match board[y2 as usize][x2 as usize] {
                Some(captured_piece) => captured_piece.color != piece.color,
                None => {
                    if let Some(captured_piece) = board[y as usize][x2 as usize] {
                        (captured_piece.color != piece.color) && captured_piece.en_passantable
                    } else {
                        false
                    }
                },
            }
        },
        _ => false,
    }
}

fn is_knight_move_valid(coords: (usize, usize, usize, usize), piece: &Piece, board: &Board) -> (r: bool)
    requires
        coords_on_board(coords),
    ensures
        r == knight_move_ok(*board, coords.0 as int, coords.1 as int, coords.2 as int, coords.3 as int, *piece),
{
    let (x, y, x2, y2) = (coords.0 as i8, coords.1 as i8, coords.2 as i8, coords.3 as i8);
    if (delta(x, x2) + delta(y, y2) != 3) || (delta(delta(x, x2), delta(y, y2)) != 1) {
        return false;
    }
    if holds_friend(board, x2, y2, piece.color) {
        return false;
    }
    true
}

fn is_bishop_move_valid(coords: (usize, usize, usize, usize), piece: &Piece, board: &Board) -> (r: bool)
    requires
        coords_on_board(coords),
    ensures
        r == bishop_move_ok(*board, coords.0 as int, coords.1 as int, coords.2 as int, coords.3 as int, *piece),
{
    let (x, y, x2, y2) = (coords.0 as i8, coords.1 as i8, coords.2 as i8, coords.3 as i8);
    (delta(x, x2) == delta(y, y2)) && interpolate_move(coords, piece, board)
}

fn is_rook_move_valid(coords: (usize, usize, usize, usize), piece: &Piece, board: &Board) -> (r: bool)
    requires
        coords_on_board(coords),
    ensures
        r == rook_move_ok(*board, coords.0 as int, coords.1 as int, coords.2 as int, coords.3 as int, *piece),
{
    let (x, y, x2, y2) = (coords.0 as i8, coords.1 as i8, coords.2 as i8, coords.3 as i8);
    ((delta(x, x2) == 0) || (delta(y, y2) == 0)) && interpolate_move(coords, piece, board)
}

fn is_queen_move_valid(coords: (usize, usize, usize, usize), piece: &Piece, board: &Board) -> (r: bool)
    requires
        coords_on_board(coords),
    ensures
        r == queen_move_ok(*board, coords.0 as int, coords.1 as int, coords.2 as int, coords.3 as int, *piece),
{
    is_bishop_move_valid(coords, piece, board) || is_rook_move_valid(coords, piece, board)
}

#[verifier::loop_isolation(false)]
fn is_king_move_valid(coords: (usize, usize, usize, usize), piece: &Piece, board: &Board) -> (r: bool)
    requires
        coords_on_board(coords),
    ensures
        r == king_move_ok(*board, coords.0 as int, coords.1 as int, coords.2 as int, coords.3 as int, *piece),
{
    let (x, y, x2, y2) = (coords.0 as i8, coords.1 as i8, coords.2 as i8, coords.3 as i8);
    if delta(x, x2) <= 1 && delta(y, y2) <= 1 {
        return interpolate_move(coords, piece, board) && !is_attacked(x2, y2, piece.color, board);
    } else if !piece.has_moved && delta(y, y2) == 0 {
        let corner: usize = if x2 > x { 7 } else { 0 };
        if let Some(corner_rook) = board[y as usize][corner] {
            let (lo, hi): (i8, i8) = if x2 > x { (x, x + 2) } else { (x - 2, x) };
            let mut xi: i8 = lo;
            while xi <= hi
                invariant
                    lo <= xi <= hi + 1,
                    -2 <= lo,
                    hi <= 9,
                    0 <= y2 < 8,
                    lo == (if x2 > x { x - 0 } else { x - 2 }),
                    hi == (if x2 > x { x + 2 } else { x - 0 }),
                    forall|i: int| lo <= i < xi ==> !#[trigger] attacked(*board, i, y2 as int, piece.color),
                decreases hi + 1 - xi,
            {
                if is_attacked(xi, y2, piece.color, board) {
                    return false;
                }
                xi = xi + 1;
            }
            let (lo, hi): (i8, i8) = if x2 > x { (x + 1, 6) } else { (1, x - 1) };
            let mut xi: i8 = lo;
            while xi <= hi
                invariant
                    lo <= xi,
                    xi <= hi + 1 || lo > hi,
                    1 <= lo,
                    hi <= 6,
                    0 <= y2 < 8,
                    lo == (if x2 > x { x + 1 } else { 1 }),
                    hi == (if x2 > x { 6 } else { x - 1 }),
                    forall|i: int| lo <= i < xi ==> #[trigger] empty(*board, i, y2 as int),
                decreases hi + 1 - xi,
            {
                if board[y2 as usize][xi as usize].is_some() {
                    assert(!empty(*board, xi as int, y2 as int));
                    return false;
                }
                xi = xi + 1;
            }
            return corner_rook.piece_type == PieceType::Rook && corner_rook.color == piece.color
                && !corner_rook.has_moved;
        }
    }
    false
}

#[verifier::loop_isolation(false)]
fn interpolate_move(coords: (usize, usize, usize, usize), piece: &Piece, board: &Board) -> (r: bool)
    requires
        coords_on_board(coords),
        on_line(coords.0 as int, coords.1 as int, coords.2 as int, coords.3 as int),
    ensures
        r == slide_ok(*board, coords.0 as int, coords.1 as int, coords.2 as int, coords.3 as int, *piece),
{
    let (x0, y0, x2, y2) = (coords.0 as i8, coords.1 as i8, coords.2 as i8, coords.3 as i8);
    let xs: i8 = if x2 > x0 { 1 } else if x2 == x0 { 0 } else { -1 };
    let ys: i8 = if y2 > y0 { 1 } else if y2 == y0 { 0 } else { -1 };
    let ghost n = path_len(x0 as int, y0 as int, x2 as int, y2 as int);
    let ghost mut k: int = 1;
    let mut x: i8 = x0 + xs;
    let mut y: i8 = y0 + ys;
    while (x != x2) || (y != y2)
        invariant
            0 <= x0 < 8,
            0 <= y0 < 8,
            0 <= x2 < 8,
            0 <= y2 < 8,
            on_line(x0 as int, y0 as int, x2 as int, y2 as int),
            xs == sign(x0 as int, x2 as int),
            ys == sign(y0 as int, y2 as int),
            n == path_len(x0 as int, y0 as int, x2 as int, y2 as int),
            1 <= k,
            k <= n || n == 0,
            x == step(x0 as int, xs as int, k),
            y == step(y0 as int, ys as int, k),
            forall|j: int| 1 <= j < k ==> #[trigger] empty(*board, step(x0 as int, xs as int, j), step(y0 as int, ys as int, j)),
        decreases n - k,
    {
        assert(k < n);
        if board[y as usize][x as usize].is_some() {
            assert(!empty(*board, step(x0 as int, xs as int, k), step(y0 as int, ys as int, k)));
            return false;
        }
        x = x + xs;
        y = y + ys;
        proof {
            k = k + 1;
        }
    }
    if holds_friend(board, x2, y2, piece.color) {
        return false;
    }
    true
}

/// Dispatches to the movement rule of the piece's kind.
pub(crate) fn is_piece_move_valid(coords: (usize, usize, usize, usize), piece: &Piece, board: &Board) -> (r: bool)
    requires
        coords_on_board(coords),
    ensures
        r == piece_rule_ok(*board, coords.0 as int, coords.1 as int, coords.2 as int, coords.3 as int, *piece),
{
    match piece.piece_type {
        PieceType::Pawn => is_pawn_move_valid(coords, piece, board),
        PieceType::Knight => is_knight_move_valid(coords, piece, board),
        PieceType::Bishop => is_bishop_move_valid(coords, piece, board),
        PieceType::Rook => is_rook_move_valid(coords, piece, board),
        PieceType::Queen => is_queen_move_valid(coords, piece, board),
        PieceType::King => is_king_move_valid(coords, piece, board),
    }
}

} // verus!

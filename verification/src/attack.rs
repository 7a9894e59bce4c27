use vstd::prelude::*;
use crate::pieces::{Piece, PieceColor, PieceType};
use crate::board::{Board, on_board, at};

verus! {

/// Absolute value.
pub open spec fn abs(a: int) -> int {
    if a < 0 {
        -a
    } else {
        a
    }
}

/// The rank step "forward" for a side: up the board for White, down for Black.
pub open spec fn forward(color: PieceColor) -> int {
    match color {
        PieceColor::White => 1,
        PieceColor::Black => -1,
    }
}

/// Whether `(dx, dy)` is one of the nine unit headings (the null heading included).
pub open spec fn unit_heading(dx: int, dy: int) -> bool {
    -1 <= dx <= 1 && -1 <= dy <= 1
}

/// The first piece met walking from `(x, y)` in steps of `(dx, dy)`, the start
/// square not counted; `None` for the null heading or when the walk leaves the
/// board first.
pub open spec fn first_piece(b: Board, x: int, y: int, dx: int, dy: int) -> Option<Piece>
    decreases
            (if dx == 1 {
                8 - x
            } else if dx == -1 {
                x + 1
            } else if dy == 1 {
                8 - y
            } else {
                y + 1
            }),
{
    if !unit_heading(dx, dy) || (dx == 0 && dy == 0) {
        None
    } else if !on_board(x + dx, y + dy) {
        None
    } else if at(b, x + dx, y + dy) is Some {
        at(b, x + dx, y + dy)
    } else {
        first_piece(b, x + dx, y + dy, dx, dy)
    }
}

/// Along heading `(dx, dy)` from `(x, y)` the first piece is an enemy of `color`
/// that attacks along it: a rook on a file or rank, a bishop on a diagonal, or
/// a queen.
pub open spec fn slider_attacks(b: Board, x: int, y: int, dx: int, dy: int, color: PieceColor) -> bool {
    match first_piece(b, x, y, dx, dy) {
        Some(a) => a.color != color && ((a.piece_type == PieceType::Rook && abs(dy - dx) == 1)
            || (a.piece_type == PieceType::Bishop && abs(dy - dx) != 1) || a.piece_type
            == PieceType::Queen),
        None => false,
    }
}

/// Square `(x + dx, y + dy)` holds an enemy king of `color`.
pub open spec fn king_adjacent(b: Board, x: int, y: int, dx: int, dy: int, color: PieceColor) -> bool {
    on_board(x + dx, y + dy) && match at(b, x + dx, y + dy) {
        Some(a) => a.color != color && a.piece_type == PieceType::King,
        None => false,
    }
}

/// The attack tested for unit heading `(dx, dy)`: a slider along it, or an
/// enemy king on the neighbouring square (for the null heading, on `(x, y)` itself).
pub open spec fn line_attack(b: Board, x: int, y: int, dx: int, dy: int, color: PieceColor) -> bool {
    slider_attacks(b, x, y, dx, dy, color) || king_adjacent(b, x, y, dx, dy, color)
}

/// `(dx, dy)` is a knight's jump.
pub open spec fn knight_jump(dx: int, dy: int) -> bool {
    -2 <= dx <= 2 && -2 <= dy <= 2 && dx != 0 && dy != 0 && abs(dx) != abs(dy)
}

/// Square `(x + dx, y + dy)` holds an enemy knight of `color`.
pub open spec fn knight_attack(b: Board, x: int, y: int, dx: int, dy: int, color: PieceColor) -> bool {
    on_board(x + dx, y + dy) && match at(b, x + dx, y + dy) {
        Some(a) => a.color != color && a.piece_type == PieceType::Knight,
        None => false,
    }
}

/// Square `(x + dx, y + forward(color))` holds an enemy pawn of `color`.
pub open spec fn pawn_attack(b: Board, x: int, y: int, dx: int, color: PieceColor) -> bool {
    on_board(x + dx, y + forward(color)) && match at(b, x + dx, y + forward(color)) {
        Some(a) => a.color != color && a.piece_type == PieceType::Pawn,
        None => false,
    }
}

/// Square `(x, y)` is attacked by the side opposing `color`.
pub open spec fn attacked(b: Board, x: int, y: int, color: PieceColor) -> bool {
    ||| exists|dx: int, dy: int| unit_heading(dx, dy) && #[trigger] line_attack(b, x, y, dx, dy, color)
    ||| exists|dx: int, dy: int| knight_jump(dx, dy) && #[trigger] knight_attack(b, x, y, dx, dy, color)
    ||| exists|dx: int| (dx == -1 || dx == 1) && #[trigger] pawn_attack(b, x, y, dx, color)
}

fn in_bounds(v: i8) -> (r: bool)
    ensures
        r == (0 <= v < 8),
{
    0 <= v && v <= 7
}

fn get_first_piece(x: i8, y: i8, heading: (i8, i8), board: &Board) -> (r: Option<Piece>)
    requires
        unit_heading(heading.0 as int, heading.1 as int),
        -126 <= x <= 125,
        -126 <= y <= 125,
    ensures
        r == first_piece(*board, x as int, y as int, heading.0 as int, heading.1 as int),
{
    let (dx, dy) = heading;
    if dx == 0 && dy == 0 {
        return None;
    }
    let mut cx: i8 = x + dx;
    let mut cy: i8 = y + dy;
    while in_bounds(cx) && in_bounds(cy)
        invariant
            heading == (dx, dy),
            unit_heading(dx as int, dy as int),
            !(dx == 0 && dy == 0),
            -128 < cx < 127,
            -128 < cy < 127,
            first_piece(*board, x as int, y as int, dx as int, dy as int) == first_piece(
                *board,
                cx - dx,
                cy - dy,
                dx as int,
                dy as int,
            ),
        decreases
                (if dx == 1 {
                    8 - cx
                } else if dx == -1 {
                    cx + 1
                } else if dy == 1 {
                    8 - cy
                } else {
                    cy + 1
                }),
    {
        let sq = board[cy as usize][cx as usize];
        assert(sq == at(*board, cx as int, cy as int));
        assert(first_piece(*board, cx - dx, cy - dy, dx as int, dy as int) == if sq is Some {
            sq
        } else {
            first_piece(*board, cx as int, cy as int, dx as int, dy as int)
        });
        if sq.is_some() {
            return sq;
        }
        cx = cx + dx;
        cy = cy + dy;
    }
    None
}

/// Whether square `(x, y)` is attacked by the side opposing `color`.
pub(crate) fn is_attacked(x: i8, y: i8, color: PieceColor, board: &Board) -> (r: bool)
    requires
        -126 <= x <= 125,
        -126 <= y <= 125,
    ensures
        r == attacked(*board, x as int, y as int, color),
{
    let ghost b = *board;
    // rays, and the enemy king next door
    let mut yi: i8 = -1;
    while yi <= 1
        invariant
            -1 <= yi <= 2,
            -126 <= x <= 125,
            -126 <= y <= 125,
            b == *board,
            forall|dx: int, dy: int|
                unit_heading(dx, dy) && dy < yi ==> !#[trigger] line_attack(b, x as int, y as int, dx, dy, color),
        decreases 2 - yi,
    {
        let mut xi: i8 = -1;
        while xi <= 1
            invariant
                -1 <= xi <= 2,
                -1 <= yi <= 1,
                -126 <= x <= 125,
                -126 <= y <= 125,
                b == *board,
                forall|dx: int, dy: int|
                    unit_heading(dx, dy) && (dy < yi || (dy == yi && dx < xi)) ==> !#[trigger] line_attack(
                        b,
                        x as int,
                        y as int,
                        dx,
                        dy,
                        color,
                    ),
            decreases 2 - xi,
        {
            if let Some(attacker) = get_first_piece(x, y, (xi, yi), board) {
                let d: i8 = if yi - xi < 0 { xi - yi } else { yi - xi };
                if attacker.color != color && ((attacker.piece_type == PieceType::Rook && d == 1)
                    || (attacker.piece_type == PieceType::Bishop && d != 1) || (attacker.piece_type
                    == PieceType::Queen)) {
                    assert(line_attack(b, x as int, y as int, xi as int, yi as int, color));
                    return true;
                }
            }
            if in_bounds(x + xi) && in_bounds(y + yi) {
                if let Some(attacker) = board[(y + yi) as usize][(x + xi) as usize] {
                    if attacker.color != color && attacker.piece_type == PieceType::King {
                        assert(line_attack(b, x as int, y as int, xi as int, yi as int, color));
                        return true;
                    }
                }
            }
            assert(!line_attack(b, x as int, y as int, xi as int, yi as int, color));
            xi = xi + 1;
        }
        yi = yi + 1;
    }
    // knights
    let mut yi: i8 = -2;
    while yi <= 2
        invariant
            -2 <= yi <= 3,
            -126 <= x <= 125,
            -126 <= y <= 125,
            b == *board,
            forall|dx: int, dy: int| unit_heading(dx, dy) ==> !#[trigger] line_attack(b, x as int, y as int, dx, dy, color),
            forall|dx: int, dy: int|
                knight_jump(dx, dy) && dy < yi ==> !#[trigger] knight_attack(b, x as int, y as int, dx, dy, color),
        decreases 3 - yi,
    {
        let mut xi: i8 = -2;
        while xi <= 2
            invariant
                -2 <= xi <= 3,
                -2 <= yi <= 2,
                -126 <= x <= 125,
                -126 <= y <= 125,
                b == *board,
                forall|dx: int, dy: int|
                    knight_jump(dx, dy) && (dy < yi || (dy == yi && dx < xi)) ==> !#[trigger] knight_attack(
                        b,
                        x as int,
                        y as int,
                        dx,
                        dy,
                        color,
                    ),
            decreases 3 - xi,
        {
            let ay: i8 = if yi < 0 { -yi } else { yi };
            let ax: i8 = if xi < 0 { -xi } else { xi };
            if !(yi == 0 || xi == 0 || ay == ax || !in_bounds(x + xi) || !in_bounds(y + yi)) {
                if let Some(attacker) = board[(y + yi) as usize][(x + xi) as usize] {
                    if attacker.piece_type == PieceType::Knight && attacker.color != color {
                        assert(knight_attack(b, x as int, y as int, xi as int, yi as int, color));
                        return true;
                    }
                }
            }
            assert(knight_jump(xi as int, yi as int) ==> !knight_attack(b, x as int, y as int, xi as int, yi as int, color));
            xi = xi + 1;
        }
        yi = yi + 1;
    }
    // pawns
    let dir: i8 = match color {
        PieceColor::White => 1,
        PieceColor::Black => -1,
    };
    let mut k: usize = 0;
    while k < 2
        invariant
            k <= 2,
            -126 <= x <= 125,
            -126 <= y <= 125,
            b == *board,
            dir == forward(color),
            forall|dx: int| (dx == -1 && k > 0 || dx == 1 && k > 1) ==> !#[trigger] pawn_attack(b, x as int, y as int, dx, color),
        decreases 2 - k,
    {
        let x_dir: i8 = if k == 0 { -1 } else { 1 };
        if in_bounds(x + x_dir) && in_bounds(y + dir) {
            if let Some(attacker) = board[(y + dir) as usize][(x + x_dir) as usize] {
                if attacker.color != color && attacker.piece_type == PieceType::Pawn {
                    assert(pawn_attack(b, x as int, y as int, x_dir as int, color));
                    return true;
                }
            }
        }
        k = k + 1;
    }
    false
}

/// Whether square `pos` (file, rank) is attacked by the side opposing `color`.
/// Each coordinate is read as a signed byte, so squares just off the board can be
/// asked about too.
pub fn check_check(pos: (usize, usize), color: PieceColor, board: &Board) -> (r: bool)
    requires
        -126 <= (pos.0 as i8) <= 125,
        -126 <= (pos.1 as i8) <= 125,
    ensures
        r == attacked(*board, (pos.0 as i8) as int, (pos.1 as i8) as int, color),
{
    is_attacked(pos.0 as i8, pos.1 as i8, color, board)
}

} // verus!

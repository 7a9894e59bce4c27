use vstd::prelude::*;
use crate::pieces::{Piece, PieceColor, PieceType, GameState};
use crate::board::{Board, on_board, at, put};
use crate::attack::{abs, attacked};
use crate::rules::{piece_rule_ok, path_clear, path_len, sign, step, empty};
use crate::moves::{
    move_valid, game_state, in_check, side_can_move, available_moves, owns, apply_move, move_applicable,
    moved_piece,
};

verus! {

/// `i` lies strictly between `a` and `c`.
pub open spec fn between(a: int, i: int, c: int) -> bool {
    (a < i < c) || (c < i < a)
}

/// `(i, j)` is one of the squares a straight or diagonal move from `(x, y)` to
/// `(x2, y2)` passes over (its ends excluded).
pub open spec fn passed_over(x: int, y: int, x2: int, y2: int, i: int, j: int) -> bool {
    if x2 == x {
        i == x && between(y, j, y2)
    } else if y2 == y {
        j == y && between(x, i, x2)
    } else {
        between(x, i, x2) && between(y, j, y2) && abs(i - x) == abs(j - y)
    }
}

/// Every square the move passes over is empty.
pub open spec fn nothing_in_the_way(b: Board, x: int, y: int, x2: int, y2: int) -> bool {
    forall|i: int, j: int| passed_over(x, y, x2, y2, i, j) ==> #[trigger] at(b, i, j) is None
}

/// The destination does not hold a piece of `color`.
pub open spec fn not_own_piece(b: Board, x2: int, y2: int, color: PieceColor) -> bool {
    !(at(b, x2, y2) is Some && at(b, x2, y2).unwrap().color == color)
}

/// The move runs along a file or a rank.
pub open spec fn straight(x: int, y: int, x2: int, y2: int) -> bool {
    (x2 == x) != (y2 == y)
}

/// The move runs along a diagonal.
pub open spec fn diagonal(x: int, y: int, x2: int, y2: int) -> bool {
    abs(x2 - x) == abs(y2 - y) && x2 != x
}

proof fn lemma_path_clear_is_nothing_in_the_way(b: Board, x: int, y: int, x2: int, y2: int)
    requires
        on_board(x, y),
        on_board(x2, y2),
        straight(x, y, x2, y2) || diagonal(x, y, x2, y2),
    ensures
        path_clear(b, x, y, x2, y2) == nothing_in_the_way(b, x, y, x2, y2),
{
    let sx = sign(x, x2);
    let sy = sign(y, y2);
    let n = path_len(x, y, x2, y2);
    if path_clear(b, x, y, x2, y2) {
        assert forall|i: int, j: int| passed_over(x, y, x2, y2, i, j) implies #[trigger] at(b, i, j) is None by {
            let k = if x2 == x { abs(j - y) } else { abs(i - x) };
            assert(1 <= k < n);
            assert(step(x, sx, k) == i && step(y, sy, k) == j);
            assert(empty(b, step(x, sx, k), step(y, sy, k)));
        }
    }
    if nothing_in_the_way(b, x, y, x2, y2) {
        assert forall|k: int| 1 <= k < n implies #[trigger] empty(b, step(x, sx, k), step(y, sy, k)) by {
            assert(passed_over(x, y, x2, y2, step(x, sx, k), step(y, sy, k)));
        }
    }
}

/// Rook rule: a rook may move exactly along a file or a rank with nothing in the
/// way, onto a square not holding a piece of its colour.
pub proof fn law_rook_rule(b: Board, x: int, y: int, x2: int, y2: int, p: Piece)
    requires
        p.piece_type == PieceType::Rook,
        on_board(x, y),
        on_board(x2, y2),
        !(x == x2 && y == y2),
    ensures
        piece_rule_ok(b, x, y, x2, y2, p) == (straight(x, y, x2, y2) && nothing_in_the_way(b, x, y, x2, y2)
            && not_own_piece(b, x2, y2, p.color)),
{
    if straight(x, y, x2, y2) {
        lemma_path_clear_is_nothing_in_the_way(b, x, y, x2, y2);
    }
}

/// Bishop rule: a bishop may move exactly along a diagonal with nothing in the way,
/// onto a square not holding a piece of its colour.
pub proof fn law_bishop_rule(b: Board, x: int, y: int, x2: int, y2: int, p: Piece)
    requires
        p.piece_type == PieceType::Bishop,
        on_board(x, y),
        on_board(x2, y2),
        !(x == x2 && y == y2),
    ensures
        piece_rule_ok(b, x, y, x2, y2, p) == (diagonal(x, y, x2, y2) && nothing_in_the_way(b, x, y, x2, y2)
            && not_own_piece(b, x2, y2, p.color)),
{
    if diagonal(x, y, x2, y2) {
        lemma_path_clear_is_nothing_in_the_way(b, x, y, x2, y2);
    }
}

/// Queen rule: a queen may move along a file, a rank or a diagonal with nothing in
/// the way, onto a square not holding a piece of its colour; that is, exactly
/// where a rook or a bishop of its colour could move from its square.
pub proof fn law_queen_rule(b: Board, x: int, y: int, x2: int, y2: int, p: Piece)
    requires
        p.piece_type == PieceType::Queen,
        on_board(x, y),
        on_board(x2, y2),
        !(x == x2 && y == y2),
    ensures
        piece_rule_ok(b, x, y, x2, y2, p) == ((straight(x, y, x2, y2) || diagonal(x, y, x2, y2))
            && nothing_in_the_way(b, x, y, x2, y2) && not_own_piece(b, x2, y2, p.color)),
        piece_rule_ok(b, x, y, x2, y2, p) == (piece_rule_ok(
            b,
            x,
            y,
            x2,
            y2,
            Piece { piece_type: PieceType::Rook, ..p },
        ) || piece_rule_ok(b, x, y, x2, y2, Piece { piece_type: PieceType::Bishop, ..p })),
{
    law_rook_rule(b, x, y, x2, y2, Piece { piece_type: PieceType::Rook, ..p });
    law_bishop_rule(b, x, y, x2, y2, Piece { piece_type: PieceType::Bishop, ..p });
    if straight(x, y, x2, y2) || diagonal(x, y, x2, y2) {
        lemma_path_clear_is_nothing_in_the_way(b, x, y, x2, y2);
    }
}

/// Castling rule: a king moving two or more files may only castle: it must be
/// unmoved and stay on its rank, the corner on that side must hold an unmoved rook
/// of its colour with every square between king and rook empty, and neither the
/// king's square nor the two squares it crosses towards the rook may be attacked.
/// In particular a king in check never castles.
pub proof fn law_castling_rule(b: Board, x: int, y: int, x2: int, y2: int, p: Piece)
    requires
        p.piece_type == PieceType::King,
        on_board(x, y),
        on_board(x2, y2),
        abs(x2 - x) >= 2,
    ensures
        piece_rule_ok(b, x, y, x2, y2, p) == ({
            let cx = if x2 > x { 7int } else { 0int };
            let s = if x2 > x { 1int } else { -1int };
            &&& !p.has_moved
            &&& y2 == y
            &&& at(b, cx, y) is Some
            &&& at(b, cx, y).unwrap().piece_type == PieceType::Rook
            &&& at(b, cx, y).unwrap().color == p.color
            &&& !at(b, cx, y).unwrap().has_moved
            &&& forall|i: int| between(x, i, cx) ==> #[trigger] at(b, i, y) is None
            &&& !attacked(b, x, y, p.color)
            &&& !attacked(b, x + s, y, p.color)
            &&& !attacked(b, x + 2 * s, y, p.color)
        }),
        attacked(b, x, y, p.color) ==> !piece_rule_ok(b, x, y, x2, y2, p),
{
    let cx = if x2 > x { 7int } else { 0int };
    let s = if x2 > x { 1int } else { -1int };
    if piece_rule_ok(b, x, y, x2, y2, p) {
        assert(!attacked(b, x, y, p.color));
        assert(!attacked(b, x + s, y, p.color));
        assert(!attacked(b, x + 2 * s, y, p.color));
        assert forall|i: int| between(x, i, cx) implies #[trigger] at(b, i, y) is None by {
            assert(empty(b, i, y));
        }
    }
    if !p.has_moved && y2 == y && at(b, cx, y) is Some && !attacked(b, x, y, p.color) && !attacked(
        b,
        x + s,
        y,
        p.color,
    ) && !attacked(b, x + 2 * s, y, p.color) && (forall|i: int| between(x, i, cx) ==> #[trigger] at(b, i, y) is None) {
        assert forall|xi: int|
            (if x2 > x {
                x <= xi <= x + 2
            } else {
                x - 2 <= xi <= x
            }) implies !#[trigger] attacked(b, xi, y2, p.color) by {
            if xi != x && xi != x + s {
                assert(xi == x + 2 * s);
            }
        }
        assert forall|xi: int|
            (if x2 > x {
                x + 1 <= xi <= 6
            } else {
                1 <= xi <= x - 1
            }) implies #[trigger] empty(b, xi, y2) by {
            assert(between(x, xi, cx));
            assert(at(b, xi, y) is None);
        }
    }
}

/// The game goes on exactly when the side to move has a legal move: whenever
/// `is_move_valid` accepts a move of one of its pieces, of any kind, the state is
/// `Playing`; when it accepts none, the state is `Checkmate` if its king is
/// attacked and `Stalemate` if not.
pub proof fn law_game_state_follows_legal_moves(b: Board, turn: PieceColor)
    ensures
        (game_state(b, turn) == GameState::Playing) == (exists|x: usize, y: usize, x2: usize, y2: usize|
            x < 8 && y < 8 && x2 < 8 && y2 < 8 && #[trigger] move_valid(b, (x, y, x2, y2), turn)),
        (game_state(b, turn) == GameState::Checkmate) == (!(exists|x: usize, y: usize, x2: usize, y2: usize|
            x < 8 && y < 8 && x2 < 8 && y2 < 8 && #[trigger] move_valid(b, (x, y, x2, y2), turn))
            && in_check(b, turn)),
        (game_state(b, turn) == GameState::Stalemate) == (!(exists|x: usize, y: usize, x2: usize, y2: usize|
            x < 8 && y < 8 && x2 < 8 && y2 < 8 && #[trigger] move_valid(b, (x, y, x2, y2), turn))
            && !in_check(b, turn)),
{
    let any_move = exists|x: usize, y: usize, x2: usize, y2: usize|
        x < 8 && y < 8 && x2 < 8 && y2 < 8 && #[trigger] move_valid(b, (x, y, x2, y2), turn);
    if any_move {
        let (x, y, x2, y2) = choose|x: usize, y: usize, x2: usize, y2: usize|
            x < 8 && y < 8 && x2 < 8 && y2 < 8 && #[trigger] move_valid(b, (x, y, x2, y2), turn);
        crate::laws::law_available_moves_are_the_valid_moves(b, x, y, x2, y2);
        assert(owns(b, x, y, turn));
        assert(available_moves(b, x, y).len() > 0);
        assert(side_can_move(b, turn));
    }
    if side_can_move(b, turn) {
        let (x, y) = choose|x: usize, y: usize|
            x < 8 && y < 8 && owns(b, x, y, turn) && #[trigger] available_moves(b, x, y).len() > 0;
        let t = available_moves(b, x, y)[0];
        assert(available_moves(b, x, y).contains(t));
        crate::laws::law_available_moves_are_the_valid_moves(b, x, y, t.0, t.1);
        assert(move_valid(b, (x, y, t.0, t.1), turn));
    }
}

/// 1 for an occupied square, 0 for an empty one.
pub open spec fn occupied(sq: Option<Piece>) -> int {
    if sq is Some {
        1
    } else {
        0
    }
}

/// The number of pieces on files `0 .. n` of rank `y`.
pub open spec fn rank_count(b: Board, y: int, n: int) -> int
    decreases n,
{
    if n <= 0 {
        0
    } else {
        rank_count(b, y, n - 1) + occupied(at(b, n - 1, y))
    }
}

/// The number of pieces on ranks `0 .. m`.
pub open spec fn ranks_count(b: Board, m: int) -> int
    decreases m,
{
    if m <= 0 {
        0
    } else {
        ranks_count(b, m - 1) + rank_count(b, m - 1, 8)
    }
}

/// The number of pieces on the board.
pub open spec fn piece_count(b: Board) -> int {
    ranks_count(b, 8)
}

proof fn lemma_rank_count_put(b: Board, x: int, y: int, v: Option<Piece>, yy: int, n: int)
    requires
        on_board(x, y),
        0 <= n <= 8,
    ensures
        rank_count(put(b, x, y, v), yy, n) == rank_count(b, yy, n) + if yy == y && x < n {
            occupied(v) - occupied(at(b, x, y))
        } else {
            0
        },
    decreases n,
{
    crate::board::lemma_put(b, x, y, v);
    if n > 0 {
        lemma_rank_count_put(b, x, y, v, yy, n - 1);
        if on_board(n - 1, yy) {
            assert(at(put(b, x, y, v), n - 1, yy) == if n - 1 == x && yy == y { v } else { at(b, n - 1, yy) });
        }
    }
}

proof fn lemma_ranks_count_put(b: Board, x: int, y: int, v: Option<Piece>, m: int)
    requires
        on_board(x, y),
        0 <= m <= 8,
    ensures
        ranks_count(put(b, x, y, v), m) == ranks_count(b, m) + if y < m {
            occupied(v) - occupied(at(b, x, y))
        } else {
            0
        },
    decreases m,
{
    if m > 0 {
        lemma_ranks_count_put(b, x, y, v, m - 1);
        lemma_rank_count_put(b, x, y, v, m - 1, 8);
    }
}

/// Writing a square changes the piece count by what was removed and what was placed.
pub proof fn law_piece_count_put(b: Board, x: int, y: int, v: Option<Piece>)
    requires
        on_board(x, y),
    ensures
        piece_count(put(b, x, y, v)) == piece_count(b) - occupied(at(b, x, y)) + occupied(v),
{
    lemma_ranks_count_put(b, x, y, v, 8);
}

/// `move_piece` never adds pieces to the board: a capture (en passant included)
/// removes one, anything else keeps the count, castling included.
pub proof fn law_moves_never_add_pieces(b: Board, x: int, y: int, x2: int, y2: int)
    requires
        move_applicable(b, x, y, x2, y2),
    ensures
        piece_count(apply_move(b, x, y, x2, y2)) <= piece_count(b),
        at(b, x2, y2) is None && !(at(b, x, y).unwrap().piece_type == PieceType::Pawn && abs(x2 - x) == 1)
            && !(at(b, x, y).unwrap().piece_type == PieceType::King && abs(x2 - x) > 1) ==> piece_count(
            apply_move(b, x, y, x2, y2),
        ) == piece_count(b),
{
    let p = at(b, x, y).unwrap();
    let mp = moved_piece(p, y, y2);
    let b1 = put(b, x, y, None);
    law_piece_count_put(b, x, y, None);
    crate::board::lemma_put(b, x, y, None);
    if p.piece_type == PieceType::King && abs(x2 - x) > 1 {
        let rf = crate::moves::rook_file(x, x2);
        let rook = at(b1, rf, y).unwrap();
        let b2 = put(b1, rf, y, None);
        law_piece_count_put(b1, rf, y, None);
        let kx = if x2 > x { x + 2 } else { x - 2 };
        let b3 = put(b2, kx, y2, Some(mp));
        law_piece_count_put(b2, kx, y2, Some(mp));
        let rv = Some(Piece { color: rook.color, piece_type: rook.piece_type, has_moved: true, en_passantable: rook.en_passantable });
        law_piece_count_put(b3, if x2 > x { x + 1 } else { x - 1 }, y2, rv);
    } else if p.piece_type == PieceType::Pawn && abs(x2 - x) == 1 && empty(b1, x2, y2) {
        let cy = if p.color == PieceColor::White { y2 - 1 } else { y2 + 1 };
        law_piece_count_put(b1, x2, cy, None);
        law_piece_count_put(put(b1, x2, cy, None), x2, y2, Some(mp));
    } else if p.piece_type == PieceType::Pawn && (y2 == 7 || y2 == 0) {
        law_piece_count_put(
            b1,
            x2,
            y2,
            Some(Piece { color: p.color, piece_type: PieceType::Queen, has_moved: true, en_passantable: false }),
        );
    } else {
        law_piece_count_put(b1, x2, y2, Some(mp));
    }
}

/// Castling as `move_piece` makes it: the king leaves its square for the square two
/// files towards the corner, the piece in the corner is lifted out of it (on the
/// queen's side as on the king's) onto the square the king crossed, both marked as
/// moved, and nothing else changes.
pub proof fn law_castling_moves_king_and_rook(b: Board, x: int, y: int, x2: int, y2: int, i: int, j: int)
    requires
        move_applicable(b, x, y, x2, y2),
        at(b, x, y).unwrap().piece_type == PieceType::King,
        abs(x2 - x) >= 2,
        on_board(i, j),
    ensures
        ({
            let a = apply_move(b, x, y, x2, y2);
            let k = at(b, x, y).unwrap();
            let cx = if x2 > x { 7int } else { 0int };
            let s = if x2 > x { 1int } else { -1int };
            let r = at(b, cx, y).unwrap();
            &&& at(a, x + 2 * s, y2) == Some(Piece { color: k.color, piece_type: PieceType::King, has_moved: true, en_passantable: k.en_passantable })
            &&& at(a, x + s, y2) == Some(Piece { color: r.color, piece_type: r.piece_type, has_moved: true, en_passantable: r.en_passantable })
            &&& (!(i == x + 2 * s && j == y2) && !(i == x + s && j == y2) && ((i == x && j == y) || (i == cx && j == y))) ==> at(a, i, j) is None
            &&& (!(i == x + 2 * s && j == y2) && !(i == x + s && j == y2) && !(i == x && j == y) && !(i == cx && j == y)) ==> at(a, i, j) == at(b, i, j)
        }),
{
}

} // verus!

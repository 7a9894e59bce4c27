use vstd::prelude::*;
use crate::pieces::{Piece, PieceColor, PieceType, other_side};
use crate::board::{Board, on_board, at, put};
use crate::attack::{
    abs, attacked, first_piece, unit_heading, line_attack, knight_attack, knight_jump, pawn_attack,
};
use crate::rules::{friendly, step, sign, path_len, path_clear, empty};
use crate::moves::{
    after_move, apply_move, available_moves, cleared, has_king, in_check, king_from,
    move_valid, move_decidable, moved_piece, passes_piece_rules, row_moves, rows_moves,
    targets_decidable, scan_decidable, holds_king,
};

verus! {

/// A legal move never leaves the mover's king attacked: when `is_move_valid`
/// accepts `c` and the move is made with `move_piece`, the king of `turn` that
/// `find_king` locates is not attacked according to `check_check`.
pub proof fn law_valid_move_leaves_king_safe(b: Board, c: (usize, usize, usize, usize), turn: PieceColor)
    requires
        move_decidable(b, c, turn),
        move_valid(b, c, turn),
    ensures
        has_king(after_move(b, c), turn),
        !in_check(after_move(b, c), turn),
{
}

/// A legal move empties the square the piece left.
pub proof fn law_valid_move_vacates_source(b: Board, c: (usize, usize, usize, usize), turn: PieceColor)
    requires
        move_valid(b, c, turn),
    ensures
        at(after_move(b, c), c.0 as int, c.1 as int) is None,
{
}

/// A legal move only changes squares on the rank it leaves and the rank it
/// reaches (castling and en passant included).
pub proof fn law_valid_move_is_local(b: Board, c: (usize, usize, usize, usize), turn: PieceColor, i: int, j: int)
    requires
        move_valid(b, c, turn),
        on_board(i, j),
        j != c.1 as int,
        j != c.3 as int,
    ensures
        at(after_move(b, c), i, j) == at(b, i, j),
{
}

/// A move that passes the piece rules (in particular a legal move) never lands on
/// a piece of the mover's own colour, except a castling move, whose destination
/// may be the castling rook's corner.
pub proof fn law_no_capture_of_own_piece(b: Board, c: (usize, usize, usize, usize), turn: PieceColor)
    requires
        passes_piece_rules(b, c, turn),
        !(at(b, c.0 as int, c.1 as int).unwrap().piece_type == PieceType::King && abs(c.2 - c.0) > 1),
    ensures
        !friendly(b, c.2 as int, c.3 as int, turn),
{
}

proof fn lemma_row_moves(b: Board, x: usize, y: usize, color: PieceColor, y2: int, n: int)
    requires
        0 <= n <= 8,
        0 <= y2 < 8,
    ensures
        forall|t: (usize, usize)|
            #[trigger] row_moves(b, x, y, color, y2, n).contains(t) <==> (t.1 == y2 && t.0 < n && move_valid(
                b,
                (x, y, t.0, t.1),
                color,
            )),
    decreases n,
{
    if n > 0 {
        lemma_row_moves(b, x, y, color, y2, n - 1);
        let prev = row_moves(b, x, y, color, y2, n - 1);
        let e = ((n - 1) as usize, y2 as usize);
        assert forall|t: (usize, usize)|
            #[trigger] row_moves(b, x, y, color, y2, n).contains(t) <==> (t.1 == y2 && t.0 < n && move_valid(
                b,
                (x, y, t.0, t.1),
                color,
            )) by {
            if move_valid(b, (x, y, e.0, e.1), color) {
                assert(row_moves(b, x, y, color, y2, n) == prev.push(e));
                if row_moves(b, x, y, color, y2, n).contains(t) && t != e {
                    let k = choose|k: int| 0 <= k < prev.push(e).len() && prev.push(e)[k] == t;
                    assert(prev[k] == t);
                }
                if prev.contains(t) {
                    let k = choose|k: int| 0 <= k < prev.len() && prev[k] == t;
                    assert(prev.push(e)[k] == t);
                }
                if t == e {
                    assert(prev.push(e)[prev.len() as int] == t);
                }
            } else {
                assert(row_moves(b, x, y, color, y2, n) =~= prev);
            }
        }
    }
}

proof fn lemma_rows_moves(b: Board, x: usize, y: usize, color: PieceColor, m: int)
    requires
        0 <= m <= 8,
    ensures
        forall|t: (usize, usize)|
            #[trigger] rows_moves(b, x, y, color, m).contains(t) <==> (t.1 < m && t.0 < 8 && move_valid(
                b,
                (x, y, t.0, t.1),
                color,
            )),
    decreases m,
{
    if m > 0 {
        lemma_rows_moves(b, x, y, color, m - 1);
        lemma_row_moves(b, x, y, color, m - 1, 8);
        let prev = rows_moves(b, x, y, color, m - 1);
        let row = row_moves(b, x, y, color, m - 1, 8);
        assert(rows_moves(b, x, y, color, m) == prev + row);
        assert forall|t: (usize, usize)|
            #[trigger] rows_moves(b, x, y, color, m).contains(t) <==> (t.1 < m && t.0 < 8 && move_valid(
                b,
                (x, y, t.0, t.1),
                color,
            )) by {
            if (prev + row).contains(t) {
                let k = choose|k: int| 0 <= k < (prev + row).len() && (prev + row)[k] == t;
                if k < prev.len() {
                    assert(prev[k] == t);
                } else {
                    assert(row[k - prev.len()] == t);
                }
            }
            if prev.contains(t) {
                let k = choose|k: int| 0 <= k < prev.len() && prev[k] == t;
                assert((prev + row)[k] == t);
            }
            if row.contains(t) {
                let k = choose|k: int| 0 <= k < row.len() && row[k] == t;
                assert((prev + row)[prev.len() + k] == t);
            }
        }
    }
}

/// `get_available_moves` lists exactly the destinations of the moves that
/// `is_move_valid` accepts for the piece on `(x, y)` and its colour, and nothing
/// for an empty square.
pub proof fn law_available_moves_are_the_valid_moves(b: Board, x: usize, y: usize, x2: usize, y2: usize)
    ensures
        available_moves(b, x, y).contains((x2, y2)) <==> (at(b, x as int, y as int) is Some && x2 < 8
            && y2 < 8 && move_valid(b, (x, y, x2, y2), at(b, x as int, y as int).unwrap().color)),
{
    if let Some(p) = at(b, x as int, y as int) {
        lemma_rows_moves(b, x, y, p.color, 8);
    }
}

/// Clearing the en-passant flags of `turn` leaves no pawn of `turn` that can be
/// taken en passant, leaves every other piece as it was, and doing it twice is
/// the same as doing it once.
pub proof fn law_clearing_en_passant(sq: Option<Piece>, turn: PieceColor)
    ensures
        cleared(sq, turn) matches Some(p) ==> !(p.color == turn && p.piece_type == PieceType::Pawn
            && p.en_passantable),
        (sq matches Some(p) && !(p.color == turn && p.piece_type == PieceType::Pawn)) ==> cleared(sq, turn) == sq,
        cleared(cleared(sq, turn), turn) == cleared(sq, turn),
{
}

/// Two squares hold the same man: both are empty, or both hold pieces of the same
/// colour and kind (their flags may differ).
pub open spec fn same_man(a: Option<Piece>, b: Option<Piece>) -> bool {
    match (a, b) {
        (Some(p), Some(q)) => p.color == q.color && p.piece_type == q.piece_type,
        (None, None) => true,
        _ => false,
    }
}

/// Every square of the two boards holds the same man.
pub open spec fn same_men(b1: Board, b2: Board) -> bool {
    forall|i: int, j: int| on_board(i, j) ==> #[trigger] same_man(at(b1, i, j), at(b2, i, j))
}

proof fn lemma_put_same_men(b1: Board, b2: Board, x: int, y: int, v1: Option<Piece>, v2: Option<Piece>)
    requires
        same_men(b1, b2),
        same_man(v1, v2),
        on_board(x, y),
    ensures
        same_men(put(b1, x, y, v1), put(b2, x, y, v2)),
{
    crate::board::lemma_put(b1, x, y, v1);
    crate::board::lemma_put(b2, x, y, v2);
    assert forall|i: int, j: int| on_board(i, j) implies #[trigger] same_man(
        at(put(b1, x, y, v1), i, j),
        at(put(b2, x, y, v2), i, j),
    ) by {
        if !(i == x && j == y) {
            assert(same_man(at(b1, i, j), at(b2, i, j)));
        }
    }
}

proof fn lemma_first_piece_same_man(b1: Board, b2: Board, x: int, y: int, dx: int, dy: int)
    requires
        same_men(b1, b2),
    ensures
        same_man(first_piece(b1, x, y, dx, dy), first_piece(b2, x, y, dx, dy)),
    decreases
            (if dx == 1 {
                8 - x
            } else if dx == -1 {
                x + 1
            } else if dy == 1 {
                8 - y
            } else {
                y + 1
            }),
{
    if unit_heading(dx, dy) && !(dx == 0 && dy == 0) && on_board(x + dx, y + dy) {
        assert(same_man(at(b1, x + dx, y + dy), at(b2, x + dx, y + dy)));
        if at(b1, x + dx, y + dy) is None {
            lemma_first_piece_same_man(b1, b2, x + dx, y + dy, dx, dy);
        }
    }
}

/// Whether a square is attacked depends only on which men stand where, not on
/// their moved or en-passant flags.
pub proof fn law_attacks_ignore_flags(b1: Board, b2: Board, x: int, y: int, color: PieceColor)
    requires
        same_men(b1, b2),
    ensures
        attacked(b1, x, y, color) == attacked(b2, x, y, color),
{
    assert forall|dx: int, dy: int|
        #![trigger line_attack(b1, x, y, dx, dy, color)]
        #![trigger line_attack(b2, x, y, dx, dy, color)]
        line_attack(b1, x, y, dx, dy, color) == line_attack(b2, x, y, dx, dy, color) by {
        lemma_first_piece_same_man(b1, b2, x, y, dx, dy);
        if on_board(x + dx, y + dy) {
            assert(same_man(at(b1, x + dx, y + dy), at(b2, x + dx, y + dy)));
        }
    }
    assert forall|dx: int, dy: int|
        #![trigger knight_attack(b1, x, y, dx, dy, color)]
        #![trigger knight_attack(b2, x, y, dx, dy, color)]
        knight_attack(b1, x, y, dx, dy, color) == knight_attack(b2, x, y, dx, dy, color) by {
        if on_board(x + dx, y + dy) {
            assert(same_man(at(b1, x + dx, y + dy), at(b2, x + dx, y + dy)));
        }
    }
    assert forall|dx: int|
        #![trigger pawn_attack(b1, x, y, dx, color)]
        #![trigger pawn_attack(b2, x, y, dx, color)]
        pawn_attack(b1, x, y, dx, color) == pawn_attack(b2, x, y, dx, color) by {
        if on_board(x + dx, y + crate::attack::forward(color)) {
            assert(same_man(
                at(b1, x + dx, y + crate::attack::forward(color)),
                at(b2, x + dx, y + crate::attack::forward(color)),
            ));
        }
    }
}

proof fn lemma_king_from_same(b1: Board, b2: Board, color: PieceColor, x: int, y: int)
    requires
        same_men(b1, b2),
    ensures
        king_from(b1, color, x, y) == king_from(b2, color, x, y),
    decreases 64 - 8 * y - x,
{
    if 0 <= x < 8 && 0 <= y < 8 {
        assert(same_man(at(b1, x, y), at(b2, x, y)));
        if x == 7 {
            lemma_king_from_same(b1, b2, color, 0, y + 1);
        } else {
            lemma_king_from_same(b1, b2, color, x + 1, y);
        }
    }
}

/// Clearing the en-passant flags of `turn`'s pawns (as each turn begins) does not
/// change which moves of `turn` are legal, nor where its king stands or whether
/// it is attacked after such a move.
pub proof fn law_clearing_keeps_legality(b: Board, b2: Board, c: (usize, usize, usize, usize), turn: PieceColor)
    requires
        forall|i: int, j: int| on_board(i, j) ==> #[trigger] at(b2, i, j) == cleared(at(b, i, j), turn),
    ensures
        passes_piece_rules(b, c, turn) == passes_piece_rules(b2, c, turn),
        passes_piece_rules(b, c, turn) ==> same_men(after_move(b, c), after_move(b2, c)),
        move_valid(b, c, turn) == move_valid(b2, c, turn),
{
    assert(same_men(b, b2)) by {
        assert forall|i: int, j: int| on_board(i, j) implies #[trigger] same_man(at(b, i, j), at(b2, i, j)) by {
            assert(at(b2, i, j) == cleared(at(b, i, j), turn));
        }
    }
    assert forall|xi: int, yi: int|
        #![trigger attacked(b, xi, yi, turn)]
        #![trigger attacked(b2, xi, yi, turn)]
        attacked(b, xi, yi, turn) == attacked(b2, xi, yi, turn) by {
        law_attacks_ignore_flags(b, b2, xi, yi, turn);
    }
    assert forall|xi: int, yi: int| #[trigger] at(b2, xi, yi) == cleared(at(b, xi, yi), turn) by {
        if on_board(xi, yi) {
            assert(at(b2, xi, yi) == cleared(at(b, xi, yi), turn));
        }
    }
    assert forall|xi: int, yi: int|
        #![trigger crate::rules::empty(b, xi, yi)]
        #![trigger crate::rules::empty(b2, xi, yi)]
        crate::rules::empty(b, xi, yi) == crate::rules::empty(b2, xi, yi) by {
        assert(at(b2, xi, yi) == cleared(at(b, xi, yi), turn));
    }
    assert forall|xi: int, yi: int, col: PieceColor|
        #![trigger crate::rules::friendly(b, xi, yi, col)]
        #![trigger crate::rules::friendly(b2, xi, yi, col)]
        crate::rules::friendly(b, xi, yi, col) == crate::rules::friendly(b2, xi, yi, col) by {
        assert(at(b2, xi, yi) == cleared(at(b, xi, yi), turn));
    }
    let (x, y, x2, y2) = (c.0 as int, c.1 as int, c.2 as int, c.3 as int);
    if crate::rules::coords_on_board(c) && at(b, x, y) is Some && at(b, x, y).unwrap().color == turn {
        let p = at(b, x, y).unwrap();
        let q = at(b2, x, y).unwrap();
        assert(at(b2, x, y) == cleared(at(b, x, y), turn));
        assert(at(b2, x2, y2) == cleared(at(b, x2, y2), turn));
        assert(at(b2, x2, y) == cleared(at(b, x2, y), turn));
        let rf = crate::moves::rook_file(x, x2);
        assert(at(b2, rf, y) == cleared(at(b, rf, y), turn));
        assert(crate::rules::path_clear(b, x, y, x2, y2) == crate::rules::path_clear(b2, x, y, x2, y2));
        assert(crate::rules::castle_squares_safe(b, x, y2, x2 > x, turn) == crate::rules::castle_squares_safe(b2, x, y2, x2 > x, turn));
        assert(crate::rules::castle_squares_empty(b, x, y2, x2 > x) == crate::rules::castle_squares_empty(b2, x, y2, x2 > x));
        assert(crate::rules::piece_rule_ok(b, x, y, x2, y2, p) == crate::rules::piece_rule_ok(b2, x, y, x2, y2, q));
    }
    assert(passes_piece_rules(b, c, turn) == passes_piece_rules(b2, c, turn));
    if passes_piece_rules(b, c, turn) {
        lemma_after_move_same_men(b, b2, c, turn);
        let a1 = after_move(b, c);
        let a2 = after_move(b2, c);
        lemma_king_from_same(a1, a2, turn, 0, 0);
        assert forall|xi: int, yi: int| #[trigger] attacked(a1, xi, yi, turn) == attacked(a2, xi, yi, turn) by {
            law_attacks_ignore_flags(a1, a2, xi, yi, turn);
        }
    }
}

proof fn lemma_after_move_same_men(b: Board, b2: Board, c: (usize, usize, usize, usize), turn: PieceColor)
    requires
        same_men(b, b2),
        passes_piece_rules(b, c, turn),
        passes_piece_rules(b2, c, turn),
    ensures
        same_men(after_move(b, c), after_move(b2, c)),
{
    crate::moves::law_rule_passing_moves_can_be_made(b, c, turn);
    let (x, y, x2, y2) = (c.0 as int, c.1 as int, c.2 as int, c.3 as int);
    let p = at(b, x, y).unwrap();
    let q = at(b2, x, y).unwrap();
    assert(same_man(at(b, x, y), at(b2, x, y)));
    let b1 = put(b, x, y, None);
    let c1 = put(b2, x, y, None);
    lemma_put_same_men(b, b2, x, y, None, None);
    if p.piece_type == PieceType::King && abs(x2 - x) > 1 {
        let rf = crate::moves::rook_file(x, x2);
        assert(same_man(at(b1, rf, y), at(c1, rf, y)));
        let rook = at(b1, rf, y).unwrap();
        let rook2 = at(c1, rf, y).unwrap();
        let b2b = put(b1, rf, y, None);
        let c2b = put(c1, rf, y, None);
        lemma_put_same_men(b1, c1, rf, y, None, None);
        let kx = if x2 > x { x + 2 } else { x - 2 };
        let b3 = put(b2b, kx, y2, Some(moved_piece(p, y, y2)));
        let c3 = put(c2b, kx, y2, Some(moved_piece(q, y, y2)));
        lemma_put_same_men(b2b, c2b, kx, y2, Some(moved_piece(p, y, y2)), Some(moved_piece(q, y, y2)));
        lemma_put_same_men(
            b3,
            c3,
            if x2 > x { x + 1 } else { x - 1 },
            y2,
            Some(Piece { color: rook.color, piece_type: rook.piece_type, has_moved: true, en_passantable: rook.en_passantable }),
            Some(Piece { color: rook2.color, piece_type: rook2.piece_type, has_moved: true, en_passantable: rook2.en_passantable }),
        );
    } else if p.piece_type == PieceType::Pawn && abs(x2 - x) == 1 && at(b1, x2, y2) is None {
        assert(same_man(at(b1, x2, y2), at(c1, x2, y2)));
        let cy = if p.color == PieceColor::White { y2 - 1 } else { y2 + 1 };
        lemma_put_same_men(b1, c1, x2, cy, None, None);
        lemma_put_same_men(put(b1, x2, cy, None), put(c1, x2, cy, None), x2, y2, Some(moved_piece(p, y, y2)), Some(moved_piece(q, y, y2)));
    } else {
        assert(same_man(at(b1, x2, y2), at(c1, x2, y2)));
        if p.piece_type == PieceType::Pawn && (y2 == 7 || y2 == 0) {
            let qn = Some(Piece { color: p.color, piece_type: PieceType::Queen, has_moved: true, en_passantable: false });
            let qn2 = Some(Piece { color: q.color, piece_type: PieceType::Queen, has_moved: true, en_passantable: false });
            lemma_put_same_men(b1, c1, x2, y2, qn, qn2);
        } else {
            lemma_put_same_men(b1, c1, x2, y2, Some(moved_piece(p, y, y2)), Some(moved_piece(q, y, y2)));
        }
    }
    assert(after_move(b, c) == apply_move(b, x, y, x2, y2));
}

proof fn lemma_king_from_finds(b: Board, color: PieceColor, x: int, y: int, kx: int, ky: int)
    requires
        0 <= x < 8,
        0 <= y < 8,
        on_board(kx, ky),
        8 * ky + kx >= 8 * y + x,
        holds_king(b, kx, ky, color),
    ensures
        king_from(b, color, x, y) is Some,
    decreases 64 - 8 * y - x,
{
    if !holds_king(b, x, y, color) {
        if x == 7 {
            lemma_king_from_finds(b, color, 0, y + 1, kx, ky);
        } else {
            lemma_king_from_finds(b, color, x + 1, y, kx, ky);
        }
    }
}

proof fn lemma_king_from_found(b: Board, color: PieceColor, x: int, y: int)
    requires
        king_from(b, color, x, y) is Some,
    ensures
        on_board(king_from(b, color, x, y).unwrap().0, king_from(b, color, x, y).unwrap().1),
        holds_king(b, king_from(b, color, x, y).unwrap().0, king_from(b, color, x, y).unwrap().1, color),
    decreases 64 - 8 * y - x,
{
    if 0 <= x < 8 && 0 <= y < 8 {
        if !holds_king(b, x, y, color) {
            if x == 7 {
                lemma_king_from_found(b, color, 0, y + 1);
            } else {
                lemma_king_from_found(b, color, x + 1, y);
            }
        }
    }
}

/// `color` has a king exactly when some board square holds a king of `color`.
pub proof fn law_has_king_iff_king_on_board(b: Board, color: PieceColor, kx: int, ky: int)
    ensures
        holds_king(b, kx, ky, color) ==> has_king(b, color),
        has_king(b, color) ==> holds_king(
            b,
            crate::moves::king_square(b, color).unwrap().0,
            crate::moves::king_square(b, color).unwrap().1,
            color,
        ),
{
    if holds_king(b, kx, ky, color) {
        lemma_king_from_finds(b, color, 0, 0, kx, ky);
    }
    if has_king(b, color) {
        lemma_king_from_found(b, color, 0, 0);
    }
}

/// A move that passes the piece rules never takes away the mover's king: the king
/// either moves (castling included) or stays where it was.
pub proof fn law_rule_passing_moves_keep_the_king(b: Board, c: (usize, usize, usize, usize), turn: PieceColor)
    requires
        has_king(b, turn),
        passes_piece_rules(b, c, turn),
    ensures
        has_king(after_move(b, c), turn),
{
    let (x, y, x2, y2) = (c.0 as int, c.1 as int, c.2 as int, c.3 as int);
    let p = at(b, x, y).unwrap();
    let a = after_move(b, c);
    law_has_king_iff_king_on_board(b, turn, 0, 0);
    let k = crate::moves::king_square(b, turn).unwrap();
    if p.piece_type == PieceType::King {
        if abs(x2 - x) > 1 {
            let kx = if x2 > x { x + 2 } else { x - 2 };
            assert(at(a, kx, y2) == Some(moved_piece(p, y, y2)));
            law_has_king_iff_king_on_board(a, turn, kx, y2);
        } else {
            assert(at(a, x2, y2) == Some(moved_piece(p, y, y2)));
            law_has_king_iff_king_on_board(a, turn, x2, y2);
        }
    } else {
        law_no_capture_of_own_piece(b, c, turn);
        assert(at(a, k.0, k.1) == at(b, k.0, k.1));
        law_has_king_iff_king_on_board(a, turn, k.0, k.1);
    }
}

/// With a king of `turn` on the board every move of `turn` can be decided by
/// `is_move_valid`, every piece of `turn` can have its moves listed, and the game
/// state of `turn` can be determined.
pub proof fn law_king_on_board_makes_everything_decidable(b: Board, turn: PieceColor)
    requires
        has_king(b, turn),
    ensures
        forall|c: (usize, usize, usize, usize)| #[trigger] move_decidable(b, c, turn),
        forall|x: usize, y: usize| #[trigger] targets_decidable(b, x, y, turn),
        scan_decidable(b, turn, 0, 0),
{
    assert forall|c: (usize, usize, usize, usize)| #[trigger] move_decidable(b, c, turn) by {
        if passes_piece_rules(b, c, turn) {
            law_rule_passing_moves_keep_the_king(b, c, turn);
        }
    }
    lemma_scan_decidable(b, turn, 0, 0);
}

proof fn lemma_scan_decidable(b: Board, turn: PieceColor, x: int, y: int)
    requires
        has_king(b, turn),
        forall|c: (usize, usize, usize, usize)| #[trigger] move_decidable(b, c, turn),
    ensures
        scan_decidable(b, turn, x, y),
    decreases 64 - 8 * y - x,
{
    if 0 <= x < 8 && 0 <= y < 8 {
        if x == 7 {
            lemma_scan_decidable(b, turn, 0, y + 1);
        } else {
            lemma_scan_decidable(b, turn, x + 1, y);
        }
    }
}

/// Apart from castling, a piece other than a pawn arrives on the destination
/// square as itself: same colour and kind, marked as moved (only pawns are
/// promoted).
pub proof fn law_non_pawns_keep_their_kind(b: Board, c: (usize, usize, usize, usize), turn: PieceColor)
    requires
        passes_piece_rules(b, c, turn),
        at(b, c.0 as int, c.1 as int).unwrap().piece_type != PieceType::Pawn,
        !(at(b, c.0 as int, c.1 as int).unwrap().piece_type == PieceType::King && abs(c.2 - c.0) > 1),
    ensures
        at(after_move(b, c), c.2 as int, c.3 as int) == Some(
            moved_piece(at(b, c.0 as int, c.1 as int).unwrap(), c.1 as int, c.3 as int),
        ),
        at(after_move(b, c), c.2 as int, c.3 as int).unwrap().piece_type == at(b, c.0 as int, c.1 as int).unwrap().piece_type,
{
}

/// A pawn that reaches rank 7 or rank 0 by a forward step or a capture of the
/// piece on its destination becomes a queen of its colour.
pub proof fn law_pawns_promote_to_queens(b: Board, c: (usize, usize, usize, usize), turn: PieceColor)
    requires
        passes_piece_rules(b, c, turn),
        at(b, c.0 as int, c.1 as int).unwrap().piece_type == PieceType::Pawn,
        c.3 == 7 || c.3 == 0,
        !(abs(c.2 - c.0) == 1 && crate::rules::empty(b, c.2 as int, c.3 as int)),
    ensures
        at(after_move(b, c), c.2 as int, c.3 as int) == Some(
            Piece { color: turn, piece_type: PieceType::Queen, has_moved: true, en_passantable: false },
        ),
{
}

/// Knight rule: the move is a jump of one and two squares, in either order, onto a
/// square holding no piece of the knight's colour.
pub proof fn law_knight_rule(b: Board, x: int, y: int, x2: int, y2: int, p: Piece)
    ensures
        crate::rules::knight_move_ok(b, x, y, x2, y2, p) == (((abs(x2 - x) == 1 && abs(y2 - y) == 2) || (
        abs(x2 - x) == 2 && abs(y2 - y) == 1)) && !friendly(b, x2, y2, p.color)),
{
}

/// Pawn rule, written out: one step forward onto an empty square; two steps from
/// an unmoved pawn over two empty squares; or one diagonal step forward onto an
/// enemy piece, or onto an empty square beside an enemy pawn that may be taken en
/// passant.
pub proof fn law_pawn_rule(b: Board, x: int, y: int, x2: int, y2: int, p: Piece)
    ensures
        crate::rules::pawn_move_ok(b, x, y, x2, y2, p) == ({
            let f = if p.color == PieceColor::White { y2 - y } else { y - y2 };
            let dx = abs(x2 - x);
            ||| dx == 0 && f == 1 && at(b, x2, y2) is None
            ||| dx == 0 && f == 2 && !p.has_moved && at(b, x2, y2) is None && at(b, x, (y + y2) / 2) is None
            ||| dx == 1 && f == 1 && (match at(b, x2, y2) {
                Some(q) => q.color != p.color,
                None => at(b, x2, y) matches Some(q) && q.color != p.color && q.en_passantable,
            })
        }),
{
}

/// King rule away from castling: a king moving two or more squares, other than an
/// unmoved king moving along its rank, is never allowed; a single step is allowed
/// exactly onto a square holding no piece of its colour that is not attacked.
pub proof fn law_king_rule(b: Board, x: int, y: int, x2: int, y2: int, p: Piece)
    ensures
        (abs(x2 - x) >= 2 || abs(y2 - y) >= 2) && (y2 != y || p.has_moved) ==> !crate::rules::king_move_ok(
            b,
            x,
            y,
            x2,
            y2,
            p,
        ),
        (abs(x2 - x) <= 1 && abs(y2 - y) <= 1) ==> (crate::rules::king_move_ok(b, x, y, x2, y2, p) == (!friendly(
            b,
            x2,
            y2,
            p.color,
        ) && !attacked(b, x2, y2, p.color))),
{
}

/// The first piece along a heading is the nearest occupied square in that
/// direction with every square before it empty; `None` when the walk leaves the
/// board (or the heading is null) without meeting a piece.
pub proof fn law_first_piece_is_nearest(b: Board, x: int, y: int, dx: int, dy: int)
    requires
        unit_heading(dx, dy),
        !(dx == 0 && dy == 0),
    ensures
        first_piece(b, x, y, dx, dy) matches Some(p) ==> exists|k: int|
            k >= 1 && #[trigger] at(b, x + k * dx, y + k * dy) == Some(p) && (forall|j: int|
                1 <= j < k ==> on_board(x + j * dx, y + j * dy) && #[trigger] at(b, x + j * dx, y + j * dy) is None),
        first_piece(b, x, y, dx, dy) is None ==> forall|k: int|
            k >= 1 && (forall|j: int| 1 <= j < k ==> #[trigger] on_board(x + j * dx, y + j * dy))
                ==> #[trigger] at(b, x + k * dx, y + k * dy) is None,
    decreases
            (if dx == 1 {
                8 - x
            } else if dx == -1 {
                x + 1
            } else if dy == 1 {
                8 - y
            } else {
                y + 1
            }),
{
    if on_board(x + dx, y + dy) && at(b, x + dx, y + dy) is None {
        law_first_piece_is_nearest(b, x + dx, y + dy, dx, dy);
        let nx = x + dx;
        let ny = y + dy;
        if let Some(p) = first_piece(b, x, y, dx, dy) {
            let k = choose|k: int|
                k >= 1 && #[trigger] at(b, nx + k * dx, ny + k * dy) == Some(p) && (forall|j: int|
                    1 <= j < k ==> on_board(nx + j * dx, ny + j * dy) && #[trigger] at(b, nx + j * dx, ny + j * dy) is None);
            assert(nx + k * dx == x + (k + 1) * dx) by (nonlinear_arith) requires nx == x + dx;
            assert(ny + k * dy == y + (k + 1) * dy) by (nonlinear_arith) requires ny == y + dy;
            assert forall|j: int| 1 <= j < k + 1 implies on_board(x + j * dx, y + j * dy) && #[trigger] at(b, x + j * dx, y + j * dy) is None by {
                if j > 1 {
                    assert(nx + (j - 1) * dx == x + j * dx) by (nonlinear_arith) requires nx == x + dx;
                    assert(ny + (j - 1) * dy == y + j * dy) by (nonlinear_arith) requires ny == y + dy;
                } else {
                    assert(x + j * dx == nx && y + j * dy == ny) by (nonlinear_arith) requires j == 1, nx == x + dx, ny == y + dy;
                }
            }
            assert(at(b, x + (k + 1) * dx, y + (k + 1) * dy) == Some(p));
        } else {
            assert forall|k: int|
                k >= 1 && (forall|j: int| 1 <= j < k ==> #[trigger] on_board(x + j * dx, y + j * dy))
                    implies #[trigger] at(b, x + k * dx, y + k * dy) is None by {
                if k == 1 {
                    assert(x + k * dx == nx && y + k * dy == ny) by (nonlinear_arith) requires k == 1, nx == x + dx, ny == y + dy;
                } else {
                    assert(nx + (k - 1) * dx == x + k * dx) by (nonlinear_arith) requires nx == x + dx;
                    assert(ny + (k - 1) * dy == y + k * dy) by (nonlinear_arith) requires ny == y + dy;
                    assert forall|j: int| 1 <= j < k - 1 implies #[trigger] on_board(nx + j * dx, ny + j * dy) by {
                        assert(nx + j * dx == x + (j + 1) * dx) by (nonlinear_arith) requires nx == x + dx;
                        assert(ny + j * dy == y + (j + 1) * dy) by (nonlinear_arith) requires ny == y + dy;
                        assert(on_board(x + (j + 1) * dx, y + (j + 1) * dy));
                    }
                }
            }
        }
    } else {
        if let Some(p) = first_piece(b, x, y, dx, dy) {
            assert(x + 1 * dx == x + dx && y + 1 * dy == y + dy);
            assert(at(b, x + 1 * dx, y + 1 * dy) == Some(p));
        } else {
            assert forall|k: int|
                k >= 1 && (forall|j: int| 1 <= j < k ==> #[trigger] on_board(x + j * dx, y + j * dy))
                    implies #[trigger] at(b, x + k * dx, y + k * dy) is None by {
                if k == 1 {
                    assert(x + k * dx == x + dx && y + k * dy == y + dy) by (nonlinear_arith) requires k == 1;
                } else {
                    assert(on_board(x + 1 * dx, y + 1 * dy));
                    assert(x + 1 * dx == x + dx && y + 1 * dy == y + dy);
                }
            }
        }
    }
}

/// `find_king` reports the first square, rank by rank and file by file, holding a
/// king of `color`: that square holds one and no earlier square does.
pub proof fn law_king_square_is_first(b: Board, color: PieceColor, i: int, j: int)
    requires
        has_king(b, color),
        on_board(i, j),
        8 * j + i < 8 * crate::moves::king_square(b, color).unwrap().1 + crate::moves::king_square(b, color).unwrap().0,
    ensures
        holds_king(
            b,
            crate::moves::king_square(b, color).unwrap().0,
            crate::moves::king_square(b, color).unwrap().1,
            color,
        ),
        !holds_king(b, i, j, color),
{
    law_has_king_iff_king_on_board(b, color, 0, 0);
    lemma_king_from_first(b, color, 0, 0, i, j);
}

proof fn lemma_king_from_first(b: Board, color: PieceColor, x: int, y: int, i: int, j: int)
    requires
        0 <= x < 8,
        0 <= y < 8,
        king_from(b, color, x, y) is Some,
        on_board(i, j),
        8 * y + x <= 8 * j + i,
        8 * j + i < 8 * king_from(b, color, x, y).unwrap().1 + king_from(b, color, x, y).unwrap().0,
    ensures
        !holds_king(b, i, j, color),
    decreases 64 - 8 * y - x,
{
    if !(i == x && j == y) {
        if x == 7 {
            lemma_king_from_first(b, color, 0, y + 1, i, j);
        } else {
            lemma_king_from_first(b, color, x + 1, y, i, j);
        }
    }
}

/// Square `a` comes before square `c` in rank-major order (rank first, then file).
pub open spec fn rank_major_before(a: (usize, usize), c: (usize, usize)) -> bool {
    a.1 < c.1 || (a.1 == c.1 && a.0 < c.0)
}

proof fn lemma_row_moves_sorted(b: Board, x: usize, y: usize, color: PieceColor, y2: int, n: int)
    requires
        0 <= n <= 8,
        0 <= y2 < 8,
    ensures
        forall|i: int|
            0 <= i < row_moves(b, x, y, color, y2, n).len() ==> (#[trigger] row_moves(b, x, y, color, y2, n)[i]).1
                == y2 && row_moves(b, x, y, color, y2, n)[i].0 < n,
        forall|i: int, j: int|
            0 <= i < j < row_moves(b, x, y, color, y2, n).len() ==> #[trigger] row_moves(b, x, y, color, y2, n)[i].0
                < #[trigger] row_moves(b, x, y, color, y2, n)[j].0,
    decreases n,
{
    if n > 0 {
        lemma_row_moves_sorted(b, x, y, color, y2, n - 1);
        let prev = row_moves(b, x, y, color, y2, n - 1);
        let e = ((n - 1) as usize, y2 as usize);
        if move_valid(b, (x, y, e.0, e.1), color) {
            let s = prev.push(e);
            assert(row_moves(b, x, y, color, y2, n) == s);
            assert forall|i: int| 0 <= i < s.len() implies (#[trigger] s[i]).1 == y2 && s[i].0 < n by {
                if i < prev.len() {
                    assert(s[i] == prev[i]);
                }
            }
            assert forall|i: int, j: int| 0 <= i < j < s.len() implies #[trigger] s[i].0 < #[trigger] s[j].0 by {
                assert(s[i] == prev[i]);
                if j < prev.len() {
                    assert(s[j] == prev[j]);
                }
            }
        } else {
            assert(row_moves(b, x, y, color, y2, n) == prev);
        }
    }
}

proof fn lemma_rows_moves_sorted(b: Board, x: usize, y: usize, color: PieceColor, m: int)
    requires
        0 <= m <= 8,
    ensures
        forall|i: int|
            0 <= i < rows_moves(b, x, y, color, m).len() ==> (#[trigger] rows_moves(b, x, y, color, m)[i]).1 < m
                && rows_moves(b, x, y, color, m)[i].0 < 8,
        forall|i: int, j: int|
            0 <= i < j < rows_moves(b, x, y, color, m).len() ==> rank_major_before(
                #[trigger] rows_moves(b, x, y, color, m)[i],
                #[trigger] rows_moves(b, x, y, color, m)[j],
            ),
    decreases m,
{
    if m > 0 {
        lemma_rows_moves_sorted(b, x, y, color, m - 1);
        lemma_row_moves_sorted(b, x, y, color, m - 1, 8);
        let prev = rows_moves(b, x, y, color, m - 1);
        let row = row_moves(b, x, y, color, m - 1, 8);
        assert(rows_moves(b, x, y, color, m) == prev + row);
        assert forall|i: int|
            0 <= i < (prev + row).len() implies (#[trigger] (prev + row)[i]).1 < m && (prev + row)[i].0 < 8 by {
            if i >= prev.len() {
                assert((prev + row)[i] == row[i - prev.len()]);
            }
        }
        assert forall|i: int, j: int|
            0 <= i < j < (prev + row).len() implies rank_major_before(
                #[trigger] (prev + row)[i],
                #[trigger] (prev + row)[j],
            ) by {
            if j < prev.len() {
                assert((prev + row)[i] == prev[i] && (prev + row)[j] == prev[j]);
            } else if i < prev.len() {
                assert((prev + row)[i] == prev[i] && (prev + row)[j] == row[j - prev.len()]);
            } else {
                assert((prev + row)[i] == row[i - prev.len()] && (prev + row)[j] == row[j - prev.len()]);
            }
        }
    }
}

/// `get_available_moves` lists its destinations in strictly increasing rank-major
/// order (so each at most once), all on the board.
pub proof fn law_available_moves_are_ordered(b: Board, x: usize, y: usize)
    ensures
        forall|i: int|
            0 <= i < available_moves(b, x, y).len() ==> (#[trigger] available_moves(b, x, y)[i]).0 < 8
                && available_moves(b, x, y)[i].1 < 8,
        forall|i: int, j: int|
            0 <= i < j < available_moves(b, x, y).len() ==> rank_major_before(
                #[trigger] available_moves(b, x, y)[i],
                #[trigger] available_moves(b, x, y)[j],
            ),
        available_moves(b, x, y).no_duplicates(),
{
    if let Some(p) = at(b, x as int, y as int) {
        lemma_rows_moves_sorted(b, x, y, p.color, 8);
    }
    let s = available_moves(b, x, y);
    assert forall|i: int, j: int| 0 <= i < s.len() && 0 <= j < s.len() && i != j implies s[i] != s[j] by {
        if i < j {
            assert(rank_major_before(s[i], s[j]));
        } else {
            assert(rank_major_before(s[j], s[i]));
        }
    }
}

/// The piece on `(x2, y2)` attacks `(x, y)` for a defender of `color`, in the way
/// its kind attacks: a knight by a one-and-two jump, a king from an adjacent square
/// (or `(x, y)` itself), a pawn diagonally from the rank in front of the defender,
/// a rook or queen along a file or rank and a bishop or queen along a diagonal,
/// with every square in between empty.
pub open spec fn attacks_from(b: Board, x2: int, y2: int, x: int, y: int, color: PieceColor) -> bool {
    let dx = x2 - x;
    let dy = y2 - y;
    let straight = (dx == 0) != (dy == 0);
    let diagonal = abs(dx) == abs(dy) && dx != 0;
    &&& on_board(x2, y2)
    &&& at(b, x2, y2) is Some
    &&& at(b, x2, y2).unwrap().color != color
    &&& match at(b, x2, y2).unwrap().piece_type {
        PieceType::Knight => (abs(dx) == 1 && abs(dy) == 2) || (abs(dx) == 2 && abs(dy) == 1),
        PieceType::King => abs(dx) <= 1 && abs(dy) <= 1,
        PieceType::Pawn => abs(dx) == 1 && dy == crate::attack::forward(color),
        PieceType::Rook => straight && crate::rules::path_clear(b, x, y, x2, y2),
        PieceType::Bishop => diagonal && crate::rules::path_clear(b, x, y, x2, y2),
        PieceType::Queen => (straight || diagonal) && crate::rules::path_clear(b, x, y, x2, y2),
    }
}

/// Walking from `(x, y)` in unit steps `(dx, dy)`: the first piece is the one on
/// the `k`-th square when the squares before it are on the board and empty.
proof fn lemma_first_piece_at(b: Board, x: int, y: int, dx: int, dy: int, k: int)
    requires
        unit_heading(dx, dy),
        !(dx == 0 && dy == 0),
        k >= 1,
        forall|j: int| 1 <= j < k ==> #[trigger] at(b, step(x, dx, j), step(y, dy, j)) is None && on_board(step(x, dx, j), step(y, dy, j)),
        on_board(step(x, dx, k), step(y, dy, k)),
        at(b, step(x, dx, k), step(y, dy, k)) is Some,
    ensures
        first_piece(b, x, y, dx, dy) == at(b, step(x, dx, k), step(y, dy, k)),
    decreases k,
{
    if k > 1 {
        assert(at(b, step(x, dx, 1), step(y, dy, 1)) is None);
        assert forall|j: int| 1 <= j < k - 1 implies #[trigger] at(b, step(x + dx, dx, j), step(y + dy, dy, j)) is None
            && on_board(step(x + dx, dx, j), step(y + dy, dy, j)) by {
            assert(step(x + dx, dx, j) == step(x, dx, j + 1) && step(y + dy, dy, j) == step(y, dy, j + 1));
            assert(at(b, step(x, dx, j + 1), step(y, dy, j + 1)) is None);
        }
        assert(step(x + dx, dx, k - 1) == step(x, dx, k) && step(y + dy, dy, k - 1) == step(y, dy, k));
        lemma_first_piece_at(b, x + dx, y + dy, dx, dy, k - 1);
    }
}

/// The first piece along a heading stands `k` steps away, for some `k >= 1` with
/// every square before it on the board and empty.
proof fn lemma_first_piece_found(b: Board, x: int, y: int, dx: int, dy: int) -> (k: int)
    requires
        first_piece(b, x, y, dx, dy) is Some,
    ensures
        unit_heading(dx, dy),
        !(dx == 0 && dy == 0),
        k >= 1,
        forall|j: int| 1 <= j < k ==> #[trigger] at(b, step(x, dx, j), step(y, dy, j)) is None && on_board(step(x, dx, j), step(y, dy, j)),
        on_board(step(x, dx, k), step(y, dy, k)),
        at(b, step(x, dx, k), step(y, dy, k)) == first_piece(b, x, y, dx, dy),
    decreases
            (if dx == 1 {
                8 - x
            } else if dx == -1 {
                x + 1
            } else if dy == 1 {
                8 - y
            } else {
                y + 1
            }),
{
    if at(b, x + dx, y + dy) is Some {
        1
    } else {
        let k = lemma_first_piece_found(b, x + dx, y + dy, dx, dy);
        assert forall|j: int| 1 <= j < k + 1 implies #[trigger] at(b, step(x, dx, j), step(y, dy, j)) is None
            && on_board(step(x, dx, j), step(y, dy, j)) by {
            if j > 1 {
                assert(step(x + dx, dx, j - 1) == step(x, dx, j) && step(y + dy, dy, j - 1) == step(y, dy, j));
                assert(at(b, step(x + dx, dx, j - 1), step(y + dy, dy, j - 1)) is None);
            }
        }
        assert(step(x + dx, dx, k) == step(x, dx, k + 1) && step(y + dy, dy, k) == step(y, dy, k + 1));
        k + 1
    }
}

/// `check_check` in the form of its comment: a square is attacked exactly when
/// some enemy piece on the board attacks it the way its kind attacks (knight jump,
/// adjacent king, diagonal pawn, or an unblocked rook, bishop or queen line).
pub proof fn law_check_is_some_attacker(b: Board, x: int, y: int, color: PieceColor)
    requires
        on_board(x, y),
    ensures
        attacked(b, x, y, color) == exists|x2: int, y2: int| #[trigger] attacks_from(b, x2, y2, x, y, color),
{
    if attacked(b, x, y, color) {
        if exists|dx: int, dy: int| unit_heading(dx, dy) && #[trigger] line_attack(b, x, y, dx, dy, color) {
            let (dx, dy) = choose|dx: int, dy: int| unit_heading(dx, dy) && #[trigger] line_attack(b, x, y, dx, dy, color);
            if crate::attack::slider_attacks(b, x, y, dx, dy, color) {
                let k = lemma_first_piece_found(b, x, y, dx, dy);
                let x2 = step(x, dx, k);
                let y2 = step(y, dy, k);
                assert(sign(x, x2) == dx && sign(y, y2) == dy && path_len(x, y, x2, y2) == k);
                assert forall|j: int| 1 <= j < path_len(x, y, x2, y2) implies #[trigger] empty(
                    b,
                    step(x, sign(x, x2), j),
                    step(y, sign(y, y2), j),
                ) by {
                    assert(at(b, step(x, dx, j), step(y, dy, j)) is None);
                }
                assert(path_clear(b, x, y, x2, y2));
                assert(attacks_from(b, x2, y2, x, y, color));
            } else {
                assert(attacks_from(b, x + dx, y + dy, x, y, color));
            }
        } else if exists|dx: int, dy: int| knight_jump(dx, dy) && #[trigger] knight_attack(b, x, y, dx, dy, color) {
            let (dx, dy) = choose|dx: int, dy: int| knight_jump(dx, dy) && #[trigger] knight_attack(b, x, y, dx, dy, color);
            assert(attacks_from(b, x + dx, y + dy, x, y, color));
        } else {
            let dx = choose|dx: int| (dx == -1 || dx == 1) && #[trigger] pawn_attack(b, x, y, dx, color);
            assert(attacks_from(b, x + dx, y + crate::attack::forward(color), x, y, color));
        }
    }
    if exists|x2: int, y2: int| #[trigger] attacks_from(b, x2, y2, x, y, color) {
        let (x2, y2) = choose|x2: int, y2: int| #[trigger] attacks_from(b, x2, y2, x, y, color);
        let p = at(b, x2, y2).unwrap();
        let (dx, dy) = (x2 - x, y2 - y);
        match p.piece_type {
            PieceType::Knight => {
                assert(knight_attack(b, x, y, dx, dy, color));
            },
            PieceType::King => {
                assert(line_attack(b, x, y, dx, dy, color));
            },
            PieceType::Pawn => {
                assert(pawn_attack(b, x, y, dx, color));
            },
            _ => {
                let sx = sign(x, x2);
                let sy = sign(y, y2);
                let k = path_len(x, y, x2, y2);
                assert(step(x, sx, k) == x2 && step(y, sy, k) == y2);
                assert forall|j: int| 1 <= j < k implies #[trigger] at(b, step(x, sx, j), step(y, sy, j)) is None
                    && on_board(step(x, sx, j), step(y, sy, j)) by {
                    assert(empty(b, step(x, sx, j), step(y, sy, j)));
                }
                lemma_first_piece_at(b, x, y, sx, sy, k);
                assert(line_attack(b, x, y, sx, sy, color));
            },
        }
    }
}

/// A square's content with the piece's colour swapped.
pub open spec fn color_swapped(sq: Option<Piece>) -> Option<Piece> {
    match sq {
        Some(p) => Some(
            Piece {
                color: other_side(p.color),
                piece_type: p.piece_type,
                has_moved: p.has_moved,
                en_passantable: p.en_passantable,
            },
        ),
        None => None,
    }
}

/// `m` is `b` turned upside down (rank `j` of `m` is rank `7 - j` of `b`) with every
/// piece's colour swapped.
pub open spec fn mirrored(b: Board, m: Board) -> bool {
    forall|i: int, j: int| on_board(i, j) ==> #[trigger] at(m, i, j) == color_swapped(at(b, i, 7 - j))
}

proof fn lemma_mirror_first_piece(b: Board, m: Board, x: int, y: int, dx: int, dy: int)
    requires
        forall|i: int, j: int| #[trigger] at(m, i, j) == color_swapped(at(b, i, 7 - j)),
    ensures
        first_piece(m, x, 7 - y, dx, -dy) == color_swapped(first_piece(b, x, y, dx, dy)),
    decreases
            (if dx == 1 {
                8 - x
            } else if dx == -1 {
                x + 1
            } else if dy == 1 {
                8 - y
            } else {
                y + 1
            }),
{
    assert(at(m, x + dx, 7 - y - dy) == color_swapped(at(b, x + dx, 7 - (7 - y - dy))));
    assert(7 - (7 - y - dy) == y + dy);
    if unit_heading(dx, dy) && !(dx == 0 && dy == 0) && on_board(x + dx, y + dy) && at(b, x + dx, y + dy) is None {
        lemma_mirror_first_piece(b, m, x + dx, y + dy, dx, dy);
        assert(7 - (y + dy) == 7 - y + -dy);
    }
}

/// `check_check` does not care which side is which: on the board turned upside
/// down with colours swapped, the mirrored square is attacked for the other side
/// exactly when the square is attacked here.
pub proof fn law_check_mirror(b: Board, m: Board, x: int, y: int, color: PieceColor)
    requires
        mirrored(b, m),
    ensures
        attacked(m, x, 7 - y, other_side(color)) == attacked(b, x, y, color),
{
    let oc = other_side(color);
    assert forall|i: int, j: int| #[trigger] at(m, i, j) == color_swapped(at(b, i, 7 - j)) by {
        if on_board(i, j) {
            assert(at(m, i, j) == color_swapped(at(b, i, 7 - j)));
        }
    }
    assert forall|dx: int, dy: int|
        #![trigger line_attack(b, x, y, dx, dy, color)]
        unit_heading(dx, dy) ==> line_attack(m, x, 7 - y, dx, -dy, oc) == line_attack(b, x, y, dx, dy, color) by {
        lemma_mirror_first_piece(b, m, x, y, dx, dy);
        assert(at(m, x + dx, 7 - y + -dy) == color_swapped(at(b, x + dx, 7 - (7 - y + -dy))));
    }
    assert forall|dx: int, dy: int|
        #![trigger line_attack(m, x, 7 - y, dx, dy, oc)]
        unit_heading(dx, dy) ==> line_attack(m, x, 7 - y, dx, dy, oc) == line_attack(b, x, y, dx, -dy, color) by {
        lemma_mirror_first_piece(b, m, x, y, dx, -dy);
        assert(at(m, x + dx, 7 - y + dy) == color_swapped(at(b, x + dx, 7 - (7 - y + dy))));
    }
    assert forall|dx: int, dy: int|
        #![trigger knight_attack(b, x, y, dx, dy, color)]
        knight_attack(m, x, 7 - y, dx, -dy, oc) == knight_attack(b, x, y, dx, dy, color) by {
        assert(at(m, x + dx, 7 - y + -dy) == color_swapped(at(b, x + dx, 7 - (7 - y + -dy))));
    }
    assert forall|dx: int, dy: int|
        #![trigger knight_attack(m, x, 7 - y, dx, dy, oc)]
        knight_attack(m, x, 7 - y, dx, dy, oc) == knight_attack(b, x, y, dx, -dy, color) by {
        assert(at(m, x + dx, 7 - y + dy) == color_swapped(at(b, x + dx, 7 - (7 - y + dy))));
    }
    assert forall|dx: int|
        #![trigger pawn_attack(b, x, y, dx, color)]
        #![trigger pawn_attack(m, x, 7 - y, dx, oc)]
        pawn_attack(m, x, 7 - y, dx, oc) == pawn_attack(b, x, y, dx, color) by {
        let f = crate::attack::forward(color);
        assert(crate::attack::forward(oc) == -f);
        assert(at(m, x + dx, 7 - y + -f) == color_swapped(at(b, x + dx, 7 - (7 - y + -f))));
    }
    if attacked(b, x, y, color) {
        if exists|dx: int, dy: int| unit_heading(dx, dy) && #[trigger] line_attack(b, x, y, dx, dy, color) {
            let (dx, dy) = choose|dx: int, dy: int| unit_heading(dx, dy) && #[trigger] line_attack(b, x, y, dx, dy, color);
            assert(unit_heading(dx, -dy) && line_attack(m, x, 7 - y, dx, -dy, oc));
        } else if exists|dx: int, dy: int| knight_jump(dx, dy) && #[trigger] knight_attack(b, x, y, dx, dy, color) {
            let (dx, dy) = choose|dx: int, dy: int| knight_jump(dx, dy) && #[trigger] knight_attack(b, x, y, dx, dy, color);
            assert(knight_jump(dx, -dy) && knight_attack(m, x, 7 - y, dx, -dy, oc));
        }
    }
    if attacked(m, x, 7 - y, oc) {
        if exists|dx: int, dy: int| unit_heading(dx, dy) && #[trigger] line_attack(m, x, 7 - y, dx, dy, oc) {
            let (dx, dy) = choose|dx: int, dy: int| unit_heading(dx, dy) && #[trigger] line_attack(m, x, 7 - y, dx, dy, oc);
            assert(unit_heading(dx, -dy) && line_attack(b, x, y, dx, -dy, color));
        } else if exists|dx: int, dy: int| knight_jump(dx, dy) && #[trigger] knight_attack(m, x, 7 - y, dx, dy, oc) {
            let (dx, dy) = choose|dx: int, dy: int| knight_jump(dx, dy) && #[trigger] knight_attack(m, x, 7 - y, dx, dy, oc);
            assert(knight_jump(dx, -dy) && knight_attack(b, x, y, dx, -dy, color));
        }
    }
}

} // verus!

use vstd::prelude::*;
use crate::pieces::{GameState, Piece, PieceColor, PieceType};
use crate::board::{Board, on_board, at, put, set_square};
use crate::attack::{abs, attacked, check_check};
use crate::rules::{coords_on_board, piece_rule_ok, empty, is_piece_move_valid};

verus! {

/// The moving piece after a move: marked as moved, and marked en-passant-able
/// when it is a pawn advancing two ranks (the flag is otherwise kept).
pub open spec fn moved_piece(p: Piece, y: int, y2: int) -> Piece {
    Piece {
        color: p.color,
        piece_type: p.piece_type,
        has_moved: true,
        en_passantable: if p.piece_type == PieceType::Pawn && abs(y2 - y) == 2 {
            true
        } else {
            p.en_passantable
        },
    }
}

/// The corner file of the rook a king castles with.
pub open spec fn rook_file(x: int, x2: int) -> int {
    if x2 > x {
        7
    } else {
        0
    }
}

/// The board after moving the piece on `(x, y)` to `(x2, y2)`:
/// - a king moving more than one file castles: it lands two files towards the
///   corner, and the piece in the corner is lifted to the square it passed over;
/// - a pawn moving diagonally onto an empty square captures en passant the piece
///   behind that square;
/// - a pawn reaching rank 7 or rank 0 becomes a queen of its colour;
/// - otherwise the piece simply moves, capturing what stood on the destination.
pub open spec fn apply_move(b: Board, x: int, y: int, x2: int, y2: int) -> Board {
    let p = at(b, x, y).unwrap();
    let mp = moved_piece(p, y, y2);
    let b1 = put(b, x, y, None);
    if p.piece_type == PieceType::King && abs(x2 - x) > 1 {
        let rook = at(b1, rook_file(x, x2), y).unwrap();
        let b2 = put(b1, rook_file(x, x2), y, None);
        let b3 = put(b2, if x2 > x { x + 2 } else { x - 2 }, y2, Some(mp));
        put(
            b3,
            if x2 > x { x + 1 } else { x - 1 },
            y2,
            Some(
                Piece {
                    color: rook.color,
                    piece_type: rook.piece_type,
                    has_moved: true,
                    en_passantable: rook.en_passantable,
                },
            ),
        )
    } else if p.piece_type == PieceType::Pawn && abs(x2 - x) == 1 && empty(b1, x2, y2) {
        put(
            put(b1, x2, if p.color == PieceColor::White { y2 - 1 } else { y2 + 1 }, None),
            x2,
            y2,
            Some(mp),
        )
    } else if p.piece_type == PieceType::Pawn && (y2 == 7 || y2 == 0) {
        put(
            b1,
            x2,
            y2,
            Some(
                Piece {
                    color: p.color,
                    piece_type: PieceType::Queen,
                    has_moved: true,
                    en_passantable: false,
                },
            ),
        )
    } else {
        put(b1, x2, y2, Some(mp))
    }
}

/// `move_piece` can carry out the move: all squares it touches are on the board,
/// there is a piece to move and, when castling, a piece in the corner.
pub open spec fn move_applicable(b: Board, x: int, y: int, x2: int, y2: int) -> bool {
    &&& on_board(x, y)
    &&& on_board(x2, y2)
    &&& at(b, x, y) is Some
    &&& (at(b, x, y).unwrap().piece_type == PieceType::King && abs(x2 - x) > 1) ==> {
        &&& at(put(b, x, y, None), rook_file(x, x2), y) is Some
        &&& (x2 > x ==> x + 2 <= 7)
        &&& (x2 <= x ==> x >= 2)
    }
    &&& (at(b, x, y).unwrap().piece_type == PieceType::Pawn && abs(x2 - x) == 1 && empty(
        put(b, x, y, None),
        x2,
        y2,
    )) ==> (if at(b, x, y).unwrap().color == PieceColor::White {
        y2 >= 1
    } else {
        y2 <= 6
    })
}

/// Square `(x, y)` holds a king of `color`.
pub open spec fn holds_king(b: Board, x: int, y: int, color: PieceColor) -> bool {
    at(b, x, y) matches Some(p) && p.color == color && p.piece_type == PieceType::King
}

/// The first square, scanning rank by rank from rank `y` and file by file from
/// file `x`, that holds a king of `color`.
pub open spec fn king_from(b: Board, color: PieceColor, x: int, y: int) -> Option<(int, int)>
    decreases 64 - 8 * y - x,
{
    if !(0 <= x < 8 && 0 <= y < 8) {
        None
    } else if holds_king(b, x, y, color) {
        Some((x, y))
    } else if x == 7 {
        king_from(b, color, 0, y + 1)
    } else {
        king_from(b, color, x + 1, y)
    }
}

/// The square of the first king of `color` in rank-major order.
pub open spec fn king_square(b: Board, color: PieceColor) -> Option<(int, int)> {
    king_from(b, color, 0, 0)
}

/// `color` has a king on the board.
pub open spec fn has_king(b: Board, color: PieceColor) -> bool {
    king_square(b, color) is Some
}

/// The king of `color` (the first one in rank-major order) is attacked.
pub open spec fn in_check(b: Board, color: PieceColor) -> bool {
    attacked(b, king_square(b, color).unwrap().0, king_square(b, color).unwrap().1, color)
}

/// The move passes every test but king safety: the squares are on the board and
/// distinct, the source holds a piece of `turn`, and that piece's rule allows it.
pub open spec fn passes_piece_rules(b: Board, c: (usize, usize, usize, usize), turn: PieceColor) -> bool {
    &&& coords_on_board(c)
    &&& !(c.0 == c.2 && c.1 == c.3)
    &&& at(b, c.0 as int, c.1 as int) is Some
    &&& at(b, c.0 as int, c.1 as int).unwrap().color == turn
    &&& piece_rule_ok(
        b,
        c.0 as int,
        c.1 as int,
        c.2 as int,
        c.3 as int,
        at(b, c.0 as int, c.1 as int).unwrap(),
    )
}

/// The board the move `c` leads to.
pub open spec fn after_move(b: Board, c: (usize, usize, usize, usize)) -> Board {
    apply_move(b, c.0 as int, c.1 as int, c.2 as int, c.3 as int)
}

/// The move `c` is legal for `turn`: it passes the piece rules and afterwards
/// the king of `turn` is not attacked.
pub open spec fn move_valid(b: Board, c: (usize, usize, usize, usize), turn: PieceColor) -> bool {
    passes_piece_rules(b, c, turn) && !in_check(after_move(b, c), turn)
}

/// `is_move_valid` can decide the move: when the move passes the piece rules a
/// king of `turn` is left on the board to test.
pub open spec fn move_decidable(b: Board, c: (usize, usize, usize, usize), turn: PieceColor) -> bool {
    passes_piece_rules(b, c, turn) ==> has_king(after_move(b, c), turn)
}

fn udelta(a: usize, b: usize) -> (r: usize)
    ensures
        r == abs(b - a),
{
    if a > b {
        a - b
    } else {
        b - a
    }
}

/// Moves a piece, assuming the move is valid, and updates the pieces' flags
/// (castling also moves the rook; en passant removes the captured pawn; a pawn
/// reaching rank 7 or rank 0 becomes a queen).
pub fn move_piece(coords: (usize, usize, usize, usize), board: &mut Board)
    requires
        move_applicable(*old(board), coords.0 as int, coords.1 as int, coords.2 as int, coords.3 as int),
    ensures
        *final(board) == apply_move(*old(board), coords.0 as int, coords.1 as int, coords.2 as int, coords.3 as int),
{
    let (x, y, x2, y2) = coords;
    let mut piece = board[y][x].unwrap();
    board[y][x] = None;
    piece.has_moved = true;
    if piece.piece_type == PieceType::Pawn && udelta(y, y2) == 2 {
        piece.en_passantable = true;
    }
    if piece.piece_type == PieceType::King && udelta(x, x2) > 1 {
        let corner: usize = if x2 > x { 7 } else { 0 };
        let mut rook = board[y][corner].unwrap();
        board[y][corner] = None;
        rook.has_moved = true;
        board[y2][if x2 > x { x + 2 } else { x - 2 }] = Some(piece);
        board[y2][if x2 > x { x + 1 } else { x - 1 }] = Some(rook);
    } else if piece.piece_type == PieceType::Pawn && udelta(x, x2) == 1 && board[y2][x2].is_none() {
        board[if piece.color == PieceColor::White { y2 - 1 } else { y2 + 1 }][x2] = None;
        board[y2][x2] = Some(piece);
    } else if piece.piece_type == PieceType::Pawn && (y2 == 7 || y2 == 0) {
        board[y2][x2] = Some(
            Piece {
                color: piece.color,
                piece_type: PieceType::Queen,
                has_moved: true,
                en_passantable: false,
            },
        );
    } else {
        board[y2][x2] = Some(piece);
    }
}

/// A move that passes the piece rules can be carried out by `move_piece`: the
/// piece is there, castling finds its rook and lands on the board, and an en-passant
/// capture removes a square on the board.
pub proof fn law_rule_passing_moves_can_be_made(b: Board, c: (usize, usize, usize, usize), turn: PieceColor)
    requires
        passes_piece_rules(b, c, turn),
    ensures
        move_applicable(b, c.0 as int, c.1 as int, c.2 as int, c.3 as int),
{
}

/// Finds the first king of `color` in rank-major order and returns its square (file, rank).
fn find_king(color: PieceColor, board: &Board) -> (r: (usize, usize))
    requires
        has_king(*board, color),
    ensures
        king_square(*board, color) == Some((r.0 as int, r.1 as int)),
        r.0 < 8,
        r.1 < 8,
{
    let mut y: usize = 0;
    while y < 8
        invariant
            y <= 8,
            king_square(*board, color) == king_from(*board, color, 0, y as int),
            has_king(*board, color),
        decreases 8 - y,
    {
        let mut x: usize = 0;
        while x < 8
            invariant
                x <= 8,
                y < 8,
                king_square(*board, color) == king_from(*board, color, x as int, y as int) || x == 8,
                x == 8 ==> king_square(*board, color) == king_from(*board, color, 0, y + 1),
                has_king(*board, color),
            decreases 8 - x,
        {
            if let Some(piece) = board[y][x] {
                if piece.color == color && piece.piece_type == PieceType::King {
                    return (x, y);
                }
            }
            x = x + 1;
        }
        y = y + 1;
    }
    proof {
        assert(king_from(*board, color, 0, 8) is None);
    }
    (0, 0)
}

/// Whether moving the piece on `(x, y)` to `(x2, y2)` (`coords`) is a legal move
/// for `turn`: the squares are on the board and distinct, the piece belongs to
/// `turn`, its movement rule allows the move, and after the move the king of
/// `turn` is not attacked.
pub fn is_move_valid(coords: (usize, usize, usize, usize), turn: PieceColor, board: &Board) -> (r: bool)
    requires
        move_decidable(*board, coords, turn),
    ensures
        r == move_valid(*board, coords, turn),
{
    let (x, y, x2, y2) = coords;
    if !(x < 8 && y < 8 && x2 < 8 && y2 < 8) || ((x == x2) && (y == y2)) || board[y][x].is_none() {
        return false;
    }
    let piece = board[y][x].unwrap();
    if piece.color != turn {
        return false;
    }
    if !is_piece_move_valid(coords, &piece, board) {
        return false;
    }
    proof {
        law_rule_passing_moves_can_be_made(*board, coords, turn);
    }
    let mut temp_board = *board;
    move_piece(coords, &mut temp_board);
    let king_pos = find_king(turn, &temp_board);
    if check_check(king_pos, turn, &temp_board) {
        return false;
    }
    true
}

/// The legal moves of the piece on `(x, y)` whose destinations lie on rank `y2`
/// and files `0 .. n`, as destination squares (file, rank) in file order.
pub open spec fn row_moves(b: Board, x: usize, y: usize, color: PieceColor, y2: int, n: int) -> Seq<(usize, usize)>
    decreases n,
{
    if n <= 0 {
        Seq::empty()
    } else {
        row_moves(b, x, y, color, y2, n - 1) + if move_valid(b, (x, y, (n - 1) as usize, y2 as usize), color) {
            seq![((n - 1) as usize, y2 as usize)]
        } else {
            Seq::empty()
        }
    }
}

/// The legal moves of the piece on `(x, y)` whose destinations lie on ranks
/// `0 .. m`, rank by rank and file by file.
pub open spec fn rows_moves(b: Board, x: usize, y: usize, color: PieceColor, m: int) -> Seq<(usize, usize)>
    decreases m,
{
    if m <= 0 {
        Seq::empty()
    } else {
        rows_moves(b, x, y, color, m - 1) + row_moves(b, x, y, color, m - 1, 8)
    }
}

/// The destinations of every legal move of the piece on `(x, y)`, rank by rank
/// and file by file; empty when the square is empty.
pub open spec fn available_moves(b: Board, x: usize, y: usize) -> Seq<(usize, usize)> {
    match at(b, x as int, y as int) {
        Some(p) => rows_moves(b, x, y, p.color, 8),
        None => Seq::empty(),
    }
}

/// Every move from `(x, y)` to a board square can be decided for `color`.
pub open spec fn targets_decidable(b: Board, x: usize, y: usize, color: PieceColor) -> bool {
    forall|x2: usize, y2: usize| x2 < 8 && y2 < 8 ==> #[trigger] move_decidable(b, (x, y, x2, y2), color)
}

/// `get_available_moves` can list the moves from `(x, y)`.
pub open spec fn moves_listable(b: Board, x: usize, y: usize) -> bool {
    x < 8 && y < 8 && (at(b, x as int, y as int) matches Some(p) ==> targets_decidable(b, x, y, p.color))
}

/// Lists the destinations (file, rank) of every legal move of the piece on `pos`,
/// rank by rank and file by file; an empty list for an empty square.
pub fn get_available_moves(pos: (usize, usize), board: &Board) -> (moves: Vec<(usize, usize)>)
    requires
        moves_listable(*board, pos.0, pos.1),
    ensures
        moves@ == available_moves(*board, pos.0, pos.1),
{
    let (x, y) = pos;
    let mut move_list: Vec<(usize, usize)> = Vec::new();
    let piece = match board[y][x] {
        Some(p) => p,
        None => {
            return move_list;
        },
    };
    let mut y2: usize = 0;
    while y2 < 8
        invariant
            y2 <= 8,
            x < 8,
            y < 8,
            at(*board, x as int, y as int) == Some(piece),
            targets_decidable(*board, x, y, piece.color),
            move_list@ == rows_moves(*board, x, y, piece.color, y2 as int),
        decreases 8 - y2,
    {
        let mut x2: usize = 0;
        while x2 < 8
            invariant
                x2 <= 8,
                y2 < 8,
                x < 8,
                y < 8,
                at(*board, x as int, y as int) == Some(piece),
                targets_decidable(*board, x, y, piece.color),
                move_list@ == rows_moves(*board, x, y, piece.color, y2 as int) + row_moves(
                    *board,
                    x,
                    y,
                    piece.color,
                    y2 as int,
                    x2 as int,
                ),
            decreases 8 - x2,
        {
            assert(move_decidable(*board, (x, y, x2, y2), piece.color));
            if is_move_valid((x, y, x2, y2), piece.color, board) {
                move_list.push((x2, y2));
            }
            x2 = x2 + 1;
        }
        y2 = y2 + 1;
    }
    move_list
}

/// Square `(x, y)` holds a piece of `turn`.
pub open spec fn owns(b: Board, x: usize, y: usize, turn: PieceColor) -> bool {
    at(b, x as int, y as int) matches Some(p) && p.color == turn
}

/// Some piece of `turn` has a legal move.
pub open spec fn side_can_move(b: Board, turn: PieceColor) -> bool {
    exists|x: usize, y: usize|
        x < 8 && y < 8 && owns(b, x, y, turn) && #[trigger] available_moves(b, x, y).len() > 0
}

/// The state of the game with `turn` to move: playing while `turn` has a legal
/// move, otherwise checkmate when its king is attacked and stalemate when not.
pub open spec fn game_state(b: Board, turn: PieceColor) -> GameState {
    if side_can_move(b, turn) {
        GameState::Playing
    } else if in_check(b, turn) {
        GameState::Checkmate
    } else {
        GameState::Stalemate
    }
}

/// `determine_game_state`, scanning from square `(x, y)` in rank-major order,
/// can list the moves of each piece of `turn` it reaches (it stops after the
/// first one with a legal move) and, when none has one, finds a king of `turn`.
pub open spec fn scan_decidable(b: Board, turn: PieceColor, x: int, y: int) -> bool
    decreases 64 - 8 * y - x,
{
    if !(0 <= x < 8 && 0 <= y < 8) {
        has_king(b, turn)
    } else {
        let rest = if x == 7 {
            scan_decidable(b, turn, 0, y + 1)
        } else {
            scan_decidable(b, turn, x + 1, y)
        };
        if owns(b, x as usize, y as usize, turn) {
            targets_decidable(b, x as usize, y as usize, turn) && (available_moves(
                b,
                x as usize,
                y as usize,
            ).len() > 0 || rest)
        } else {
            rest
        }
    }
}

/// Classifies the position for `turn`: `Playing` while some piece of `turn` has a
/// legal move, otherwise `Checkmate` if its king is attacked, else `Stalemate`.
pub fn determine_game_state(turn: PieceColor, board: &Board) -> (state: GameState)
    requires
        scan_decidable(*board, turn, 0, 0),
    ensures
        state == game_state(*board, turn),
{
    let mut y: usize = 0;
    while y < 8
        invariant
            y <= 8,
            scan_decidable(*board, turn, 0, y as int),
            forall|i: usize, j: usize|
                i < 8 && j < y && owns(*board, i, j, turn) ==> #[trigger] available_moves(*board, i, j).len() == 0,
        decreases 8 - y,
    {
        let mut x: usize = 0;
        while x < 8
            invariant
                x <= 8,
                y < 8,
                x < 8 ==> scan_decidable(*board, turn, x as int, y as int),
                x == 8 ==> scan_decidable(*board, turn, 0, y + 1),
                forall|i: usize, j: usize|
                    i < 8 && (j < y || (j == y && i < x)) && owns(*board, i, j, turn)
                        ==> #[trigger] available_moves(*board, i, j).len() == 0,
            decreases 8 - x,
        {
            if board[y][x].is_none() || board[y][x].unwrap().color != turn {
                x = x + 1;
                continue;
            }
            let moves = get_available_moves((x, y), board);
            if moves.len() > 0 {
                assert(available_moves(*board, x, y).len() > 0);
                return GameState::Playing;
            }
            x = x + 1;
        }
        y = y + 1;
    }
    assert(!side_can_move(*board, turn));
    let king = find_king(turn, board);
    if check_check(king, turn, board) {
        GameState::Checkmate
    } else {
        GameState::Stalemate
    }
}

/// The content of a square once the en-passant flags of `turn`'s pawns are cleared.
pub open spec fn cleared(sq: Option<Piece>, turn: PieceColor) -> Option<Piece> {
    match sq {
        Some(p) => if p.color == turn && p.piece_type == PieceType::Pawn {
            Some(
                Piece {
                    color: p.color,
                    piece_type: p.piece_type,
                    has_moved: p.has_moved,
                    en_passantable: false,
                },
            )
        } else {
            sq
        },
        None => None,
    }
}

/// Clears the en-passant flag of every pawn of `turn`; called as `turn` moves,
/// since a pawn may only be taken en passant right after its double step.
pub fn clear_en_passantable(turn: PieceColor, board: &mut Board)
    ensures
        forall|i: int, j: int|
            on_board(i, j) ==> #[trigger] at(*final(board), i, j) == cleared(at(*old(board), i, j), turn),
{
    let ghost b0 = *board;
    let mut y: usize = 0;
    while y < 8
        invariant
            y <= 8,
            forall|i: int, j: int|
                on_board(i, j) ==> #[trigger] at(*board, i, j) == if j < y {
                    cleared(at(b0, i, j), turn)
                } else {
                    at(b0, i, j)
                },
        decreases 8 - y,
    {
        let mut x: usize = 0;
        while x < 8
            invariant
                x <= 8,
                y < 8,
                forall|i: int, j: int|
                    on_board(i, j) ==> #[trigger] at(*board, i, j) == if j < y || (j == y && i < x) {
                        cleared(at(b0, i, j), turn)
                    } else {
                        at(b0, i, j)
                    },
            decreases 8 - x,
        {
            if let Some(piece) = board[y][x] {
                if (piece.color == turn) && (piece.piece_type == PieceType::Pawn) {
                    set_square(
                        board,
                        x,
                        y,
                        Some(
                            Piece {
                                color: piece.color,
                                piece_type: piece.piece_type,
                                has_moved: piece.has_moved,
                                en_passantable: false,
                            },
                        ),
                    );
                }
            }
            x = x + 1;
        }
        y = y + 1;
    }
}

/// The back-rank piece on file `x`: rook, knight, bishop, queen, king, bishop,
/// knight, rook.
pub open spec fn home_piece(x: int) -> PieceType {
    if x == 0 || x == 7 {
        PieceType::Rook
    } else if x == 1 || x == 6 {
        PieceType::Knight
    } else if x == 2 || x == 5 {
        PieceType::Bishop
    } else if x == 3 {
        PieceType::Queen
    } else {
        PieceType::King
    }
}

/// The content of square `(x, y)` in the starting position: White on ranks 0 and
/// 1, Black on ranks 7 and 6, every piece unmoved and not en-passant-able.
pub open spec fn initial_square(x: int, y: int) -> Option<Piece> {
    if y == 0 || y == 7 || y == 1 || y == 6 {
        Some(
            Piece {
                color: if y <= 1 {
                    PieceColor::White
                } else {
                    PieceColor::Black
                },
                piece_type: if y == 0 || y == 7 {
                    home_piece(x)
                } else {
                    PieceType::Pawn
                },
                has_moved: false,
                en_passantable: false,
            },
        )
    } else {
        None
    }
}

fn home_row_piece(x: usize) -> (t: PieceType)
    ensures
        t == home_piece(x as int),
{
    match x {
        0 | 7 => PieceType::Rook,
        1 | 6 => PieceType::Knight,
        2 | 5 => PieceType::Bishop,
        3 => PieceType::Queen,
        _ => PieceType::King,
    }
}

/// Sets up the starting position.
pub fn init_board(board: &mut Board)
    ensures
        forall|i: int, j: int| on_board(i, j) ==> #[trigger] at(*final(board), i, j) == initial_square(i, j),
{
    let mut y: usize = 0;
    while y < 8
        invariant
            y <= 8,
            forall|i: int, j: int| on_board(i, j) && j < y ==> #[trigger] at(*board, i, j) == initial_square(i, j),
        decreases 8 - y,
    {
        let mut x: usize = 0;
        while x < 8
            invariant
                x <= 8,
                y < 8,
                forall|i: int, j: int|
                    on_board(i, j) && (j < y || (j == y && i < x)) ==> #[trigger] at(*board, i, j) == initial_square(i, j),
            decreases 8 - x,
        {
            let square = match y {
                0 => Some(
                    Piece {
                        color: PieceColor::White,
                        piece_type: home_row_piece(x),
                        has_moved: false,
                        en_passantable: false,
                    },
                ),
                1 => Some(
                    Piece {
                        color: PieceColor::White,
                        piece_type: PieceType::Pawn,
                        has_moved: false,
                        en_passantable: false,
                    },
                ),
                6 => Some(
                    Piece {
                        color: PieceColor::Black,
                        piece_type: PieceType::Pawn,
                        has_moved: false,
                        en_passantable: false,
                    },
                ),
                7 => Some(
                    Piece {
                        color: PieceColor::Black,
                        piece_type: home_row_piece(x),
                        has_moved: false,
                        en_passantable: false,
                    },
                ),
                _ => None,
            };
            set_square(board, x, y, square);
            x = x + 1;
        }
        y = y + 1;
    }
}

/// Whether a king of `color` is on the board.
fn king_present(color: PieceColor, board: &Board) -> (r: bool)
    ensures
        r == has_king(*board, color),
{
    let mut y: usize = 0;
    while y < 8
        invariant
            y <= 8,
            king_square(*board, color) == king_from(*board, color, 0, y as int),
        decreases 8 - y,
    {
        let mut x: usize = 0;
        while x < 8
            invariant
                x <= 8,
                y < 8,
                x < 8 ==> king_square(*board, color) == king_from(*board, color, x as int, y as int),
                x == 8 ==> king_square(*board, color) == king_from(*board, color, 0, y + 1),
            decreases 8 - x,
        {
            if let Some(piece) = board[y][x] {
                if piece.color == color && piece.piece_type == PieceType::King {
                    return true;
                }
            }
            x = x + 1;
        }
        y = y + 1;
    }
    assert(king_from(*board, color, 0, 8) is None);
    false
}

fn passes_rules(coords: (usize, usize, usize, usize), turn: PieceColor, board: &Board) -> (r: bool)
    ensures
        r == passes_piece_rules(*board, coords, turn),
{
    let (x, y, x2, y2) = coords;
    if !(x < 8 && y < 8 && x2 < 8 && y2 < 8) || ((x == x2) && (y == y2)) || board[y][x].is_none() {
        return false;
    }
    let piece = board[y][x].unwrap();
    piece.color == turn && is_piece_move_valid(coords, &piece, board)
}

/// Clearing en-passant flags keeps every square's occupant, kind and colour, so a
/// move that passes the piece rules stays applicable.
proof fn lemma_cleared_keeps_applicable(b: Board, b2: Board, c: (usize, usize, usize, usize), turn: PieceColor)
    requires
        passes_piece_rules(b, c, turn),
        forall|i: int, j: int| on_board(i, j) ==> #[trigger] at(b2, i, j) == cleared(at(b, i, j), turn),
    ensures
        move_applicable(b2, c.0 as int, c.1 as int, c.2 as int, c.3 as int),
{
    law_rule_passing_moves_can_be_made(b, c, turn);
    let rf = rook_file(c.0 as int, c.2 as int);
    assert(at(b2, rf, c.1 as int) == cleared(at(b, rf, c.1 as int), turn));
    assert(at(b2, c.2 as int, c.3 as int) == cleared(at(b, c.2 as int, c.3 as int), turn));
    assert(at(b2, c.0 as int, c.1 as int) == cleared(at(b, c.0 as int, c.1 as int), turn));
}

/// Plays `coords` for `turn` as one turn of the game: a legal move is made after
/// the en-passant flags of `turn`'s pawns are cleared (`Some(true)`); any other
/// move leaves the board as it was (`Some(false)`). `None`, with the board
/// unchanged, when the move cannot be decided (`move_decidable` fails: it passes
/// the piece rules but leaves no king of `turn`, which happens only on a board
/// without one, see `law_rule_passing_moves_keep_the_king`).
pub fn play_turn(coords: (usize, usize, usize, usize), turn: PieceColor, board: &mut Board) -> (r: Option<bool>)
    ensures
        r is None <==> !move_decidable(*old(board), coords, turn),
        r == Some(true) <==> (move_decidable(*old(board), coords, turn) && move_valid(*old(board), coords, turn)),
        r != Some(true) ==> *final(board) == *old(board),
        r == Some(true) ==> exists|mid: Board|
            #![trigger after_move(mid, coords)]
            (forall|i: int, j: int| on_board(i, j) ==> #[trigger] at(mid, i, j) == cleared(at(*old(board), i, j), turn))
            && *final(board) == after_move(mid, coords),
{
    if passes_rules(coords, turn, board) {
        proof {
            law_rule_passing_moves_can_be_made(*board, coords, turn);
        }
        let mut trial = *board;
        move_piece(coords, &mut trial);
        if !king_present(turn, &trial) {
            return None;
        }
    }
    if !is_move_valid(coords, turn, board) {
        return Some(false);
    }
    let ghost b0 = *board;
    clear_en_passantable(turn, board);
    let ghost mid = *board;
    proof {
        lemma_cleared_keeps_applicable(b0, mid, coords, turn);
    }
    move_piece(coords, board);
    assert(*board == after_move(mid, coords));
    Some(true)
}

} // verus!

use vstd::prelude::*;
use crate::pieces::{Piece, PieceColor, PieceType};
use crate::board::{Board, at};

verus! {

/// The letter of a piece kind, in lower case.
pub open spec fn kind_letter(t: PieceType) -> char {
    match t {
        PieceType::Pawn => 'p',
        PieceType::Knight => 'n',
        PieceType::Bishop => 'b',
        PieceType::Rook => 'r',
        PieceType::Queen => 'q',
        PieceType::King => 'k',
    }
}

/// The letter of a piece kind, in upper case.
pub open spec fn kind_letter_upper(t: PieceType) -> char {
    match t {
        PieceType::Pawn => 'P',
        PieceType::Knight => 'N',
        PieceType::Bishop => 'B',
        PieceType::Rook => 'R',
        PieceType::Queen => 'Q',
        PieceType::King => 'K',
    }
}

/// How a square is drawn: the piece's letter, upper case for Black and lower case
/// for White, or `'.'` for an empty square.
pub open spec fn square_char(sq: Option<Piece>) -> char {
    match sq {
        Some(p) => if p.color == PieceColor::Black {
            kind_letter_upper(p.piece_type)
        } else {
            kind_letter(p.piece_type)
        },
        None => '.',
    }
}

/// The digit naming rank `y` (rank 0 is `'1'`).
pub open spec fn rank_digit(y: int) -> char {
    if y == 0 {
        '1'
    } else if y == 1 {
        '2'
    } else if y == 2 {
        '3'
    } else if y == 3 {
        '4'
    } else if y == 4 {
        '5'
    } else if y == 5 {
        '6'
    } else if y == 6 {
        '7'
    } else {
        '8'
    }
}

/// The file letters above and below the board: `"   A B C D E F G H"`.
pub open spec fn files_line() -> Seq<char> {
    seq![' ', ' ', ' ', 'A', ' ', 'B', ' ', 'C', ' ', 'D', ' ', 'E', ' ', 'F', ' ', 'G', ' ', 'H']
}

/// The frame line: `"  +-----------------+"`.
pub open spec fn frame_line() -> Seq<char> {
    seq![' ', ' ', '+'] + Seq::new(17, |i: int| '-') + seq!['+']
}

/// The squares of rank `y` on files `0 .. n`, each followed by a space.
pub open spec fn squares_text(b: Board, y: int, n: int) -> Seq<char>
    decreases n,
{
    if n <= 0 {
        Seq::empty()
    } else {
        squares_text(b, y, n - 1) + seq![square_char(at(b, n - 1, y)), ' ']
    }
}

/// The line of rank `y`: `"{r} | "`, the squares, then `"| {r}"`, with `r` the
/// rank's digit.
pub open spec fn rank_line(b: Board, y: int) -> Seq<char> {
    seq![rank_digit(y), ' ', '|', ' '] + squares_text(b, y, 8) + seq!['|', ' ', rank_digit(y)]
}

/// The text of the board, line by line: file letters, frame, ranks 8 down to 1,
/// frame, file letters.
pub open spec fn board_lines(b: Board) -> Seq<Seq<char>> {
    seq![files_line(), frame_line()] + Seq::new(8, |i: int| rank_line(b, 7 - i)) + seq![
        frame_line(),
        files_line(),
    ]
}

fn square_char_of(sq: Option<Piece>) -> (c: char)
    ensures
        c == square_char(sq),
{
    match sq {
        Some(piece) => {
            let black = piece.color == PieceColor::Black;
            match piece.piece_type {
                PieceType::Pawn => if black { 'P' } else { 'p' },
                PieceType::Knight => if black { 'N' } else { 'n' },
                PieceType::Bishop => if black { 'B' } else { 'b' },
                PieceType::Rook => if black { 'R' } else { 'r' },
                PieceType::Queen => if black { 'Q' } else { 'q' },
                PieceType::King => if black { 'K' } else { 'k' },
            }
        },
        None => '.',
    }
}

fn files_text() -> (v: Vec<char>)
    ensures
        v@ == files_line(),
{
    let v = vec![' ', ' ', ' ', 'A', ' ', 'B', ' ', 'C', ' ', 'D', ' ', 'E', ' ', 'F', ' ', 'G', ' ', 'H'];
    assert(v@ =~= files_line());
    v
}

fn frame_text() -> (v: Vec<char>)
    ensures
        v@ == frame_line(),
{
    let mut v: Vec<char> = Vec::new();
    v.push(' ');
    v.push(' ');
    v.push('+');
    let mut k: usize = 0;
    while k < 17
        invariant
            k <= 17,
            v@ =~= seq![' ', ' ', '+'] + Seq::new(k as nat, |i: int| '-'),
        decreases 17 - k,
    {
        v.push('-');
        k = k + 1;
    }
    v.push('+');
    assert(v@ =~= frame_line());
    v
}

fn rank_text(board: &Board, y: usize) -> (v: Vec<char>)
    requires
        y < 8,
    ensures
        v@ == rank_line(*board, y as int),
{
    let digit: char = match y {
        0 => '1',
        1 => '2',
        2 => '3',
        3 => '4',
        4 => '5',
        5 => '6',
        6 => '7',
        _ => '8',
    };
    let mut v: Vec<char> = Vec::new();
    v.push(digit);
    v.push(' ');
    v.push('|');
    v.push(' ');
    let mut x: usize = 0;
    while x < 8
        invariant
            x <= 8,
            y < 8,
            digit == rank_digit(y as int),
            v@ =~= seq![digit, ' ', '|', ' '] + squares_text(*board, y as int, x as int),
        decreases 8 - x,
    {
        v.push(square_char_of(board[y][x]));
        v.push(' ');
        x = x + 1;
    }
    v.push('|');
    v.push(' ');
    v.push(digit);
    assert(v@ =~= rank_line(*board, y as int));
    v
}

/// The board as text, one `Vec<char>` per line: file letters, frame, ranks 8 down
/// to 1 (`"{r} | "`, the squares each followed by a space, `"| {r}"`), frame, file
/// letters. Black pieces are drawn in upper case, White ones in lower case, empty
/// squares as `'.'`.
pub fn board_text(board: &Board) -> (lines: Vec<Vec<char>>)
    ensures
        lines@.len() == 12,
        forall|i: int| 0 <= i < 12 ==> #[trigger] lines@[i]@ == board_lines(*board)[i],
{
    let mut lines: Vec<Vec<char>> = Vec::new();
    lines.push(files_text());
    lines.push(frame_text());
    let mut k: usize = 0;
    while k < 8
        invariant
            k <= 8,
            lines@.len() == 2 + k,
            lines@[0]@ == files_line(),
            lines@[1]@ == frame_line(),
            forall|i: int| 2 <= i < 2 + k ==> #[trigger] lines@[i]@ == rank_line(*board, 9 - i),
        decreases 8 - k,
    {
        lines.push(rank_text(board, 7 - k));
        k = k + 1;
    }
    lines.push(frame_text());
    lines.push(files_text());
    assert forall|i: int| 0 <= i < 12 implies #[trigger] lines@[i]@ == board_lines(*board)[i] by {
        if 2 <= i < 10 {
            assert(board_lines(*board)[i] == rank_line(*board, 9 - i));
        }
    }
    lines
}

} // verus!

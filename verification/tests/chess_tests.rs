use chess::attack::check_check;
use chess::moves::{
    clear_en_passantable, determine_game_state, get_available_moves, init_board, is_move_valid, move_piece,
    play_turn,
};
use chess::notation::{coords_from_groups, parse_move};
use chess::display::board_text;
use chess::pieces::{opponent, GameState, Piece, PieceColor, PieceType};

type Board = [[Option<Piece>; 8]; 8];

fn piece(color: PieceColor, piece_type: PieceType) -> Option<Piece> {
    Some(Piece { color, piece_type, has_moved: false, en_passantable: false })
}

fn empty_board() -> Board {
    [[None; 8]; 8]
}

fn start() -> Board {
    let mut board = empty_board();
    init_board(&mut board);
    board
}

// ---- notation ----

#[test]
fn parse_uppercase_move() {
    assert_eq!(parse_move("A2 to A4"), Some((0, 1, 0, 3)));
}

#[test]
fn parse_lowercase_move_with_newline() {
    assert_eq!(parse_move("e7 e5\n"), Some((4, 6, 4, 4)));
}

#[test]
fn parse_takes_first_and_last_pair() {
    assert_eq!(parse_move("a1 b2 c3"), Some((0, 0, 2, 2)));
}

#[test]
fn parse_compact_move() {
    assert_eq!(parse_move("h8h1"), Some((7, 7, 7, 0)));
}

#[test]
fn parse_rejects_garbage() {
    assert_eq!(parse_move("hello"), None);
    assert_eq!(parse_move(""), None);
    assert_eq!(parse_move("a9 to b2"), None);
    assert_eq!(parse_move("i2 to i4"), None);
}

#[test]
fn parse_pairs_must_share_a_line() {
    assert_eq!(parse_move("a1\nb2"), None);
}

// ---- set-up ----

#[test]
fn initial_position() {
    let board = start();
    let home = [
        PieceType::Rook,
        PieceType::Knight,
        PieceType::Bishop,
        PieceType::Queen,
        PieceType::King,
        PieceType::Bishop,
        PieceType::Knight,
        PieceType::Rook,
    ];
    for x in 0..8 {
        assert_eq!(board[0][x], piece(PieceColor::White, home[x]));
        assert_eq!(board[1][x], piece(PieceColor::White, PieceType::Pawn));
        assert_eq!(board[6][x], piece(PieceColor::Black, PieceType::Pawn));
        assert_eq!(board[7][x], piece(PieceColor::Black, home[x]));
        for y in 2..6 {
            assert_eq!(board[y][x], None);
        }
    }
}

// ---- move validity ----

#[test]
fn opening_moves() {
    let board = start();
    assert!(is_move_valid((4, 1, 4, 3), PieceColor::White, &board)); // e2e4
    assert!(is_move_valid((4, 1, 4, 2), PieceColor::White, &board)); // e2e3
    assert!(!is_move_valid((4, 1, 4, 4), PieceColor::White, &board)); // e2e5
    assert!(is_move_valid((6, 0, 5, 2), PieceColor::White, &board)); // Ng1f3
    assert!(!is_move_valid((6, 0, 6, 2), PieceColor::White, &board)); // Ng1g3
    assert!(!is_move_valid((2, 0, 4, 2), PieceColor::White, &board)); // blocked bishop
    assert!(!is_move_valid((0, 0, 0, 3), PieceColor::White, &board)); // blocked rook
    assert!(!is_move_valid((4, 6, 4, 4), PieceColor::White, &board)); // not White's piece
    assert!(is_move_valid((4, 6, 4, 4), PieceColor::Black, &board)); // e7e5
    assert!(!is_move_valid((4, 1, 4, 1), PieceColor::White, &board)); // same square
    assert!(!is_move_valid((4, 1, 4, 8), PieceColor::White, &board)); // off the board
    assert!(!is_move_valid((4, 3, 4, 4), PieceColor::White, &board)); // empty square
    assert!(!is_move_valid((6, 0, 4, 1), PieceColor::White, &board)); // onto own pawn
}

#[test]
fn pawn_captures_diagonally_only() {
    let mut board = empty_board();
    board[0][4] = piece(PieceColor::White, PieceType::King);
    board[7][4] = piece(PieceColor::Black, PieceType::King);
    board[3][3] = piece(PieceColor::White, PieceType::Pawn);
    board[4][4] = piece(PieceColor::Black, PieceType::Knight);
    board[4][3] = piece(PieceColor::Black, PieceType::Pawn);
    assert!(is_move_valid((3, 3, 4, 4), PieceColor::White, &board));
    assert!(!is_move_valid((3, 3, 3, 4), PieceColor::White, &board));
    assert!(!is_move_valid((3, 3, 2, 4), PieceColor::White, &board));
}

#[test]
fn pinned_piece_cannot_move() {
    let mut board = empty_board();
    board[0][4] = piece(PieceColor::White, PieceType::King);
    board[1][4] = piece(PieceColor::White, PieceType::Rook);
    board[7][4] = piece(PieceColor::Black, PieceType::Queen);
    board[7][0] = piece(PieceColor::Black, PieceType::King);
    assert!(!is_move_valid((4, 1, 0, 1), PieceColor::White, &board));
    assert!(is_move_valid((4, 1, 4, 5), PieceColor::White, &board));
    assert!(is_move_valid((4, 1, 4, 7), PieceColor::White, &board));
}

#[test]
fn king_cannot_step_into_attack() {
    let mut board = empty_board();
    board[3][4] = piece(PieceColor::White, PieceType::King);
    board[7][3] = piece(PieceColor::Black, PieceType::Rook);
    board[7][7] = piece(PieceColor::Black, PieceType::King);
    assert!(!is_move_valid((4, 3, 3, 3), PieceColor::White, &board));
    assert!(is_move_valid((4, 3, 5, 3), PieceColor::White, &board));
    assert!(!is_move_valid((4, 3, 4, 5), PieceColor::White, &board));
}

#[test]
fn castling() {
    let mut board = empty_board();
    board[0][4] = piece(PieceColor::White, PieceType::King);
    board[0][7] = piece(PieceColor::White, PieceType::Rook);
    board[0][0] = piece(PieceColor::White, PieceType::Rook);
    board[7][4] = piece(PieceColor::Black, PieceType::King);
    assert!(is_move_valid((4, 0, 6, 0), PieceColor::White, &board));
    assert!(is_move_valid((4, 0, 2, 0), PieceColor::White, &board));
    move_piece((4, 0, 6, 0), &mut board);
    assert_eq!(board[0][4], None);
    assert_eq!(board[0][7], None);
    assert_eq!(
        board[0][6],
        Some(Piece { color: PieceColor::White, piece_type: PieceType::King, has_moved: true, en_passantable: false })
    );
    assert_eq!(
        board[0][5],
        Some(Piece { color: PieceColor::White, piece_type: PieceType::Rook, has_moved: true, en_passantable: false })
    );
}

#[test]
fn castling_blocked_by_attack_or_piece() {
    let mut board = empty_board();
    board[0][4] = piece(PieceColor::White, PieceType::King);
    board[0][7] = piece(PieceColor::White, PieceType::Rook);
    board[0][0] = piece(PieceColor::White, PieceType::Rook);
    board[0][1] = piece(PieceColor::White, PieceType::Knight);
    board[7][5] = piece(PieceColor::Black, PieceType::Rook);
    board[7][0] = piece(PieceColor::Black, PieceType::King);
    assert!(!is_move_valid((4, 0, 6, 0), PieceColor::White, &board)); // f1 attacked
    assert!(!is_move_valid((4, 0, 2, 0), PieceColor::White, &board)); // b1 occupied
}

#[test]
fn castling_needs_unmoved_king_and_rook() {
    let mut board = empty_board();
    board[0][4] = Some(Piece { color: PieceColor::White, piece_type: PieceType::King, has_moved: true, en_passantable: false });
    board[0][7] = piece(PieceColor::White, PieceType::Rook);
    board[7][4] = piece(PieceColor::Black, PieceType::King);
    assert!(!is_move_valid((4, 0, 6, 0), PieceColor::White, &board));
    board[0][4] = piece(PieceColor::White, PieceType::King);
    board[0][7] = Some(Piece { color: PieceColor::White, piece_type: PieceType::Rook, has_moved: true, en_passantable: false });
    assert!(!is_move_valid((4, 0, 6, 0), PieceColor::White, &board));
}

#[test]
fn castling_needs_a_rook_in_the_corner() {
    let mut board = empty_board();
    board[0][4] = piece(PieceColor::White, PieceType::King);
    board[0][7] = piece(PieceColor::White, PieceType::Queen);
    board[0][0] = piece(PieceColor::White, PieceType::Knight);
    board[7][4] = piece(PieceColor::Black, PieceType::King);
    assert!(!is_move_valid((4, 0, 6, 0), PieceColor::White, &board));
    assert!(!is_move_valid((4, 0, 2, 0), PieceColor::White, &board));
}

#[test]
fn castling_onto_the_rook_square_is_accepted() {
    let mut board = empty_board();
    board[0][4] = piece(PieceColor::White, PieceType::King);
    board[0][7] = piece(PieceColor::White, PieceType::Rook);
    board[7][4] = piece(PieceColor::Black, PieceType::King);
    assert!(is_move_valid((4, 0, 7, 0), PieceColor::White, &board));
}

// ---- move application ----

#[test]
fn double_step_marks_en_passant() {
    let mut board = start();
    move_piece((4, 1, 4, 3), &mut board);
    assert_eq!(board[1][4], None);
    assert_eq!(
        board[3][4],
        Some(Piece { color: PieceColor::White, piece_type: PieceType::Pawn, has_moved: true, en_passantable: true })
    );
    clear_en_passantable(PieceColor::Black, &mut board);
    assert!(board[3][4].unwrap().en_passantable);
    clear_en_passantable(PieceColor::White, &mut board);
    assert!(!board[3][4].unwrap().en_passantable);
    assert!(board[3][4].unwrap().has_moved);
}

#[test]
fn en_passant_capture() {
    let mut board = empty_board();
    board[0][4] = piece(PieceColor::White, PieceType::King);
    board[7][4] = piece(PieceColor::Black, PieceType::King);
    board[4][4] = Some(Piece { color: PieceColor::White, piece_type: PieceType::Pawn, has_moved: true, en_passantable: false });
    board[6][3] = piece(PieceColor::Black, PieceType::Pawn);
    assert!(!is_move_valid((4, 4, 3, 5), PieceColor::White, &board));
    assert!(is_move_valid((3, 6, 3, 4), PieceColor::Black, &board));
    move_piece((3, 6, 3, 4), &mut board);
    assert!(board[4][3].unwrap().en_passantable);
    assert!(is_move_valid((4, 4, 3, 5), PieceColor::White, &board));
    move_piece((4, 4, 3, 5), &mut board);
    assert_eq!(board[4][3], None);
    assert_eq!(board[4][4], None);
    assert_eq!(board[5][3].unwrap().piece_type, PieceType::Pawn);
    assert_eq!(board[5][3].unwrap().color, PieceColor::White);
}

#[test]
fn promotion_to_queen() {
    let mut board = empty_board();
    board[0][4] = piece(PieceColor::White, PieceType::King);
    board[7][0] = piece(PieceColor::Black, PieceType::King);
    board[6][6] = Some(Piece { color: PieceColor::White, piece_type: PieceType::Pawn, has_moved: true, en_passantable: false });
    assert!(is_move_valid((6, 6, 6, 7), PieceColor::White, &board));
    move_piece((6, 6, 6, 7), &mut board);
    assert_eq!(
        board[7][6],
        Some(Piece { color: PieceColor::White, piece_type: PieceType::Queen, has_moved: true, en_passantable: false })
    );
}

#[test]
fn rook_moving_along_rank_zero_stays_a_rook() {
    let mut board = empty_board();
    board[0][0] = piece(PieceColor::White, PieceType::Rook);
    move_piece((0, 0, 3, 0), &mut board);
    assert_eq!(board[0][0], None);
    assert_eq!(
        board[0][3],
        Some(Piece { color: PieceColor::White, piece_type: PieceType::Rook, has_moved: true, en_passantable: false })
    );
}

#[test]
fn black_pawn_promotes_on_rank_zero() {
    let mut board = empty_board();
    board[0][7] = piece(PieceColor::White, PieceType::King);
    board[7][4] = piece(PieceColor::Black, PieceType::King);
    board[1][2] = Some(Piece { color: PieceColor::Black, piece_type: PieceType::Pawn, has_moved: true, en_passantable: false });
    assert!(is_move_valid((2, 1, 2, 0), PieceColor::Black, &board));
    move_piece((2, 1, 2, 0), &mut board);
    assert_eq!(
        board[0][2],
        Some(Piece { color: PieceColor::Black, piece_type: PieceType::Queen, has_moved: true, en_passantable: false })
    );
}

#[test]
fn king_steps_along_rank_zero() {
    let mut board = empty_board();
    board[0][4] = Some(Piece { color: PieceColor::White, piece_type: PieceType::King, has_moved: true, en_passantable: false });
    board[7][0] = Some(Piece { color: PieceColor::Black, piece_type: PieceType::King, has_moved: true, en_passantable: false });
    assert!(is_move_valid((4, 0, 5, 0), PieceColor::White, &board));
    assert_eq!(get_available_moves((4, 0), &board), vec![(3, 0), (5, 0), (3, 1), (4, 1), (5, 1)]);
    assert!(matches!(determine_game_state(PieceColor::White, &board), GameState::Playing));
    move_piece((4, 0, 5, 0), &mut board);
    assert_eq!(board[0][5].unwrap().piece_type, PieceType::King);
}

#[test]
fn valid_moves_stay_on_their_ranks() {
    let before = start();
    let mut after = before;
    assert!(is_move_valid((6, 0, 5, 2), PieceColor::White, &before));
    move_piece((6, 0, 5, 2), &mut after);
    for y in 0..8 {
        if y != 0 && y != 2 {
            assert_eq!(after[y], before[y]);
        }
    }
    assert_eq!(after[0][6], None);
}

// ---- attacks ----

#[test]
fn attacks_by_each_piece() {
    let mut board = empty_board();
    board[0][0] = piece(PieceColor::Black, PieceType::Rook);
    assert!(check_check((0, 5), PieceColor::White, &board));
    assert!(!check_check((1, 1), PieceColor::White, &board));
    assert!(!check_check((0, 5), PieceColor::Black, &board));
    let mut board = empty_board();
    board[3][3] = piece(PieceColor::Black, PieceType::Bishop);
    assert!(check_check((6, 6), PieceColor::White, &board));
    assert!(!check_check((3, 6), PieceColor::White, &board));
    let mut board = empty_board();
    board[3][3] = piece(PieceColor::Black, PieceType::Knight);
    assert!(check_check((4, 5), PieceColor::White, &board));
    assert!(!check_check((4, 4), PieceColor::White, &board));
    let mut board = empty_board();
    board[4][3] = piece(PieceColor::Black, PieceType::Pawn);
    assert!(check_check((2, 3), PieceColor::White, &board));
    assert!(!check_check((2, 5), PieceColor::White, &board));
    let mut board = empty_board();
    board[4][3] = piece(PieceColor::Black, PieceType::King);
    assert!(check_check((4, 5), PieceColor::White, &board));
    assert!(!check_check((5, 5), PieceColor::White, &board));
}

#[test]
fn attacks_are_blocked() {
    let mut board = empty_board();
    board[0][0] = piece(PieceColor::Black, PieceType::Queen);
    board[3][0] = piece(PieceColor::White, PieceType::Pawn);
    assert!(check_check((0, 3), PieceColor::White, &board));
    assert!(!check_check((0, 5), PieceColor::White, &board));
    assert!(check_check((5, 5), PieceColor::White, &board));
}

#[test]
fn attacks_on_squares_just_off_the_board() {
    let mut board = empty_board();
    board[0][7] = piece(PieceColor::Black, PieceType::Rook);
    assert!(check_check((8, 0), PieceColor::White, &board));
    assert!(!check_check((8, 1), PieceColor::White, &board));
}

// ---- move lists and game state ----

#[test]
fn available_moves_in_opening() {
    let board = start();
    assert_eq!(get_available_moves((1, 0), &board), vec![(0, 2), (2, 2)]);
    assert_eq!(get_available_moves((4, 1), &board), vec![(4, 2), (4, 3)]);
    assert_eq!(get_available_moves((0, 0), &board), vec![]);
    assert_eq!(get_available_moves((4, 4), &board), vec![]);
}

#[test]
fn available_moves_match_is_move_valid() {
    let board = start();
    for (x, y) in [(1usize, 0usize), (4, 1), (6, 7), (3, 6)] {
        let color = board[y][x].unwrap().color;
        let moves = get_available_moves((x, y), &board);
        for y2 in 0..8 {
            for x2 in 0..8 {
                assert_eq!(moves.contains(&(x2, y2)), is_move_valid((x, y, x2, y2), color, &board));
            }
        }
    }
}

#[test]
fn game_state_opening_is_playing() {
    let board = start();
    assert!(matches!(determine_game_state(PieceColor::White, &board), GameState::Playing));
    assert!(matches!(determine_game_state(PieceColor::Black, &board), GameState::Playing));
}

#[test]
fn fools_mate_is_checkmate() {
    let mut board = start();
    move_piece((5, 1, 5, 2), &mut board); // f3
    move_piece((4, 6, 4, 4), &mut board); // e5
    move_piece((6, 1, 6, 3), &mut board); // g4
    move_piece((3, 7, 7, 3), &mut board); // Qh4
    assert!(check_check((4, 0), PieceColor::White, &board));
    assert!(matches!(determine_game_state(PieceColor::White, &board), GameState::Checkmate));
}

#[test]
fn cornered_king_is_stalemate() {
    let mut board = empty_board();
    board[7][0] = piece(PieceColor::Black, PieceType::King);
    board[5][1] = piece(PieceColor::White, PieceType::Queen);
    board[0][4] = piece(PieceColor::White, PieceType::King);
    assert!(!check_check((0, 7), PieceColor::Black, &board));
    assert!(matches!(determine_game_state(PieceColor::Black, &board), GameState::Stalemate));
}

// ---- reading capture groups ----

fn groups(texts: &[&str]) -> Vec<Option<String>> {
    texts.iter().map(|t| Some(t.to_string())).collect()
}

#[test]
fn coordinates_from_groups() {
    assert_eq!(coords_from_groups(&groups(&["a2 to b4", "a", "2", "b", "4"])), Some((0, 1, 1, 3)));
    assert_eq!(coords_from_groups(&groups(&["h8h1", "h", "8", "h", "1"])), Some((7, 7, 7, 0)));
    assert_eq!(coords_from_groups(&groups(&["", "", "2", "b", "4"])), None);
}

// ---- whole turns ----

#[test]
fn play_turn_makes_legal_moves_only() {
    let mut board = start();
    move_piece((4, 1, 4, 3), &mut board);
    assert!(board[3][4].unwrap().en_passantable);
    let before = board;
    assert_eq!(play_turn((4, 3, 4, 5), PieceColor::White, &mut board), Some(false));
    assert_eq!(board, before);
    assert_eq!(play_turn((3, 1, 3, 3), PieceColor::White, &mut board), Some(true));
    assert!(!board[3][4].unwrap().en_passantable);
    assert!(board[3][3].unwrap().en_passantable);
    assert_eq!(board[1][3], None);
}

#[test]
fn play_turn_reports_a_board_without_the_movers_king() {
    let mut board = empty_board();
    board[0][0] = piece(PieceColor::White, PieceType::Rook);
    board[7][4] = piece(PieceColor::Black, PieceType::King);
    let before = board;
    assert_eq!(play_turn((0, 0, 0, 3), PieceColor::White, &mut board), None);
    assert_eq!(board, before);
    assert_eq!(play_turn((0, 0, 1, 1), PieceColor::White, &mut board), Some(false));
}

#[test]
fn play_turn_lets_the_king_step_along_rank_zero() {
    let mut board = empty_board();
    board[0][4] = piece(PieceColor::White, PieceType::King);
    board[7][4] = piece(PieceColor::Black, PieceType::King);
    assert_eq!(play_turn((4, 0, 5, 0), PieceColor::White, &mut board), Some(true));
    assert_eq!(board[0][5].unwrap().piece_type, PieceType::King);
}

#[test]
fn wrapped_coordinates_are_rejected() {
    let mut board = start();
    assert!(!is_move_valid((256, 1, 4, 3), PieceColor::White, &board));
    assert!(!is_move_valid((4, 1, 4, 259), PieceColor::White, &board));
    assert_eq!(play_turn((256, 1, 4, 3), PieceColor::White, &mut board), Some(false));
    assert_eq!(play_turn((300, 1, 4, 3), PieceColor::White, &mut board), Some(false));
}

// ---- text ----

#[test]
fn starting_board_text() {
    let lines: Vec<String> = board_text(&start()).iter().map(|l| l.iter().collect()).collect();
    assert_eq!(
        lines,
        vec![
            "   A B C D E F G H",
            "  +-----------------+",
            "8 | R N B Q K B N R | 8",
            "7 | P P P P P P P P | 7",
            "6 | . . . . . . . . | 6",
            "5 | . . . . . . . . | 5",
            "4 | . . . . . . . . | 4",
            "3 | . . . . . . . . | 3",
            "2 | p p p p p p p p | 2",
            "1 | r n b q k b n r | 1",
            "  +-----------------+",
            "   A B C D E F G H",
        ]
    );
}

#[test]
fn sides_alternate() {
    assert_eq!(opponent(PieceColor::White), PieceColor::Black);
    assert_eq!(opponent(PieceColor::Black), PieceColor::White);
}

#[test]
fn attacks_are_symmetric_under_mirroring() {
    let mut board = start();
    move_piece((4, 1, 4, 3), &mut board);
    move_piece((3, 6, 3, 4), &mut board);
    move_piece((5, 0, 1, 4), &mut board);
    move_piece((6, 7, 5, 5), &mut board);
    let mut mirror = empty_board();
    for y in 0..8 {
        for x in 0..8 {
            mirror[y][x] = board[7 - y][x].map(|p| Piece { color: opponent(p.color), ..p });
        }
    }
    for y in 0..8 {
        for x in 0..8 {
            for color in [PieceColor::White, PieceColor::Black] {
                assert_eq!(
                    check_check((x, 7 - y), opponent(color), &mirror),
                    check_check((x, y), color, &board)
                );
            }
        }
    }
}

#[test]
fn move_lists_are_in_rank_major_order() {
    let mut board = start();
    move_piece((4, 1, 4, 3), &mut board);
    let moves = get_available_moves((3, 0), &board);
    assert_eq!(moves, vec![(4, 1), (5, 2), (6, 3), (7, 4)]);
    for w in moves.windows(2) {
        assert!(w[0].1 < w[1].1 || (w[0].1 == w[1].1 && w[0].0 < w[1].0));
    }
}

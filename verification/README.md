# chess

A two-player terminal chess game whose rules engine is verified with Verus.

- `src/pieces.rs` — colours, piece kinds, pieces and game states.
- `src/board.rs` — the board and its mathematical reading (`at`, `put`).
- `src/attack.rs` — attacked squares (`check_check`).
- `src/rules.rs` — the movement rule of each piece.
- `src/moves.rs` — setting up, legality (`is_move_valid`), making moves,
  move lists, game state and whole turns.
- `src/notation.rs` — reading moves such as `A2 to A4`, with the `regex` crate.
- `src/display.rs` — the board as lines of text.
- `src/laws.rs` — properties that relate the operations above.
- `app/main.rs` — the terminal loop; it prints the lines `board_text` gives.

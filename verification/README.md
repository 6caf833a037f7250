# lucky_chess

A chess engine library whose logic is verified with Verus: bitboards and attack
tables, the board with its make/undo of moves, move generation and legality, FEN
reading and writing, Zobrist hashing, the tapered piece-square evaluation, the
transposition table, move ordering (staged generator, history, killers, static
exchange evaluation), the alpha-beta search with its time management, perft, and the
game manager used by the mobile front end (moves, undo/redo, piece ids, snapshots).

Layout:

- `src/` — the verified library; every public function carries a contract, and the
  properties that relate several functions are stated as public proof functions, for
  instance:
  - `board::lemma_make_undo_roundtrip` and `legality::lemma_null_roundtrip`: taking a
    move back restores the position;
  - `fen::lemma_make_hash` and `fen::lemma_null_hash`: the hash kept up to date move by
    move is the hash computed from scratch;
  - `fen::lemma_fen_roundtrip`: a position written as FEN reads back unchanged;
  - `fen::lemma_start_fen`: the standard starting FEN reads as the starting position;
  - `eval::lemma_eval_color_symmetry`: mirroring a position (colors and side to move
    swapped) keeps its evaluation;
  - `transposition::lemma_store_then_probe`, `lemma_entry_roundtrip`,
    `lemma_score_roundtrip`: what the table stores it gives back;
  - `manager::lemma_undo_restores`: undoing a move played in a game restores the game.

  The move generator's contract states the exact set of pseudo-legal moves it lists
  (`movegen::produces`), which makes the game state, the legal moves of a square and
  the acceptance of a move exact in the game manager.
  The search evaluates positions with the tapered piece-square evaluation
  (`eval::eval_board`); `nnue` holds the network's feature and bucket indexing only,
  as the network weights are not part of this project.

  `uci_session` reads and answers UCI command lines (`uci_parser` reads the commands);
  the program around it prints the answers and runs searches in the background.
- `tests/` — tests on concrete positions.
- `app/` — the command-line program: the UCI loop (including `go perft <depth>`),
  `bench` and the printing of the perft suite, whose checks `perft::run_perft_entry`
  makes.

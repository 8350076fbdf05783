# chess_engine

A UCI chess engine whose core is verified with Verus.

`src/` is the verified library:

- `types`, `bitboard`: squares, pieces, packed moves and 64-bit boards, each
  with a mathematical view (a move's fields, a board's set of squares).
- `board`: the position model (`board()`, side, castling, en passant, clocks,
  Zobrist hash), `make_move` against that model, FEN reading and writing with
  the read-back law in `board/fen_proofs.rs`.
- `movegen`: attack sets (by ray scans, and by magic-indexed tables proved
  to agree with them), the pseudo-legal and legal move generators (every
  legal move exactly once), and `perft` against the count of legal move
  sequences.
- `eval`: the tapered PeSTO evaluation against `eval_spec`, with the
  side-flip and colour-mirror laws.
- `search`: alpha-beta with quiescence (proved fail-soft against the
  capture-tree value in `search/minimax.rs`), the lock-free transposition
  table's entry encoding, move ordering (a stable sort by score), and
  iterative deepening.
- `book`, `tablebase`, `time`, `uci`: Polyglot entries and weighted choice,
  the tablebase interface, clock allocation, and the UCI command readers.

`app/main.rs` is the program: the stdin loop, threads, files and printing.

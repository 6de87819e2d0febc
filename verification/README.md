# beatrijs

A bitboard chess engine written in Verus. The board, move encoding, move
generation, static exchange evaluation, evaluation, move ordering statistics,
the transposition table and the alpha-beta search live in a library in which
every function is verified not to panic or overflow and to meet its contract.
The contracts are stated over spec models (the mailbox of pieces, bit sets of
squares, sequences of moves and entries).

How much a contract pins down differs by part:

- exact: board updates (`make_move`, `unmake_move`, the Zobrist key), FEN
  parsing, move encoding, attack sets, legality of a move, the transposition
  table, the history and killer statistics, the ordering score of a move (for a
  capture, up to the exchange test);
- partial: move generation (every generated move is well formed; king steps
  are all generated, and out of check so are knight, bishop, rook and queen
  moves, pawn steps, promotions and castling moves; the legal list is the legal
  filter of the pseudo-legal one), perft (the count is a sum over a legal move
  list of the counts below each move), the exchange test `see_ge` (its quick
  cases);
- bounds and special cases only: the static evaluation (a range, and zero for
  bare kings) and the search (its range, draws, mates and stalemates below the
  root, and that a recorded root move is legal).

Layout:

- `src/` — the verified library. `board.rs`, `makemove.rs` and `fen.rs` hold the
  position and its updates; `movegen.rs`, `movelist.rs` and `order.rs` the move
  generation and ordering; `see.rs`, `eval.rs` and `heuristics.rs` the exchange
  evaluation, the static evaluation and the history statistics; `table.rs` and
  `search.rs` the transposition table and the search; `laws.rs` collects
  properties that relate several operations.
- `tests/` — perft counts on reference positions and unit tests of the library.
- `app/` — the UCI front end: reading commands, timing, printing, the search
  thread, and the late move reduction table computed with floating point.

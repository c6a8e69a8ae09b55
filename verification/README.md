# barbel

A chess engine whose core is written in Verus and proved against its
contracts.

- `src/` is the library: bitboards and piece sets, the packed irreversible
  state, Zobrist hashing, attack tables with magic bitboards, legal move
  generation, making and taking back moves (null moves too), FEN reading and
  writing, static evaluation, the transposition, history, killer and
  principal-variation tables, move ordering with static exchange evaluation,
  alpha-beta search with quiescence, perft, and the pure parts of the UCI
  front end (command tokens, move parsing, time limits).
- Laws proved in `src/` include: taking back a move restores the position
  (`moving::move_making::law_unmake_undoes_make`), the incremental hash stays
  the hash computed from scratch after a move
  (`moving::hash_law::law_make_keeps_hash`) and after a pass made with no en
  passant file set (`moving::null_move::law_null_keeps_hash`), a position
  written as FEN reads back to itself
  (`fen_parsing::round_trip::law_fen_round_trip`), and the move ordering
  hands out each move it holds at most once
  (`search::move_ordering::law_order_next_takes_out`).
- The slider attacks are exact for every occupancy: a table entry is read
  only under the occupancy it was computed for, and the rays are walked
  otherwise (`moving::move_generation::lemma_slider_bits`), and the blockers
  outside the relevant squares never change them
  (`moving::move_generation::law_slider_attacks_full`).
- The search keeps the board it is given and answers only with a move that
  the position allows and that leaves it sound. Unless it has read the stop
  flag, every value it returns is the one the spec functions of
  `search::negamax` define (negamax with transposition table cut-offs, null
  move pruning, late move reductions and the killer and history updates,
  threaded through the tables), down to the quiescence search of
  `search::quiescence`; the root search and iterative deepening return the
  move those functions give.
- `app/` is the program around the library: the UCI loop, threads, timing
  and printing.
- `tests/` holds the tests, run against the compiled library.

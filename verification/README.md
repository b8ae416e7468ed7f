# MikuEngine

A small UCI chess engine whose rules and data structures are written in Verus
and proved against their contracts.

- `src/` is the verified library: bitboards and attack tables (including magic
  bitboards), the board and its make/unmake, FEN reading and writing, move
  generation, move ordering and history heuristics, the transposition table,
  the NNUE network (accumulators, incremental updates, inference), time
  management decisions, the static evaluation, the quiescence search, the
  rules each search node applies and the aspiration-window decisions, perft,
  and the parsing of UCI commands.
- `app/` is the program around it: the UCI loop and its I/O, the threaded
  alpha-beta search and its iterative deepening, tablebase probing through
  `pyrrhic-rs`, and the parts of time management that use floating point.
- `tests/` runs the library on concrete positions and commands.

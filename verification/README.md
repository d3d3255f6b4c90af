# grob

A chess engine library whose logic is proved correct with Verus: bitboards
and attack sets, positions with incremental Zobrist hashing, FEN and LAN
parsing, move generation, making and taking back moves, games with their
history, a transposition table, an alpha-beta search and the decisions of a
UCI server.

- `src/` — the verified library. Each public function states in `ensures`
  what it returns or changes; public `lemma_*` proof functions state the laws
  that tie several functions together (making and taking back a move, packing
  moves, FEN round trips of castling rights, score steps, table reads after
  writes, the generator's passes adding each move once, every piece and
  square having a Zobrist key of its own).
- `tests/` — tests on concrete positions, including perft node counts.
- `app/` — the UCI program around the library: standard input and output,
  the search thread, the clock and the stop flag.

# chess_engine

A chess engine written in Verus. Its rules, move generation, FEN reading and notation are
proved against mathematical models of the game; its alpha-beta search is proved to compute
exactly what a step-by-step specification of the algorithm gives and to pick a legal move,
and, in a game that play can reach whose square scores agree with the score tables, to
leave the game as it found it.

## Layout

- `src/` — the verified library.
  - `position.rs`, `coords.rs`, `piece.rs`, `gamestate.rs`, `scores.rs`: squares, pieces,
    the packed game state and the piece-square tables.
  - `chess_game.rs`: the game (`ChessGame`) and its model (`GameModel`): playing and taking
    back moves, attack tests, move lists, PGN/UCI move lists and the board diagram.
  - `movegen.rs`: the moves and attacks of a position as spec functions.
  - `fen.rs`: reading a FEN string, specified byte by byte.
  - `move_struct.rs`: moves and their UCI and PGN notation; reading UCI moves.
  - `move_sort.rs`: the move order of the search and the sorts it uses.
  - `search.rs`: quiescence search, alpha-beta search and the search root.
  - `performance_test.rs`: move-path counting (perft).
  - `uci.rs`: playing the moves of a UCI `position` command.
  - `game_laws.rs`, `move_laws.rs`: the laws that tie these together — taking back a move
    restores the game, generated moves keep a reachable game reachable, the king-safety
    check keeps exactly the moves that leave the king unattacked, legal play and
    take-backs keep each king on its recorded square, counting and searching
    leave the game as it was (where the square scores agree with the tables), and UCI notation reads back to the same move.
  - `arrays.rs`, `wrap.rs`: the `arrayvec` collections behind trusted wrappers, and
    wrapping arithmetic.
- `tests/`: tests run against the compiled library, perft counts among them.
- `app/`: the program around the library: command line, UCI loop over stdin, timed
  iterative deepening on a timer thread, and self-play in the terminal.

# Connect Four, verified

A Connect Four engine whose rules, bitboard and search are verified with Verus.

- `src/rules.rs` — the game as mathematics: a board is seven stacks of stones and
  the player to move; four in a row, winners, legal moves, free places.
- `src/bits.rs` — facts about 64-bit words and the four-in-a-row masks of a 7×6
  bitboard, proved with the bit-vector solver.
- `src/state.rs` — `State`, two bitboards and the player to move, with a type
  invariant (stones rest on each other, the players alternate, the player to move
  has not won) and every operation specified over its `Board` reading.
- `src/minmax_ai.rs` — alpha-beta search, proved to compute the exact minimax value.
- `src/monte_carlo_ai.rs` — the tactical move filter and random playouts.
- `src/evaluation.rs` — seats, per-game seeds, the split of games among workers
  and the win/draw/loss tally of a match.
- `src/value_ai.rs` — the layout of exported value-network files.
- `src/codes.rs` — the integer codes exchanged with the training and browser front ends.
- `src/random.rs` — the calls into `rand`.

`app/` holds the terminal game, the `eval` command (threads, progress, JSON), the
floating-point value network and the C interfaces for training and the browser.

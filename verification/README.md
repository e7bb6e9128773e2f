# quantik-api

Move service for the board game Quantik, on top of the engines of
`quantik-core`. The logic of the service is written in Verus and proved against
its contracts; the HTTP gateway around it is ordinary Rust.

Endpoints:

- `GET /health`
- `GET /v1/engines`
- `POST /v1/move/minimax`
- `POST /v1/move/mcts`
- `POST /v1/move/beam`

A request carries the schema name `engine-request.v1`, the position in QFEN, the
side to move, and the complete set of legal actions. The service recalculates
legality with `quantik-core` before it runs an engine, and it answers with
`action_index = shape * 16 + position` and the revision of the engines.

## Layout

- `src/` — the verified library. `search.rs` goes from a request to an answer;
  `request.rs`, `candidates.rs`, `line.rs`, `ranking.rs` and `settings.rs` hold
  its parts; `engines/` holds what is asked of each engine and what its report
  comes to; `board.rs` states the rules of the game.
- `src/laws.rs`, `src/board_laws.rs` — what holds of every request, every answer
  and every board.
- `tests/` — the library at work, with the engines linked.
- `app/` — routes and JSON.

Floating-point numbers are held in the library by their bit patterns
(`values.rs`). The win probability of `mcts` becomes a value in `app/`.

What the library takes on trust from `quantik-core` and from the standard
library is stated above each function that calls it, under the word "Trusted".

# mea

Duplicate suppression for keyed computations, verified with Verus, and the task runner of the
workspace.

- `src/once`, `src/singleflight.rs`: `OnceMap` and `Group`. They decide and do not wait: each takes
  what happened to a call, and answers with what the call does next (`src/flight.rs`).
- `src/state.rs`, `src/laws.rs`: the states that their contracts speak of, and what holds of them
  whatever happens.
- `src/alike.rs`: that what a map does depends neither on its hasher nor on internal names.
- `src/board.rs`, `src/keys.rs`: the entries with the calls that are under way on them, and the hash
  maps that lead to them.
- `src/xtask`: which commands the tasks of the workspace run, and in what order.
- `app`: the command line, the programs that are started, and the asynchronous front.

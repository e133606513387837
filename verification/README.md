# node_benchmark

A verified library that ranks proxy nodes: it decides which nodes take part, when each of them is
tested, how much traffic the tests may cost, what a test result is worth, and which node comes
first.

- `src/` is the library. Every item is verified by Verus; the few outside calls stand behind
  declarations whose contracts are stated next to them (`config.rs`, `controller.rs`, `replies.rs`,
  `schedule.rs`, `settings.rs`, `text.rs`).
  - Data: `models`, `settings`, `errors`, `floats`, `text`, `order`, `digits`.
  - Profiles and the isolated core: `config`, `profile`, `controller`, `replies`.
  - Tables: `store`, `reconcile`, `queries`, `tables`, `keywords`.
  - Tests and their schedule: `speed`, `transfer`, `delay`, `schedule`, `outcomes`, `visit`,
    `cycle`, `scan`, `batch`, `manual`, `status`.
  - The ranking: `rankings`, `traffic`, `manager`.
  - What holds across several operations: `laws`, `ranking_laws`, and the functions named `law_..`
    in the other modules.
- `tests/` runs the library on concrete values.
- `app/` connects the library to a host application: clocks, sockets, the SQLite database, the
  background tasks and the figures that need floating-point arithmetic.

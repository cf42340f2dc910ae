# queenui

The verified core of the QueenUI headless runner and bot-fleet automation,
written in Verus.

- `src/` is the library. Each public function carries a contract that Verus
  proves: the runner's credential and idempotency ledger (`ledger`), the
  command admission rules (`commands`), automation ownership (`ownership`),
  game decisions and retained-game pruning (`game`), the step a game-stream
  event takes a game to (`game_step`), telemetry and the engine
  configuration fingerprint (`telemetry`), the trusted engine store and
  browser (`engine_store`), the fleet configuration of engine profiles and
  accounts (`fleet`), scorebook imports (`scorebook`), account events,
  challenges, lifecycle queues, storage paths, the TLS identity and the
  public URL. The `*_laws` modules
  state and prove properties that span several calls.
- `src/outside.rs` holds the trusted wrappers around the outside crates the
  library calls (`sha2`, `subtle`, `getrandom`, `base64`, `rand`, `url`);
  `identity.rs` wraps `rcgen`.
- `tests/` exercises the library with the outside crates linked.
- `app/` is the `queen-runner` program: data directory, SQLite storage of the
  ledger, TLS identity files, the authority lock and the pairing command.

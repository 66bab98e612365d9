# arena

A Heads-or-Tails elimination arena for Soroban. Players stake a fixed amount to
join; each round they commit to a hashed choice, then reveal it. The side picked
by fewer players survives (a host coin decides a tie); the last survivor wins the
pool, and a draw or the round limit splits it evenly.

- `src/` is the verified core, written in Verus. The arena's storage is modelled
  as plain values (`model.rs`); every operation is a method on
  `ArenaContract` whose contract states exactly when it is refused, how the
  state changes, and which transfers, events and notifications (`Effect`) the
  host must carry out. `laws.rs` proves properties that span operations.
  The only call into the Soroban SDK from `src/` is the host's SHA-256
  (`crypto.rs`); the coin that breaks a tie is an argument, drawn by `app/`.
- `app/` is the contract itself: it loads the stored arena, checks
  authorisation, calls the core, stores the result and performs the effects.
- `tests/` runs the core on concrete games, and checks the address encoding
  and commitment hashing against the Soroban host.

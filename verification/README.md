# uniswap_v4

A verified library that discovers the pools of a Uniswap v4 pool manager, reads their state from
the manager's storage, and keeps them up with the manager's logs.

- `src/` is the library. Every function states what it returns in `requires` and `ensures`, and
  Verus proves it. The calls into `alloy`, `chrono` and `uniswap_v3_math` stand behind small
  functions whose contracts are trusted (`encoding.rs`, `snapshot.rs`, `uniswap_v3.rs`).
- `tests/` runs the library on concrete values.
- `app/` is ordinary Rust around it: RPC providers, files, locks, serialization.

| Module | Contents |
| --- | --- |
| `word` | addresses, hashes, 256-bit integers as big-endian bytes |
| `encoding` | Keccak hashes and ABI encodings |
| `lense` | storage slots and the layout of storage words |
| `events` | the layout of the manager's logs |
| `uniswap_v3`, `position`, `position_laws` | ticks, bitmaps and the liquidity of positions |
| `pool` | a pool: key, identifier, swaps, following logs |
| `factory` | discovery of pools |
| `sync`, `tick_sync`, `pipeline` | taking over what was read from storage |
| `hooks` | the registry of hooks that observe the state |
| `snapshot` | when snapshots are taken, their names, and which are kept |

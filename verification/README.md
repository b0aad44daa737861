# seej

A deterministic world simulation kernel with snapshot and write-ahead-log
persistence, verified with Verus.

## Layout

- `src/` — the verified library.
  - `types`, `text`, `keyed`, `world`, `commands`, `events`, `errors`: the data
    model and its mathematical views.
  - `validation`: command validation.
  - `sim`, `rng`: the simulation state machine, its tick rules and the PCG32
    random number generator and clocks it is driven by.
  - `replay`: applying persisted events to a world.
  - `determinism`, `hash`: canonical world bytes, state hashing and
    deterministic scheduled runs; `canonical`: the canonical bytes determine
    the world.
  - `wal`: the binary record format of the event log, framing, CRC checks,
    recovery of the valid prefix and event id assignment.
  - `snapshot`, `migrations`: snapshot validation and format gates.
  - `persistence`, `runtime`: the storage ports and the persistent runtime that
    commits events to the log before accepting a state change, and recovers a
    world from snapshot plus log.
  - `laws`, `indexing`, `equivalence`: properties that span several operations
    (replay reproduces every successful command, `TickN` equals `n` ticks,
    commands keep the zone index, and so on).
- `app/` — the file system store, the file-backed event log and the JSON
  encoding of snapshots and log payloads.
- `tests/` — executable tests of the library.

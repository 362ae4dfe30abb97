# tashi_swarm

The verified core of a swarm-telemetry system: drones' GPS fixes are polled
from a Geotab-style feed, submitted to a BFT consensus engine, and every node
builds the same state from what consensus confirms.

- `src/` is the library, verified with Verus:
  - `records` — the records that travel through consensus (coordinates are
    kept as the bit patterns of their `f64` values);
  - `text` — the order of string keys and the short tag of a key;
  - `keyed_store` — a map from string keys kept in key order, with the proof
    that its listing depends on its contents alone;
  - `node_state` — a node's confirmed state and the snapshot it serves;
  - `analyst` — the rolling window of confirmed telemetry and the latest fix
    of each drone in it;
  - `feed` — which feed answers are new and which records a node submits;
  - `config` — the swarm configuration rules.
- `app/` holds the programs around it (feed simulator, consensus node,
  warm-up configuration generator): HTTP, files, the database, the consensus
  engine, the language model and the floating-point kinematics.
- `tests/` runs the library on concrete values.

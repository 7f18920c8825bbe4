# NebulaStore control plane

A control plane for a decentralized storage network: a domain registry with
governance policies, an object catalogue with uploads, snapshot consensus
between nodes, and the protocol's planning, repair, penalty, migration and
selection rules. The rules live in a library whose behaviour is stated in
contracts and proved with Verus; a thin program around it does the I/O.

## Layout

- `src/` — the verified library.
  - `text.rs` — character-level text operations (search, split, trim,
    decimal and hexadecimal digits, text order) with their specifications.
  - `model.rs` — records, the key-ordered domain table, snapshots, content
    hashes and data identifiers.
  - `domain_service.rs` — register, resolve, renew and delete, with the
    registry's laws.
  - `uploads.rs` — upload checks, chunked upload sessions, media previews and
    stored objects.
  - `catalog.rs` — human-readable sizes, file summaries and reading them
    back, the object catalogue and the recent blocks.
  - `migration.rs` — completing records of older snapshots.
  - `consensus.rs` — snapshot adoption, votes, write quorum and election.
  - `protocol.rs` — repair state machine, penalties, tier migration, plan
    rules, workflow summary, template and strategy names.
  - `selection.rs` — Pareto frontier, its grouping, and template ranking.
  - `planning.rs` — template presets and parameter search rules.
  - `report.rs` — the management report and its Markdown rendering.
  - `cli.rs` — the `domain` command, arguments and peers.
- `app/` — the command-line program and HTTP service: argument parsing,
  snapshot files, HTTP handlers, peer-to-peer calls, and the estimates the
  protocol computes in floating point.
- `tests/` — tests of the library.

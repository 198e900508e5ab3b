# mnir_core

The canonical data model of MNIR Programs, verified with Verus: Program and
Module identity, revisions, snapshots and forks, controlled mutation through
transactions, structural validation, Expression typing, reconstruction of
persisted Programs, and the canonical `.mnir` file format.

## Layout

- `src/` — the verified library. Each operation states its result in
  `requires`/`ensures` over spec views (`ProgramView`, `TransactionView`,
  `CheckpointView`, `WireProgram`, …).
  - `ids`, `intrinsic`, `presentation`, `model`, `body` — identities, types
    and the Program model with their views.
  - `program`, `transaction`, `edit`, `validation`, `typing`, `semantic` —
    lineages, mutation, structural validity and Expression types.
  - `persistence`, `authority` — reconstruction of persisted Programs and the
    registry that grants one mutable continuation per lineage; activating a
    checkpoint claims its lineage from a registry passed in, and is refused
    while another continuation is live or when the checkpoint is stale.
  - `cbor`, `writer`, `encode`, `scan`, `decode`, `document`, `format`,
    `order` — the `.mnir` byte format: the CBOR items, the writer, the
    canonical profile and the reader.
  - `roundtrip`, `canonical`, `reorder`, `revalidate`, `laws` — what holds
    across operations, among them that a written file decodes to its
    checkpoint, reconstructs where the checkpoint does, and re-encodes to
    the same bytes.
- `tests/` — the test suite, run against the compiled library.
- `app/` — the unverified edge: the one registry of the process behind a
  lock, the lease that releases a lineage on drop, and the `Display`/`Error` forms of
  the error types with their messages.

Outside crates: `minicbor` writes and reads the CBOR items, `getrandom`
draws the random bits of new identities; both are called from `src/`
through small wrappers whose contracts are stated in `cbor.rs` and
`program.rs`.

# murk

Building blocks of a deterministic, tick-based simulation engine, with
their contracts proved by Verus.

- `src/id.rs`, `src/field.rs`, `src/field_set.rs`, `src/command.rs`,
  `src/error.rs`, `src/entity.rs`: identifiers (entity IDs packing a slot
  and a generation), field definitions, bitset field sets with their
  algebraic laws, commands and receipts, error kinds, entity manifests.
- `src/arena/`: the double-buffered field arena: bump-allocated segments,
  a sparse slab with copy-on-write (freed ranges become reusable after a
  flush, which the arena itself never performs), a static arena,
  the field descriptor, and snapshots of published generations. Element
  types are generic; callers pass the zero value. Proved: a write changes
  only the field written, a tick starts its per-tick fields from zero, and
  a snapshot taken after publishing reads back what the tick wrote.
- `src/engine/`: the epoch counter and worker pins, the snapshot ring, the
  ingress queue (bounded, TTL-filtered, deterministically ordered), the
  decisions of the tick engine (receipts, rollbacks, disabling), stalled
  worker detection, egress worker steps, the shutdown state machine of
  the realtime world, configuration with its structural checks, the
  arena inputs of a world (numbered fields, static field sizes), the
  writes a tick applies before its propagators, and the checks on a batch
  of worlds.
- `src/entities/`: the fixed-capacity entity store (generational slots,
  free-slot recycling, a coordinate index in arrival order, rollback
  snapshots), property staging and overlay reads. Property values are
  `f32` bit patterns.
- `src/bench.rs`: deterministic initial agent placement.
- `app/`: what stays outside verification: the process clock and instance
  counter, inline coordinates, float-carrying payloads and bounds, the
  adaptive backoff curve, the float checks of a world configuration, and
  thread-shared wrappers.

`tests/` holds the executable tests.

# redstone_java

Verified building blocks of a Java Edition redstone simulator: block
rules that need no world (shapes, orientations, comparator and block-entity
signals, inventory slots), and the compiled backend that runs redstone as a
precompiled network.

- `src/position.rs`, `src/orientation.rs`, `src/registry.rs`, `src/text.rs`:
  positions and directions, the 48 orientations, block traits, and the
  reading of block-state properties.
- `src/rules/`: world-free block rules.
- `src/compiled/`: the node graph with its reverse dependency index
  (`graph`), the dense wire network and its runtime (`dense`, `network`,
  `static_network`, `runtime`, `buckets`, `state`), the wire links read off
  the world's wire connections (`links`), ordered propagation,
  the invalidation plan and wire closure (`invalidation`, `closure`), the
  compiled runtime that answers block changes (`compiled_runtime`), and the
  executor that chooses between compiled and interpreted execution
  (`executor`, `window`).
- `src/posmap.rs`: maps keyed by block position over `rustc_hash`.
- `app/`: the floating-point light model, the serde forms and JSON readers,
  and the error messages.

The functions in `src/` are verified by Verus, nearly all of them against a
`requires`/`ensures` contract; the laws of the library are public proof functions named `law_*`.
What the world shows the compiled backend comes in as plain readings
(`WorldView`, `BlockReading`, `WireView`).

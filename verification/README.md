# engine

A code-intelligence engine: it scans a source project, extracts symbols,
imports, outlines and references from TypeScript, JavaScript and Rust files,
builds the dependency graph between files, analyses that graph (cycles,
hotspots, change impact, architectural style, snapshot comparison, C4 views)
and assembles the compact contexts handed to an AI provider.

The library in `src/` is written in Verus: its functions carry
`requires`/`ensures` contracts that the verifier proves, over mathematical
models (`Seq`, `Set`, `Map`, spec functions) of the data.

## Layout

- `src/models.rs`, `src/errors.rs`, `src/ports.rs` — the data model, the
  error type and its IPC mapping, and the ports (repositories, clock, id
  generator, stopwatch, application state).
- `src/text.rs`, `src/syntax.rs` — string helpers with their specifications;
  the syntax-tree model and the tree-sitter calls behind it.
- `src/parser.rs`, `src/ts_parser.rs`, `src/rust_parser.rs`,
  `src/registry.rs` — the parser contract and the extraction of symbols,
  imports, outlines and references from syntax trees.
- `src/json.rs` — JSON documents as plain values (read with serde_json),
  from which the tsconfig path aliases are taken.
- `src/graph.rs`, `src/commands.rs`, `src/scan_service.rs`, `src/services.rs`
  — import resolution, graph construction, the scan pipeline and the
  application services.
- `src/cycles.rs`, `src/hotspots.rs`, `src/impact.rs`, `src/architecture.rs`,
  `src/snapshots.rs`, `src/migrations.rs` — the graph analyses. Cycle
  detection is Tarjan's algorithm, proved sound (each reported cycle is a
  whole strongly connected component) unless the time budget runs out, and
  complete (every node reached from a listed node shares a reported cycle
  with every node it depends on mutually) unless the time budget or the
  cycle cap cuts the search short.
- `src/context.rs`, `src/ai.rs` — context windows for AI requests and the AI
  service's preparation steps.
- `app/` — the unverified edges: the SQLite store, file discovery and
  reading, the HTTP provider, the serialized (serde) forms of the values, and
  the floating-point scores.
- `tests/` — executable tests of the library.

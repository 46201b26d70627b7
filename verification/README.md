# obol

A static bug finder for Rust programs, written in Verus. It reads a crate
lowered to an unstructured control-flow form and reports:

- double locks, conflicting lock orders and condvar misuse;
- atomicity violations on atomic objects;
- invalid frees, uses after free and panics;
- channel deadlocks and senders whose receiver is never used.

Each detector's contract in `src/` states its result in terms of spec
functions over the crate. For example, the conflicting-lock reports cover
every cycle of at most five relations, up to rotation and direction, and no
cycle is reported twice. Every atomicity violation within a function or
across functions connected by calls is reported. The double-lock search
emits exactly the events of its depth-first walk.

## Layout

- `src/lockbud/` — the detectors over the unstructured bodies: the call graph,
  guard collection, the dataflow engine, the deadlock, condvar, atomicity,
  memory, panic and channel detectors, and `run`, which runs them in order.
- `src/stable_analysis/` and `src/stable_mir/` — the analyses over the
  stable compiler interface (lock types, lock identity, guard lifetimes, the
  lock-order graph) and a model of that interface's data.
- `src/stable_demo.rs` — the text reports of the demo driver.
- `src/laws.rs` — properties that relate several functions, stated as proof
  functions.
- `src/lockbud/conflict_graph.rs` — the conflict graph, kept in a
  `petgraph` graph behind a few trusted wrappers whose contracts follow
  petgraph's source.
- `app/` — the command-line driver: argument handling, JSON output and
  file I/O, none of which Verus checks.
- `tests/` — tests of the library on concrete inputs.

Hash maps and sets of the analysed data are held in vectors with the
uniqueness they need stated as invariants: vstd gives no specification to the
hasher that the `FxHashMap`/`FxHashSet` types are built on.

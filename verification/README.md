# rot

`rot` counts the Rust of a project by the role its code plays, and audits, with facts from the
compiler, which public declarations a workspace needs. This crate holds the rules of both, verified
with Verus: every function states what it returns, and the proofs are part of the source.

- `src/model.rs`, `src/module_graph.rs`, `src/gates.rs`, `src/analyze.rs`: how code is reached
  (in production, in tests, perhaps, never), how that spreads along modules, and the report made
  from it.
- `src/diff.rs`, `src/report.rs`, `src/repository.rs`: two reports compared, tables, and the paths
  and commits of a Git repository.
- `src/protocol.rs`, `src/driver/`: what the compiler driver records of a crate, and how it finds
  the facts that it records.
- `src/compiler/`: the run of Cargo with that driver. Its sidecars are checked, matched with Cargo's
  units, and brought together in one graph of declarations and references, from which follows what
  is used, what must be public, and what depends on a declaration.
- `src/audit.rs`: snapshots of that evidence, and two of them compared.
- `src/collections.rs`, `src/order.rs`, `src/text.rs`, `src/paths.rs`: what all of these stand on.

`app/` is the program around the library: arguments, files, Git, Cargo and JSON. `app/driver.rs` is
the compiler driver, a program of its own that is built with a toolchain's own compiler crates.

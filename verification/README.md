# tendon

Tools for reading the interface of a Rust crate: its items, scopes and bindings, the
resolution of `use` paths, the expansion of `macro_rules!` macros, the lowering of attributes
and `cfg` predicates, scraping rustdoc pages, and reading save-analysis data.

The library in `src/` is written in Verus: every function carries a contract, and the
properties that span several operations are stated and proved in `src/laws.rs`.

- `src/` — the verified library. Calls into outside crates (`syn` 2, `regex`, `soup`,
  `serde_json`, `hashbrown`) go through a few small wrappers whose contracts say what those
  crates promise.
- `tests/` — tests on concrete values.
- `app/` — the parts that talk to the outside world: running `cargo`, `rustdoc` and `rls`,
  reading files, turning `syn` syntax into the library's values, and a worker pool.

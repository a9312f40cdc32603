# mdd_core

A library for browsing and comparing MDD diagnostic databases, written in
Verus: each public function states what it returns in its `requires` /
`ensures` contract, and Verus proves the code against it.

## Layout

- `src/tree/` — the flat tree of nodes shown to the user: node and detail
  types with their mathematical views (`types.rs`), the builder that
  accumulates nodes (`builder.rs`), the resolution of cross-references by
  name (`resolve.rs`), row helpers (`rows.rs`) and, under `elements/`, the
  detail tabs and subtrees of the elements of a diagnostic layer (services,
  requests and responses, diag-comms, parameters, tables, DOPs,
  communication parameters), built from plain descriptions of the database.
- `src/diff/` — snapshots of two databases (`snapshot.rs`), their comparison
  (`compare.rs`, over the sorted map of `keyed_map.rs`), the merged diff tree
  (`diff_tree.rs`) and the text report (`export.rs`).
- `src/uds/` — byte layouts of requests and responses (`byte_pattern.rs`) and
  the UDS service names, hex parsing and formatting (`translator.rs`).
- `src/browse.rs` — the state of an open tree: visible nodes, expansion,
  search, sorting, navigation and tabs.
- `src/context.rs`, `src/assistant.rs`, `src/report.rs` — the text handed to
  an assistant about the open tree and the chat state around it.
- `src/sort.rs`, `src/tree_sort.rs`, `src/text.rs` — a verified stable sort,
  the sort keys of the tree, and text helpers (decimal and hex rendering,
  lower-casing).
- Laws that relate several functions are public proof functions named
  `law_*`, next to the functions they speak of.
- `tests/` — tests on concrete values.
- `app/` — the command layer around the library (locking, file names, wire
  types); it is not verified.

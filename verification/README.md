# armature_collab

Conflict-free replicated data types and the state of real-time collaboration
sessions, written in Rust and verified with [Verus](https://github.com/verus-lang/verus).

- `src/` is the library. Every function states in its contract what it returns and
  changes; what holds across functions is proved as public proof functions.
  - `ident`, `clock`, `vector_clock`, `operation`: ids, Lamport timestamps, causality.
  - `register`, `counter`, `g_set`, `or_set`, `lww_map`: the basic replicated types.
  - `text`: a replicated growable array. `text::order` defines the order of characters,
    the `*_laws` modules prove convergence.
  - `document`: documents of named fields, and what merging them gives.
  - `presence`: who is there, with which cursor and selection.
  - `session`: sessions, their events and their manager.
  - `element`, `table`, `items`, `counts`, `time`, `error`: what the others are made of.
- `app/` is the asynchronous shell: locks, broadcast channels, JSON, displayed errors.
- `tests/` runs the library.

The library calls a few functions of other crates: `uuid` for random ids and their text,
`chrono` for the machine's clock, `dashmap` for the maps of clients, sessions and documents, and
`serde_json` for metadata values and errors. What is believed of each call is stated
above it, in the comment and contract of a small wrapper.

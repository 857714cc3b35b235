# counterpoint_engine

Species counterpoint in Verus: interval arithmetic, two-voice rules, first-species
generation by depth-first search, Laman constraint graphs, tensor-MIDI encoding and
holonomy-based harmony analysis, each function with a contract proved by Verus.

- `src/` — the verified library (`interval`, `rules`, `voice_leading`, `generator`,
  `laman`, `tensor_output`, `harmony::{tonal_graph, cycle_checker, analyzer}`, and the
  helpers `arith`, `sorting`, `text`, `exceptions`).
- `tests/` — tests run against the compiled library.
- `app/` — ordinary Rust around the library: floating-point scores, the weighted tonal
  graph, serde copies of the data types, and the error type with `std::error::Error`.

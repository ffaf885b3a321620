# ferriox

Host-side logic of Ferriox, a block-routed, memory-bounded compressed sparse
attention pipeline, with contracts and proofs.

- `src/` — the library, with its contracts and proofs:
  - `routing` — entry/block arithmetic, the deterministic tie-break, and the
    CSR → CSC reverse view of a block selection, with its model
    (`selectors`, `block_offset`, `is_reverse_view`) and laws;
  - `indexer` — the causal legal domain `floor((t + 1) / m)` and the
    effective selection budget;
  - `scheduler` — the shared task counter of the backward passes;
  - `workspace` — the bounded, aligned bump arena;
  - `tensor` — row-major strides and element counts;
  - `config`, `error`, `forward`, `sink` — shared types and entry points.
- `app/` — ordinary Rust around it: the floating-point configuration,
  sink gradients, the `f32` score comparator, and the error type with
  `std::error::Error`.
- `tests/` — scenario tests.

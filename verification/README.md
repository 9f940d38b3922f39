# emmy_noether

Noise-aware compiler building blocks for (modular) quantum hardware.

- `src/` (verified with Verus):
  - `topology`: the module/link graph of physical qubits, held in a
    `petgraph` undirected graph plus a node-index map; registration of
    qubits, local couplings and inter-module couplers, and the query for the
    couplers that touch a module.
  - `graph_store`: the trusted view of the `petgraph` graph (declared types,
    names for its nodes and edges, one wrapper per `petgraph` function).
  - `hurst`: the integer side of Detrended Fluctuation Analysis: parameter
    checks, the window-size schedule, the sliding windows of the local
    estimate.
  - `telegate`: the kinds of inter-module couplers.
- `app/`: the floating-point models (DFA on `f64` series, colored-noise
  generation, dynamical-decoupling synthesis, fidelity and telegate costs)
  and the Python bindings; they call the library for the integer decisions.
- `tests/`: tests of the library.

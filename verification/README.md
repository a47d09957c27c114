# CleitonForge

A differential fuzzer and benchmarking layer for quantum circuit
simulators, with its circuit logic written in Verus and proved against
its contracts.

## Layout

- `src/` — the verified library.
  - `gate`, `ir`: gate kinds, operations and circuits, with the
    well-formedness rules that `Circuit::validate` decides.
  - `translate`: gate names (and their aliases) to gate kinds, with the
    parameter rewriting of aliased gates.
  - `qasm2`, `qasm3`, `source`: building circuits from OpenQASM syntax
    trees (register layout, broadcasting, inlining of user gates), and
    preparing source text.
  - `normalizer`, `mirror`: Rz sign-convention rewriting and exact circuit
    inversion, on the bit patterns of the angles.
  - `circuit_stats`, `memory`: depth and gate counts; statevector memory
    bounds and reading the resident set size out of a status text.
  - `shrinker`, `triage`, `oracle`, `generator`, `zoo`: the fuzzing
    pipeline — delta-debugging reduction, bug classification, oracle
    levels, weighted random gate choice, and the text of bug-zoo entries.
  - `qv`: the layer structure of Quantum-Volume-style random circuits,
    built from angles drawn by the caller.
  - `backends`, `sample`, `certify`, `zne`, `error`, `text`: backend names
    and selection, the sampling generator and bitstring labels, check
    outcomes, and error texts.
- `tests/` — tests run against the compiled library.
- `app/` — the `cforge` command line and everything that computes in
  floating point: statevector and density-matrix simulation, noise
  channels, the outside simulator backends, XEB and heavy-output
  benchmarks, conformance certification and fidelity metrics.

Angles are carried through the library as the bit patterns of their
binary64 values; the floating-point arithmetic on them happens in `app/`.

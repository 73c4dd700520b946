# ternary_dynamics

Tools for the dynamics of ternary agent populations (agents that avoid,
cooperate or exploit), with a small ternary-logic simulation engine.

## Layout

- `src/` — the library, verified with Verus.
  - `lib.rs`: `TernaryStrategy`, the ternary values, nodes and gates, and the
    `Simulation` clock.
  - `generation_order.rs`: records stamped with a generation; a stable sort by
    generation (and the proof that its outcome is unique) and the removal of
    repeated generations.
  - `trajectory.rs`: one agent's strategy history: adoption, lookup by
    generation, transitions, time spent per strategy, loyalty and switching
    back.
  - `logger.rs`: per-generation snapshots and the logger that keeps them.
  - `timeseries.rs`: population metrics recorded per generation.
  - `critical.rs`: critical points, their ordering, and the choice of plateau
    starts from the flat windows of a series.
  - `phase.rs`: phase events and the ordering of rolling-window detections.
  - `dynamic_mode.rs`: the modes of system dynamics and the majority vote of
    three signals.
- `app/` — the floating-point side, in ordinary Rust: the detectors, the mode
  classifier, the metric computations and the series statistics. They compute
  with `f64` and hand their decisions to the library.
- `tests/` — the tests.

The library keeps `f64` values that it carries but never computes with
(fitness, diversity, magnitudes) as their bit patterns (`f64::to_bits`); the
traits in `app/` read them back.

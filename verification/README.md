# kernel_model

The decided half of a parametric CAD kernel model, verified with Verus.

A CAD kernel is mostly floating-point geometry: point positions, a
Levenberg–Marquardt constraint solver, arc tessellation, B-rep sweeps, tolerance
sums and root-sum-squares. Around that geometry sit decisions made on plain
values — which edges form closed loops and in what order they are walked, how a
degree-of-freedom count is classified, what an ISO 286 fit's limits are, how a
stack-up verdict reads, which manufacturing process has a profile. Those
decisions are the library in `src/`, each with a contract, and the properties
that span functions are proved as lemmas.

## Layout

- `src/sketch.rs` — sketch topology: points, segments, arcs, standalone
  circles; `profile` (the single closed loop), `all_loops` (the loop
  decomposition), `single_circle`, `analyze` (DOF classification). Proved:
  every loop is the unique closed walk through its seed edge, the loops
  partition the edges, and a sketch's profile exists exactly when it has one
  loop (`lemma_profile_is_the_only_loop`).
- `src/fits.rs` — ISO 286 limits and fits in integer micrometres by diameter
  step; case-insensitive fit names. Proved: ordered bands and zero-line
  anchoring for every fit at every step, each fit's clearance character, and
  case-insensitivity of the lookup.
- `src/tolerance.rs` — signs, tolerance provenance labels, stack method names,
  decimal numerals and the verdict of a stack-up report.
- `src/process.rs` — manufacturing-process routing and profile naming rules.
- `tests/` — scenario tests of the library.
- `app/` — the floating-point geometry around the library (sketch solver and
  tessellation, stack arithmetic, fits in millimetres, FDM profiles, ratings,
  gear/sprocket/shaft geometry, mesh recovery). It builds on the kernel's own
  B-rep, mesh and implicit-surface crates.

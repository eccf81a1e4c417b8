# bevy_gas

A gameplay ability system core for Bevy, with its rules proved by Verus.

- `src/` is the verified library: hierarchical gameplay tags and reference-counted tag
  containers, tag requirements, ability chains, activation contexts and task completion plans,
  active-effect storage with stable handles, preparing and executing effect applications,
  stacking, duration and period ticking, requirement decisions and their convergence over all
  entities, the gameplay request queue, and target selections. Every public function states its result in `ensures`; the laws that relate
  several functions are public proof functions.
- `app/` connects the library to Bevy: components and resources around the library's state,
  the systems that drive it each fixed tick, display text for its errors, and the
  floating-point parts of targeting and effect timing.
- `tests/` runs the library on concrete values.

Positions, distances, snapshots, and effect definitions are generic parameters of the library
types, so the verified rules never read a floating-point value.

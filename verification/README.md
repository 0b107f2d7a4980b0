# reactive_signal

Fine-grained reactivity on entities and change detection, verified with Verus.

Effects are computations that re-run when the data they read changes. A source is any component of
any entity, or any resource; a signal is a source of its own. While an effect runs, each read is
recorded, so that it is subscribed to exactly what it read on its last run. Change ticks decide what
is newer than what: a flush polls the sources for changes, and re-runs the effects whose
dependencies are newer than what they last observed, in the order of registration.

A flush that is done leaves no effect stale: whatever the effects wrote meanwhile, none of them has a
dependency that changed since it last ran. This holds of a flush that does not run within another
one, as long as the 32-bit tick has not started over.

- `src/` is the library. `state` holds the model of a world and what every world satisfies; `laws`,
  `quiet` and `field_laws` state what holds of the library as a whole; `collections` holds what is
  taken from `bevy_platform` on trust.
- `tests/` runs it.
- `app/` holds what surrounds it: effects made of closures, and the log.

# plato_timing

A beat clock for coordinating speaking agents, verified with Verus.

- `src/energy.rs` — energy levels and their BPM ranges.
- `src/config.rs` — clock configuration and its default.
- `src/tempo.rs` — the tempo step (at most 2 BPM toward the target, held
  within the configured limits) and its laws: it stays within the limits,
  changes gradually and converges.
- `src/meter.rs` — downbeats, beats to the next downbeat, where a t-minus
  event lands, and their laws.
- `src/cadence.rs` — when each speaking cadence talks on a beat.
- `src/clock.rs` — the clock itself: ticking, energy changes, scheduling and
  draining t-minus events, rebuilding a clock from its parts; a type
  invariant on event ids, and laws over the operations: every reachable
  clock stays consistent (tempo within the limits, an event fired exactly
  when its beat is reached) and a drained event is never delivered again.
- `app/` — the demo program, times in seconds (floating point), and serde
  copies of the data types and of the clock.

Tempos are whole beats per minute, the swing factor is a percentage, and
speech timings are hundredths of a second.

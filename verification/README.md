# db_sim_core

A deterministic, integer-only simulation core for a turn-based artillery game, written in
Verus: every function carries a `requires`/`ensures` contract over mathematical models, and
the properties the game relies on are stated and proved as public proof functions.

## Layout

- `src/fixed.rs` — fixed-point positions and saturating, rounding integer arithmetic.
- `src/terrain.rs` — the material grid and destructive terrain operations.
- `src/rng.rs` — the seeded generator, the only entropy source.
- `src/types.rs` — match state, players, statuses, objects and damage records.
- `src/movement.rs` — walking, jumping and settling with swept collision.
- `src/projectile_mechanics.rs` — bounded building blocks for projectile behaviours.
- `src/resolve/` — effect resolution: displacement, relocation, objects, statuses and
  attack modifiers, all over one `ResolveContext`, and the dispatcher that routes an effect
  to its family.
- `src/match_setup.rs` — roster limits, the match-local identifier alphabet, loadout
  legality and roster validation (player count, identifiers, distinct ids, opposing teams,
  resolvable loadouts). Map lookup and spawn assignment are not part of this crate.
- `src/match_session.rs` — the session's normalized command, timeout and ability-preview
  request types, their structural validation against a supported schema, their
  retained-byte accounting, and the terrain diff published after an action.
- `src/presentation.rs` — the client-facing presentation types (events, strike resolutions,
  traces, snapshots), the exact retained-byte measure of a presentation, and event
  derivation: the events of an ability's own records (traces, impacts, strikes at their own
  impact ticks, public random results), terrain, passive-choice, in-place object and turn
  events, and the final ordering (events numbered by position, strictly ordered by tick,
  rank and derivation order).
- `src/player_events.rs` — the per-player stage of event derivation: moves, health (with the
  recorded damage breakdown), gauge, passive choices and eliminations, each elimination
  attributed to the strike or damage that caused it.
- `src/transition_events.rs` — all stages of event derivation for one transition, in
  derivation order, then ordered for presentation: numbered by position, never back in time,
  every projectile strike at its own trace's impact tick.
- `src/reconcile.rs` — status reconciliation: the client status kind of each effect kind, the
  exact replay of recorded status changes against the pre-action statuses, and the status
  events derived from the record.
- `src/session_ledger.rs` — the first-receipt ledger in front of the authoritative host:
  structural refusal of malformed requests, idempotent replay, key conflicts, stale
  generations, entry and byte limits with atomic publication (the ledger measures each
  retained presentation itself), generation advance, and checkpoint/restore validation that
  recomputes every entry's retained size. The host itself, canonical digests and match
  creation are not part of this crate: the ledger takes the host's results (the transition
  envelope and its presentation) as arguments.
- `tests/` — scenario tests and concrete instances of the proved laws.

Verification: `verus` on `src/lib.rs`; the tests run with the ordinary Rust test harness.

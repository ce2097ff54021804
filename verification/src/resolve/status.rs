//! Status-family resolvers (Chill, Lockdown, Embers) and the shared rules for attaching
//! any status to a player.
//!
//! A status of a kind the player already carries is refreshed (magnitude and duration
//! replaced), never stacked or summed, and a player's status list stays sorted by kind.

use crate::error::{SimError, SimResult};
use crate::fixed::{spec_within_radius, within_radius, FixedPoint};
use crate::types::{
    spec_find_player, spec_kind_rank, EffectKind, PlayerState, SimulationState, SpecialEffect,
    StatusChange, StatusEffect, StatusTransition,
};
use super::ResolveContext;
use vstd::prelude::*;

verus! {

// ---------------------------------------------------------------------------------------
// Model
// ---------------------------------------------------------------------------------------

/// What a status record says: whose status, which kind, and what happened.
pub open spec fn spec_change_view(change: StatusChange) -> (Seq<char>, EffectKind, StatusTransition) {
    (change.player_id@, change.kind, change.transition)
}

/// The views of a list of status records.
pub open spec fn spec_change_views(changes: Seq<StatusChange>) -> Seq<
    (Seq<char>, EffectKind, StatusTransition),
> {
    changes.map_values(|change: StatusChange| spec_change_view(change))
}

/// Whether `statuses` is sorted by kind (ties allowed).
pub open spec fn spec_sorted_by_kind(statuses: Seq<StatusEffect>) -> bool {
    forall|i: int, j: int|
        0 <= i < j < statuses.len() ==> spec_kind_rank((#[trigger] statuses[i]).kind)
            <= spec_kind_rank((#[trigger] statuses[j]).kind)
}

/// Whether `statuses` is strictly sorted by kind: sorted, with at most one status per kind.
pub open spec fn spec_canonical_statuses(statuses: Seq<StatusEffect>) -> bool {
    forall|i: int, j: int|
        0 <= i < j < statuses.len() ==> spec_kind_rank((#[trigger] statuses[i]).kind)
            < spec_kind_rank((#[trigger] statuses[j]).kind)
}

/// Where a stable insertion by kind puts `status`: after every leading status whose kind
/// sorts no later.
pub open spec fn spec_insert_position(sorted: Seq<StatusEffect>, status: StatusEffect) -> int
    decreases sorted.len(),
{
    if sorted.len() == 0 {
        0
    } else if spec_kind_rank(sorted[0].kind) <= spec_kind_rank(status.kind) {
        1 + spec_insert_position(sorted.drop_first(), status)
    } else {
        0
    }
}

/// The stable sort of `statuses` by kind.
pub open spec fn spec_sort_by_kind(statuses: Seq<StatusEffect>) -> Seq<StatusEffect>
    decreases statuses.len(),
{
    if statuses.len() == 0 {
        statuses
    } else {
        let sorted = spec_sort_by_kind(statuses.drop_last());
        sorted.insert(spec_insert_position(sorted, statuses.last()), statuses.last())
    }
}

/// Index of the first status of `kind`, if any.
pub open spec fn spec_first_of_kind(statuses: Seq<StatusEffect>, kind: EffectKind) -> Option<int>
    decreases statuses.len(),
{
    if statuses.len() == 0 {
        None
    } else {
        match spec_first_of_kind(statuses.drop_last(), kind) {
            Some(i) => Some(i),
            None => if statuses.last().kind == kind {
                Some(statuses.len() - 1)
            } else {
                None
            },
        }
    }
}

/// `statuses` with `status` attached: the first status of the same kind replaced, or the
/// new status appended; then stably sorted by kind.
pub open spec fn spec_apply_status(statuses: Seq<StatusEffect>, status: StatusEffect) -> Seq<
    StatusEffect,
> {
    match spec_first_of_kind(statuses, status.kind) {
        Some(k) => spec_sort_by_kind(statuses.update(k, status)),
        None => spec_sort_by_kind(statuses.push(status)),
    }
}

/// The transition recorded when `status` is attached to `statuses`.
pub open spec fn spec_apply_transition(statuses: Seq<StatusEffect>, status: StatusEffect) -> StatusTransition {
    match spec_first_of_kind(statuses, status.kind) {
        Some(k) => StatusTransition::Refreshed {
            magnitude: status.magnitude,
            turns_remaining: status.turns_remaining,
            replaced_magnitude: statuses[k].magnitude,
            replaced_turns_remaining: statuses[k].turns_remaining,
        },
        None => StatusTransition::Applied {
            magnitude: status.magnitude,
            turns_remaining: status.turns_remaining,
        },
    }
}

/// `after` is `before` with only its status list replaced by `statuses`.
pub open spec fn spec_with_statuses(
    after: PlayerState,
    before: PlayerState,
    statuses: Seq<StatusEffect>,
) -> bool {
    &&& after.id == before.id
    &&& after.team == before.team
    &&& after.health == before.health
    &&& after.max_health == before.max_health
    &&& after.position == before.position
    &&& after.character_id == before.character_id
    &&& after.statuses@ == statuses
}

/// A status after one turn boundary: duration statuses lose a turn (never below zero);
/// count-based `GuaranteeCrit` is untouched.
pub open spec fn spec_ticked(status: StatusEffect) -> StatusEffect {
    if status.kind == EffectKind::GuaranteeCrit {
        status
    } else {
        StatusEffect {
            turns_remaining: if status.turns_remaining > 0 {
                (status.turns_remaining - 1) as u8
            } else {
                0
            },
            ..status
        }
    }
}

/// Whether a ticked status survives the tick.
pub open spec fn spec_survives(status: StatusEffect) -> bool {
    status.kind == EffectKind::GuaranteeCrit || status.turns_remaining > 0
}

/// The statuses left after one tick, in their initial order.
pub open spec fn spec_tick_statuses(statuses: Seq<StatusEffect>) -> Seq<StatusEffect>
    decreases statuses.len(),
{
    if statuses.len() == 0 {
        statuses
    } else {
        let rest = spec_tick_statuses(statuses.drop_last());
        let ticked = spec_ticked(statuses.last());
        if spec_survives(ticked) {
            rest.push(ticked)
        } else {
            rest
        }
    }
}

/// The records of one tick: every duration status, in order, as expired or ticked.
pub open spec fn spec_tick_records(statuses: Seq<StatusEffect>, id: Seq<char>) -> Seq<
    (Seq<char>, EffectKind, StatusTransition),
>
    decreases statuses.len(),
{
    if statuses.len() == 0 {
        Seq::empty()
    } else {
        let rest = spec_tick_records(statuses.drop_last(), id);
        let ticked = spec_ticked(statuses.last());
        if ticked.kind == EffectKind::GuaranteeCrit {
            rest
        } else if ticked.turns_remaining == 0 {
            rest.push((id, ticked.kind, StatusTransition::Expired))
        } else {
            rest.push(
                (
                    id,
                    ticked.kind,
                    StatusTransition::Ticked { turns_remaining: ticked.turns_remaining },
                ),
            )
        }
    }
}

/// The record one duration status leaves at a turn boundary: expired with at most one turn
/// left, otherwise ticked down by one.
pub open spec fn spec_tick_record(status: StatusEffect, id: Seq<char>) -> (
    Seq<char>,
    EffectKind,
    StatusTransition,
) {
    (
        id,
        status.kind,
        if status.turns_remaining <= 1 {
            StatusTransition::Expired
        } else {
            StatusTransition::Ticked { turns_remaining: (status.turns_remaining - 1) as u8 }
        },
    )
}

/// Statuses counted by turns rather than by charges.
pub open spec fn spec_is_duration(status: StatusEffect) -> bool {
    status.kind != EffectKind::GuaranteeCrit
}

/// The records of a tick in list form: one per status other than the count-based
/// `GuaranteeCrit`, in list order, each expired (at most one turn left) or ticked down by one.
pub proof fn lemma_tick_records_list_form(statuses: Seq<StatusEffect>, id: Seq<char>)
    ensures
        spec_tick_records(statuses, id) == statuses.filter(
            |status: StatusEffect| spec_is_duration(status),
        ).map_values(|status: StatusEffect| spec_tick_record(status, id)),
    decreases statuses.len(),
{
    reveal(Seq::filter);
    if statuses.len() > 0 {
        let prefix = statuses.drop_last();
        lemma_tick_records_list_form(prefix, id);
        let last = statuses.last();
        let kept = prefix.filter(|status: StatusEffect| spec_is_duration(status));
        assert(statuses.filter(|status: StatusEffect| spec_is_duration(status)) == if spec_is_duration(
            last,
        ) {
            kept.push(last)
        } else {
            kept
        });
        assert(kept.push(last).map_values(|status: StatusEffect| spec_tick_record(status, id))
            =~= kept.map_values(|status: StatusEffect| spec_tick_record(status, id)).push(
            spec_tick_record(last, id),
        ));
    }
}

/// The statuses left by a tick in list form: every status ticked, then those that reached
/// zero turns dropped (`GuaranteeCrit` is kept untouched).
pub proof fn lemma_tick_statuses_list_form(statuses: Seq<StatusEffect>)
    ensures
        spec_tick_statuses(statuses) == statuses.map_values(
            |status: StatusEffect| spec_ticked(status),
        ).filter(|status: StatusEffect| spec_survives(status)),
    decreases statuses.len(),
{
    reveal(Seq::filter);
    if statuses.len() > 0 {
        let prefix = statuses.drop_last();
        lemma_tick_statuses_list_form(prefix);
        let ticked = statuses.map_values(|status: StatusEffect| spec_ticked(status));
        assert(ticked.drop_last() =~= prefix.map_values(|status: StatusEffect| spec_ticked(status)));
        assert(ticked.last() == spec_ticked(statuses.last()));
    }
}

// ---------------------------------------------------------------------------------------
// Attaching and ticking
// ---------------------------------------------------------------------------------------

/// Stable insertion position of `status` in `sorted`.
fn insert_position(sorted: &Vec<StatusEffect>, status: StatusEffect) -> (position: usize)
    ensures
        position as int == spec_insert_position(sorted@, status),
        position <= sorted@.len(),
{
    let rank = status.kind.rank();
    let mut p: usize = 0;
    assert(sorted@.skip(0) =~= sorted@);
    while p < sorted.len() && sorted[p].kind.rank() <= rank
        invariant
            p <= sorted@.len(),
            rank == spec_kind_rank(status.kind),
            spec_insert_position(sorted@, status) == p + spec_insert_position(
                sorted@.skip(p as int),
                status,
            ),
        decreases sorted@.len() - p,
    {
        assert(sorted@.skip(p as int).drop_first() =~= sorted@.skip(p + 1));
        p = p + 1;
    }
    p
}

/// Stably sorts `statuses` by kind.
pub(crate) fn sort_by_kind(statuses: Vec<StatusEffect>) -> (sorted: Vec<StatusEffect>)
    ensures
        sorted@ == spec_sort_by_kind(statuses@),
{
    let mut sorted: Vec<StatusEffect> = Vec::new();
    let mut i: usize = 0;
    assert(statuses@.subrange(0, 0) =~= Seq::<StatusEffect>::empty());
    while i < statuses.len()
        invariant
            i <= statuses@.len(),
            sorted@ == spec_sort_by_kind(statuses@.subrange(0, i as int)),
        decreases statuses@.len() - i,
    {
        let status = statuses[i];
        let position = insert_position(&sorted, status);
        sorted.insert(position, status);
        assert(statuses@.subrange(0, i + 1).drop_last() =~= statuses@.subrange(0, i as int));
        i = i + 1;
    }
    assert(statuses@.subrange(0, statuses@.len() as int) =~= statuses@);
    sorted
}

/// Index of the first status of `kind` in `statuses`.
pub(crate) fn first_of_kind(statuses: &Vec<StatusEffect>, kind: EffectKind) -> (index: Option<usize>)
    ensures
        index matches Some(k) ==> spec_first_of_kind(statuses@, kind) == Some(k as int) && k
            < statuses@.len(),
        index is None ==> spec_first_of_kind(statuses@, kind) is None,
{
    proof {
        lemma_first_of_kind(statuses@, kind);
    }
    let mut k: usize = 0;
    while k < statuses.len()
        invariant
            k <= statuses@.len(),
            forall|j: int| 0 <= j < k ==> (#[trigger] statuses@[j]).kind != kind,
            spec_first_of_kind(statuses@, kind) matches Some(f) ==> k <= f < statuses@.len()
                && statuses@[f].kind == kind && forall|j: int|
                0 <= j < f ==> (#[trigger] statuses@[j]).kind != kind,
            spec_first_of_kind(statuses@, kind) is None ==> forall|j: int|
                0 <= j < statuses@.len() ==> (#[trigger] statuses@[j]).kind != kind,
        decreases statuses@.len() - k,
    {
        if statuses[k].kind == kind {
            return Some(k);
        }
        k = k + 1;
    }
    None
}

/// `spec_first_of_kind` finds the first status of a kind, and `None` only when none has it.
proof fn lemma_first_of_kind(statuses: Seq<StatusEffect>, kind: EffectKind)
    ensures
        spec_first_of_kind(statuses, kind) matches Some(i) ==> 0 <= i < statuses.len()
            && statuses[i].kind == kind && forall|j: int|
            0 <= j < i ==> (#[trigger] statuses[j]).kind != kind,
        spec_first_of_kind(statuses, kind) is None ==> forall|j: int|
            0 <= j < statuses.len() ==> (#[trigger] statuses[j]).kind != kind,
    decreases statuses.len(),
{
    if statuses.len() > 0 {
        let prefix = statuses.drop_last();
        lemma_first_of_kind(prefix, kind);
        assert forall|j: int| 0 <= j < prefix.len() implies prefix[j] == statuses[j] by {}
    }
}

/// Attaches `status` to `player` by the refresh-not-stack rule and records the transition.
fn apply_status(player: &mut PlayerState, status: StatusEffect, changes: &mut Vec<StatusChange>)
    ensures
        spec_with_statuses(
            *final(player),
            *old(player),
            spec_apply_status(old(player).statuses@, status),
        ),
        spec_change_views(final(changes)@) == spec_change_views(old(changes)@).push(
            (old(player).id@, status.kind, spec_apply_transition(old(player).statuses@, status)),
        ),
{
    let ghost before = player.statuses@;
    let mut staged: Vec<StatusEffect> = player.statuses.clone();
    assert(staged@ == before);
    let transition = match first_of_kind(&staged, status.kind) {
        Some(k) => {
            let existing = staged[k];
            staged.set(k, status);
            StatusTransition::Refreshed {
                magnitude: status.magnitude,
                turns_remaining: status.turns_remaining,
                replaced_magnitude: existing.magnitude,
                replaced_turns_remaining: existing.turns_remaining,
            }
        },
        None => {
            staged.push(status);
            StatusTransition::Applied {
                magnitude: status.magnitude,
                turns_remaining: status.turns_remaining,
            }
        },
    };
    let ghost old_changes = changes@;
    changes.push(StatusChange { player_id: player.id.clone(), kind: status.kind, transition });
    assert(spec_change_views(changes@) =~= spec_change_views(old_changes).push(
        (player.id@, status.kind, transition),
    ));
    player.statuses = sort_by_kind(staged);
}

/// Ticks the statuses of `player_id` one turn: duration statuses lose a turn and those that
/// reach zero are removed; count-based `GuaranteeCrit` is untouched. Other players are not
/// touched. Returns one record per duration status, in list order: expired or ticked.
///
/// An unknown player is a no-op with no records.
pub fn tick_statuses(state: &mut SimulationState, player_id: &str) -> (changes: Vec<StatusChange>)
    ensures
        spec_find_player(old(state).players@, player_id@) is None ==> changes@.len() == 0
            && *final(state) == *old(state),
        spec_find_player(old(state).players@, player_id@) matches Some(i) ==> {
            let player = old(state).players@[i];
            &&& final(state).players@.len() == old(state).players@.len()
            &&& spec_with_statuses(
                final(state).players@[i],
                player,
                spec_tick_statuses(player.statuses@),
            )
            &&& forall|j: int|
                0 <= j < old(state).players@.len() && j != i ==> final(state).players@[j]
                    == old(state).players@[j]
            &&& spec_change_views(changes@) == spec_tick_records(player.statuses@, player.id@)
            &&& *final(state) == (SimulationState { players: final(state).players, ..*old(state) })
        },
{
    let mut changes: Vec<StatusChange> = Vec::new();
    let index = match state.player_index(player_id) {
        Some(index) => index,
        None => {
            return changes;
        },
    };
    let ghost player = state.players@[index as int];
    let statuses = state.players[index].statuses.clone();
    let id = state.players[index].id.clone();
    let mut kept: Vec<StatusEffect> = Vec::new();
    let mut k: usize = 0;
    assert(statuses@.subrange(0, 0) =~= Seq::<StatusEffect>::empty());
    while k < statuses.len()
        invariant
            k <= statuses@.len(),
            statuses@ == player.statuses@,
            id@ == player.id@,
            kept@ == spec_tick_statuses(statuses@.subrange(0, k as int)),
            spec_change_views(changes@) == spec_tick_records(
                statuses@.subrange(0, k as int),
                player.id@,
            ),
        decreases statuses@.len() - k,
    {
        let status = statuses[k];
        assert(statuses@.subrange(0, k + 1).drop_last() =~= statuses@.subrange(0, k as int));
        assert(statuses@.subrange(0, k + 1).last() == status);
        let ghost old_changes = changes@;
        if status.kind == EffectKind::GuaranteeCrit {
            kept.push(status);
        } else {
            let turns: u8 = if status.turns_remaining > 0 {
                status.turns_remaining - 1
            } else {
                0
            };
            let ticked = StatusEffect { turns_remaining: turns, ..status };
            if turns == 0 {
                changes.push(
                    StatusChange {
                        player_id: id.clone(),
                        kind: status.kind,
                        transition: StatusTransition::Expired,
                    },
                );
            } else {
                changes.push(
                    StatusChange {
                        player_id: id.clone(),
                        kind: status.kind,
                        transition: StatusTransition::Ticked { turns_remaining: turns },
                    },
                );
                kept.push(ticked);
            }
            assert(spec_change_views(changes@) =~= spec_change_views(old_changes).push(
                spec_change_view(changes@.last()),
            ));
        }
        k = k + 1;
    }
    assert(statuses@.subrange(0, statuses@.len() as int) =~= statuses@);
    state.players[index].statuses = kept;
    changes
}

// ---------------------------------------------------------------------------------------
// Resolvers
// ---------------------------------------------------------------------------------------

/// The status an effect of `kind` attaches.
pub open spec fn spec_effect_status(effect: SpecialEffect, kind: EffectKind) -> StatusEffect {
    StatusEffect { kind, magnitude: effect.magnitude, turns_remaining: effect.duration_turns }
}

/// `after` is `before` with only the roster and the status records changed.
pub open spec fn spec_same_but_statuses(after: ResolveContext, before: ResolveContext) -> bool {
    after == ResolveContext {
        state: SimulationState { players: after.state.players, ..before.state },
        status_changes: after.status_changes,
        ..before
    }
}

/// The outcome of attaching `status` to the primary target: an error, changing nothing,
/// when there is no target (`missing`) or it does not name a living player; otherwise the
/// target alone gains the status and one record is appended.
pub open spec fn spec_targeted_outcome(
    before: ResolveContext,
    after: ResolveContext,
    status: StatusEffect,
    missing: &'static str,
    result: SimResult<()>,
) -> bool {
    match before.primary_target_id {
        None => result == Err::<(), SimError>(SimError::OutOfRange { field: missing }) && after
            == before,
        Some(target) => match spec_find_player(before.state.players@, target@) {
            None => result == Err::<(), SimError>(SimError::UnknownDefinition) && after == before,
            Some(i) => if before.state.players@[i].health == 0 {
                result == Err::<(), SimError>(SimError::UnknownDefinition) && after == before
            } else {
                let player = before.state.players@[i];
                &&& result == Ok::<(), SimError>(())
                &&& after.state.players@.len() == before.state.players@.len()
                &&& spec_with_statuses(
                    after.state.players@[i],
                    player,
                    spec_apply_status(player.statuses@, status),
                )
                &&& forall|j: int|
                    0 <= j < before.state.players@.len() && j != i ==> after.state.players@[j]
                        == before.state.players@[j]
                &&& spec_change_views(after.status_changes@) == spec_change_views(
                    before.status_changes@,
                ).push((player.id@, status.kind, spec_apply_transition(player.statuses@, status)))
                &&& spec_same_but_statuses(after, before)
            },
        },
    }
}

/// Whether Embers centred on `impact` with `radius` touches `player`: living and within
/// the radius, boundary inclusive.
pub open spec fn spec_embers_touches(player: PlayerState, impact: FixedPoint, radius: i32) -> bool {
    player.health != 0 && spec_within_radius(player.position, impact, radius as int)
}

/// The records Embers produces over the first `n` roster entries.
pub open spec fn spec_embers_records(
    players: Seq<PlayerState>,
    impact: FixedPoint,
    radius: i32,
    status: StatusEffect,
    n: int,
) -> Seq<(Seq<char>, EffectKind, StatusTransition)>
    decreases n,
{
    if n <= 0 {
        Seq::empty()
    } else {
        let rest = spec_embers_records(players, impact, radius, status, n - 1);
        let player = players[n - 1];
        if spec_embers_touches(player, impact, radius) {
            rest.push((player.id@, status.kind, spec_apply_transition(player.statuses@, status)))
        } else {
            rest
        }
    }
}

/// The outcome of Embers: every touched player gains the status, in roster order; nobody
/// else changes.
pub open spec fn spec_embers_outcome(
    before: ResolveContext,
    after: ResolveContext,
    effect: SpecialEffect,
) -> bool {
    let status = spec_effect_status(effect, EffectKind::Embers);
    let players = before.state.players@;
    &&& after.state.players@.len() == players.len()
    &&& forall|j: int|
        0 <= j < players.len() ==> if spec_embers_touches(
            #[trigger] players[j],
            before.impact_point,
            effect.magnitude_secondary,
        ) {
            spec_with_statuses(
                after.state.players@[j],
                players[j],
                spec_apply_status(players[j].statuses@, status),
            )
        } else {
            after.state.players@[j] == players[j]
        }
    &&& spec_change_views(after.status_changes@) == spec_change_views(before.status_changes@)
        + spec_embers_records(
        players,
        before.impact_point,
        effect.magnitude_secondary,
        status,
        players.len() as int,
    )
    &&& spec_same_but_statuses(after, before)
}

/// What [`resolve`] does with `effect` in `before`: the context it leaves and the result.
pub open spec fn spec_resolve_outcome(
    before: ResolveContext,
    after: ResolveContext,
    effect: SpecialEffect,
    result: SimResult<()>,
) -> bool {
    &&& (effect.kind == EffectKind::Chill ==> spec_targeted_outcome(
            before,
            after,
            spec_effect_status(effect, EffectKind::Chill),
            "chill.primary_target_id",
            result
        ))
    &&& (effect.kind == EffectKind::Lockdown ==> spec_targeted_outcome(
            before,
            after,
            spec_effect_status(effect, EffectKind::Lockdown),
            "lockdown.primary_target_id",
            result
        ))
    &&& (effect.kind == EffectKind::Embers ==> result == Ok::<(), SimError>(()) && spec_embers_outcome(
            before,
            after,
            effect
        ))
    &&& (!(effect.kind == EffectKind::Chill || effect.kind == EffectKind::Lockdown || effect.kind
            == EffectKind::Embers) ==> result == Err::<(), SimError>(
            SimError::OutOfRange { field: "effect.kind (not a status-family effect)" }
        ) && after == before)
}

/// Resolves a status-family effect: Chill or Lockdown on the primary target, or Embers
/// around the impact point. Any other kind is refused.
pub fn resolve(ctx: &mut ResolveContext, effect: &SpecialEffect) -> (result: SimResult<()>)
    ensures
        spec_resolve_outcome(*old(ctx), *final(ctx), *effect, result),
{
    match effect.kind {
        EffectKind::Chill => resolve_chill(ctx, effect),
        EffectKind::Lockdown => resolve_lockdown(ctx, effect),
        EffectKind::Embers => resolve_embers(ctx, effect),
        _ => Err(SimError::OutOfRange { field: "effect.kind (not a status-family effect)" }),
    }
}

/// Chill: reduces the victim's next-turn movement cap; `magnitude` and `duration_turns` are
/// copied from the effect as authored.
fn resolve_chill(ctx: &mut ResolveContext, effect: &SpecialEffect) -> (result: SimResult<()>)
    ensures
        spec_targeted_outcome(
            *old(ctx),
            *final(ctx),
            spec_effect_status(*effect, EffectKind::Chill),
            "chill.primary_target_id",
            result,
        ),
{
    resolve_targeted(
        ctx,
        StatusEffect {
            kind: EffectKind::Chill,
            magnitude: effect.magnitude,
            turns_remaining: effect.duration_turns,
        },
        "chill.primary_target_id",
    )
}

/// Lockdown: locks a character in place for `duration_turns` turns.
fn resolve_lockdown(ctx: &mut ResolveContext, effect: &SpecialEffect) -> (result: SimResult<()>)
    ensures
        spec_targeted_outcome(
            *old(ctx),
            *final(ctx),
            spec_effect_status(*effect, EffectKind::Lockdown),
            "lockdown.primary_target_id",
            result,
        ),
{
    resolve_targeted(
        ctx,
        StatusEffect {
            kind: EffectKind::Lockdown,
            magnitude: effect.magnitude,
            turns_remaining: effect.duration_turns,
        },
        "lockdown.primary_target_id",
    )
}

/// Chill and Lockdown: attaches `status` to the primary target.
fn resolve_targeted(ctx: &mut ResolveContext, status: StatusEffect, missing: &'static str) -> (result:
    SimResult<()>)
    ensures
        spec_targeted_outcome(*old(ctx), *final(ctx), status, missing, result),
{
    let index = match &ctx.primary_target_id {
        None => {
            return Err(SimError::OutOfRange { field: missing });
        },
        Some(target) => match ctx.state.player_index(target.as_str()) {
            None => {
                return Err(SimError::UnknownDefinition);
            },
            Some(index) => index,
        },
    };
    if ctx.state.players[index].is_eliminated() {
        return Err(SimError::UnknownDefinition);
    }
    apply_status(&mut ctx.state.players[index], status, &mut ctx.status_changes);
    Ok(())
}

/// Embers: marks every living player within `effect.magnitude_secondary` of the impact
/// point with an Embers status carrying `effect.magnitude` for `effect.duration_turns`.
fn resolve_embers(ctx: &mut ResolveContext, effect: &SpecialEffect) -> (result: SimResult<()>)
    ensures
        result == Ok::<(), SimError>(()),
        spec_embers_outcome(*old(ctx), *final(ctx), *effect),
{
    let status = StatusEffect {
        kind: EffectKind::Embers,
        magnitude: effect.magnitude,
        turns_remaining: effect.duration_turns,
    };
    let impact = ctx.impact_point;
    let radius = effect.magnitude_secondary;
    let ghost before = *ctx;
    let n = ctx.state.players.len();
    let mut i: usize = 0;
    while i < n
        invariant
            i <= n,
            n == before.state.players@.len(),
            ctx.state.players@.len() == n,
            impact == before.impact_point,
            status == spec_effect_status(*effect, EffectKind::Embers),
            radius == effect.magnitude_secondary,
            forall|j: int|
                0 <= j < i ==> if spec_embers_touches(
                    #[trigger] before.state.players@[j],
                    impact,
                    radius,
                ) {
                    spec_with_statuses(
                        ctx.state.players@[j],
                        before.state.players@[j],
                        spec_apply_status(before.state.players@[j].statuses@, status),
                    )
                } else {
                    ctx.state.players@[j] == before.state.players@[j]
                },
            forall|j: int| i <= j < n ==> ctx.state.players@[j] == before.state.players@[j],
            spec_change_views(ctx.status_changes@) == spec_change_views(before.status_changes@)
                + spec_embers_records(before.state.players@, impact, radius, status, i as int),
            spec_same_but_statuses(*ctx, before),
        decreases n - i,
    {
        let touched = !ctx.state.players[i].is_eliminated() && within_radius(
            ctx.state.players[i].position,
            impact,
            radius,
        );
        let ghost changes_before = ctx.status_changes@;
        if touched {
            apply_status(&mut ctx.state.players[i], status, &mut ctx.status_changes);
            assert(spec_change_views(ctx.status_changes@) =~= spec_change_views(
                before.status_changes@,
            ) + spec_embers_records(before.state.players@, impact, radius, status, i + 1));
        }
        i = i + 1;
    }
    Ok(())
}

// ---------------------------------------------------------------------------------------
// Laws
// ---------------------------------------------------------------------------------------

/// Facts about the stable insertion position in a list sorted by kind.
proof fn lemma_insert_position(sorted: Seq<StatusEffect>, status: StatusEffect)
    requires
        spec_sorted_by_kind(sorted),
    ensures
        0 <= spec_insert_position(sorted, status) <= sorted.len(),
        forall|k: int|
            0 <= k < spec_insert_position(sorted, status) ==> spec_kind_rank(
                (#[trigger] sorted[k]).kind,
            ) <= spec_kind_rank(status.kind),
        forall|k: int|
            spec_insert_position(sorted, status) <= k < sorted.len() ==> spec_kind_rank(
                (#[trigger] sorted[k]).kind,
            ) > spec_kind_rank(status.kind),
    decreases sorted.len(),
{
    if sorted.len() > 0 {
        let rest = sorted.drop_first();
        assert forall|i: int, j: int| 0 <= i < j < rest.len() implies spec_kind_rank(
            (#[trigger] rest[i]).kind,
        ) <= spec_kind_rank((#[trigger] rest[j]).kind) by {
            assert(rest[i] == sorted[i + 1] && rest[j] == sorted[j + 1]);
        }
        lemma_insert_position(rest, status);
        if spec_kind_rank(sorted[0].kind) <= spec_kind_rank(status.kind) {
            assert forall|k: int| 1 <= k < sorted.len() implies sorted[k] == rest[k - 1] by {}
        } else {
            assert forall|k: int| 0 <= k < sorted.len() implies spec_kind_rank(
                (#[trigger] sorted[k]).kind,
            ) > spec_kind_rank(status.kind) by {
                if k > 0 {
                    assert(spec_kind_rank(sorted[0].kind) <= spec_kind_rank(sorted[k].kind));
                }
            }
        }
    }
}

/// The stable sort by kind yields a list sorted by kind, of the same length.
pub proof fn lemma_sort_by_kind_sorted(statuses: Seq<StatusEffect>)
    ensures
        spec_sorted_by_kind(spec_sort_by_kind(statuses)),
        spec_sort_by_kind(statuses).len() == statuses.len(),
    decreases statuses.len(),
{
    if statuses.len() > 0 {
        let rest = spec_sort_by_kind(statuses.drop_last());
        lemma_sort_by_kind_sorted(statuses.drop_last());
        let x = statuses.last();
        lemma_insert_position(rest, x);
        let p = spec_insert_position(rest, x);
        let out = rest.insert(p, x);
        assert forall|i: int, j: int| 0 <= i < j < out.len() implies spec_kind_rank(
            (#[trigger] out[i]).kind,
        ) <= spec_kind_rank((#[trigger] out[j]).kind) by {
            if j < p {
                assert(out[i] == rest[i] && out[j] == rest[j]);
            } else if j == p {
                assert(out[i] == rest[i]);
            } else if i < p {
                assert(out[i] == rest[i] && out[j] == rest[j - 1]);
            } else if i == p {
                assert(out[j] == rest[j - 1]);
            } else {
                assert(out[i] == rest[i - 1] && out[j] == rest[j - 1]);
            }
        }
    }
}

/// The stable sort by kind reorders and never adds or drops a status.
pub proof fn lemma_sort_by_kind_permutes(statuses: Seq<StatusEffect>)
    ensures
        spec_sort_by_kind(statuses).to_multiset() == statuses.to_multiset(),
    decreases statuses.len(),
{
    if statuses.len() > 0 {
        let prefix = statuses.drop_last();
        lemma_sort_by_kind_permutes(prefix);
        let rest = spec_sort_by_kind(prefix);
        lemma_sort_by_kind_sorted(prefix);
        lemma_insert_position(rest, statuses.last());
        vstd::seq_lib::to_multiset_insert(rest, spec_insert_position(rest, statuses.last()), statuses.last());
        vstd::seq_lib::to_multiset_build(prefix, statuses.last());
        assert(prefix.push(statuses.last()) =~= statuses);
    }
}

/// Reapplying a status replaces it and never sums it, whatever order the list is in: on
/// any list holding at most one status of `status.kind`, attaching `status` yields a list
/// sorted by kind whose only status of that kind is `status`, and which holds exactly the
/// old statuses with the old one of that kind (if any) replaced by `status`.
pub proof fn lemma_apply_status_replaces(statuses: Seq<StatusEffect>, status: StatusEffect)
    requires
        forall|i: int, j: int|
            0 <= i < j < statuses.len() && (#[trigger] statuses[i]).kind == status.kind
                ==> (#[trigger] statuses[j]).kind != status.kind,
    ensures
        ({
            let after = spec_apply_status(statuses, status);
            &&& spec_sorted_by_kind(after)
            &&& after.contains(status)
            &&& forall|j: int|
                0 <= j < after.len() && (#[trigger] after[j]).kind == status.kind ==> after[j]
                    == status
            &&& after.to_multiset() == match spec_first_of_kind(statuses, status.kind) {
                Some(k) => statuses.to_multiset().remove(statuses[k]).insert(status),
                None => statuses.to_multiset().insert(status),
            }
        }),
{
    lemma_first_of_kind(statuses, status.kind);
    let source = match spec_first_of_kind(statuses, status.kind) {
        Some(k) => statuses.update(k, status),
        None => statuses.push(status),
    };
    let after = spec_sort_by_kind(source);
    lemma_sort_by_kind_sorted(source);
    lemma_sort_by_kind_permutes(source);
    match spec_first_of_kind(statuses, status.kind) {
        Some(k) => {
            vstd::seq_lib::to_multiset_update(statuses, k, status);
            assert(source[k] == status);
        },
        None => {
            vstd::seq_lib::to_multiset_build(statuses, status);
            assert(source[statuses.len() as int] == status);
        },
    }
    assert forall|j: int|
        0 <= j < after.len() && (#[trigger] after[j]).kind == status.kind implies after[j]
        == status by {
        vstd::seq_lib::to_multiset_contains(after, after[j]);
        vstd::seq_lib::to_multiset_contains(source, after[j]);
        assert(after.contains(after[j]));
        let i = choose|i: int| 0 <= i < source.len() && source[i] == after[j];
        match spec_first_of_kind(statuses, status.kind) {
            Some(k) => {
                if i != k {
                    assert(source[i] == statuses[i]);
                    if i < k {
                        assert(statuses[i].kind != status.kind);
                    } else {
                        assert(statuses[k].kind == status.kind);
                    }
                }
            },
            None => {
                if i < statuses.len() {
                    assert(source[i] == statuses[i]);
                }
            },
        }
    }
    let at = match spec_first_of_kind(statuses, status.kind) {
        Some(k) => k,
        None => statuses.len() as int,
    };
    assert(source.contains(status)) by {
        assert(source[at] == status);
    }
    vstd::seq_lib::to_multiset_contains(source, status);
    vstd::seq_lib::to_multiset_contains(after, status);
}

/// Sorting a list that is already strictly sorted by kind changes nothing.
proof fn lemma_sort_canonical_identity(statuses: Seq<StatusEffect>)
    requires
        spec_canonical_statuses(statuses),
    ensures
        spec_sort_by_kind(statuses) == statuses,
    decreases statuses.len(),
{
    if statuses.len() > 0 {
        let prefix = statuses.drop_last();
        assert forall|i: int, j: int| 0 <= i < j < prefix.len() implies spec_kind_rank(
            (#[trigger] prefix[i]).kind,
        ) < spec_kind_rank((#[trigger] prefix[j]).kind) by {
            assert(prefix[i] == statuses[i] && prefix[j] == statuses[j]);
        }
        lemma_sort_canonical_identity(prefix);
        lemma_insert_position(prefix, statuses.last());
        let p = spec_insert_position(prefix, statuses.last());
        if p < prefix.len() {
            assert(prefix[p] == statuses[p]);
            assert(spec_kind_rank(statuses[p].kind) < spec_kind_rank(
                statuses[statuses.len() - 1].kind,
            ));
        }
        assert(prefix.insert(prefix.len() as int, statuses.last()) =~= statuses);
    }
}

/// Reapplying a status refreshes it rather than stacking it: on a list strictly sorted by
/// kind, attaching `status` yields a list still strictly sorted by kind that holds `status`
/// as its only entry of that kind, keeps every status of another kind, and grows by one
/// only when the kind was absent.
#[verifier::spinoff_prover]
#[verifier::rlimit(40)]
pub proof fn lemma_apply_status_refreshes(statuses: Seq<StatusEffect>, status: StatusEffect)
    requires
        spec_canonical_statuses(statuses),
    ensures
        ({
            let after = spec_apply_status(statuses, status);
            &&& spec_canonical_statuses(after)
            &&& after.contains(status)
            &&& forall|j: int|
                0 <= j < after.len() && (#[trigger] after[j]).kind == status.kind ==> after[j]
                    == status
            &&& forall|j: int|
                0 <= j < statuses.len() && (#[trigger] statuses[j]).kind != status.kind
                    ==> after.contains(statuses[j])
            &&& after.len() == statuses.len() + (if spec_first_of_kind(statuses, status.kind) is Some {
                0int
            } else {
                1int
            })
        }),
{
    lemma_first_of_kind(statuses, status.kind);
    crate::types::lemma_kind_rank_injective(status.kind, status.kind);
    match spec_first_of_kind(statuses, status.kind) {
        Some(k) => {
            let updated = statuses.update(k, status);
            assert forall|i: int, j: int| 0 <= i < j < updated.len() implies spec_kind_rank(
                (#[trigger] updated[i]).kind,
            ) < spec_kind_rank((#[trigger] updated[j]).kind) by {
                assert(statuses[i].kind == updated[i].kind);
                assert(statuses[j].kind == updated[j].kind);
            }
            lemma_sort_canonical_identity(updated);
            assert(updated[k] == status);
            assert forall|j: int|
                0 <= j < updated.len() && (#[trigger] updated[j]).kind == status.kind implies
                updated[j] == status by {
                if j != k {
                    crate::types::lemma_kind_rank_injective(updated[j].kind, updated[k].kind);
                    if j < k {
                        assert(spec_kind_rank(updated[j].kind) < spec_kind_rank(updated[k].kind));
                    } else {
                        assert(spec_kind_rank(updated[k].kind) < spec_kind_rank(updated[j].kind));
                    }
                }
            }
            assert forall|j: int|
                0 <= j < statuses.len() && (#[trigger] statuses[j]).kind != status.kind implies
                updated.contains(statuses[j]) by {
                assert(updated[j] == statuses[j]);
            }
        },
        None => {
            let pushed = statuses.push(status);
            lemma_sort_canonical_identity(statuses);
            assert(pushed.drop_last() =~= statuses);
            lemma_insert_position(statuses, status);
            let p = spec_insert_position(statuses, status);
            let after = statuses.insert(p, status);
            assert(after[p] == status);
            assert forall|j: int| 0 <= j < statuses.len() implies spec_kind_rank(
                (#[trigger] statuses[j]).kind,
            ) != spec_kind_rank(status.kind) by {
                crate::types::lemma_kind_rank_injective(statuses[j].kind, status.kind);
            }
            assert forall|i: int, j: int| 0 <= i < j < after.len() implies spec_kind_rank(
                (#[trigger] after[i]).kind,
            ) < spec_kind_rank((#[trigger] after[j]).kind) by {
                if j < p {
                    assert(after[i] == statuses[i] && after[j] == statuses[j]);
                } else if j == p {
                    assert(after[i] == statuses[i]);
                } else if i < p {
                    assert(after[i] == statuses[i] && after[j] == statuses[j - 1]);
                } else if i == p {
                    assert(after[j] == statuses[j - 1]);
                } else {
                    assert(after[i] == statuses[i - 1] && after[j] == statuses[j - 1]);
                }
            }
            assert forall|j: int|
                0 <= j < after.len() && (#[trigger] after[j]).kind == status.kind implies after[j]
                == status by {
                if j < p {
                    assert(after[j] == statuses[j]);
                } else if j > p {
                    assert(after[j] == statuses[j - 1]);
                }
            }
            assert forall|j: int|
                0 <= j < statuses.len() && (#[trigger] statuses[j]).kind != status.kind implies
                after.contains(statuses[j]) by {
                if j < p {
                    assert(after[j] == statuses[j]);
                } else {
                    assert(after[j + 1] == statuses[j]);
                }
            }
        },
    }
}

/// Every status left by a tick keeps the kind of one of the statuses it came from, and a
/// tick never reorders.
proof fn lemma_tick_kinds(statuses: Seq<StatusEffect>)
    ensures
        spec_tick_statuses(statuses).len() <= statuses.len(),
        forall|e: int|
            0 <= e < spec_tick_statuses(statuses).len() ==> exists|j: int|
                0 <= j < statuses.len() && (#[trigger] spec_tick_statuses(statuses)[e]).kind
                    == statuses[j].kind,
    decreases statuses.len(),
{
    if statuses.len() > 0 {
        let prefix = statuses.drop_last();
        lemma_tick_kinds(prefix);
        let rest = spec_tick_statuses(prefix);
        assert forall|e: int| 0 <= e < rest.len() implies exists|j: int|
            0 <= j < statuses.len() && (#[trigger] rest[e]).kind == statuses[j].kind by {
            let j = choose|j: int| 0 <= j < prefix.len() && rest[e].kind == prefix[j].kind;
            assert(prefix[j] == statuses[j]);
        }
        let out = spec_tick_statuses(statuses);
        assert forall|e: int| 0 <= e < out.len() implies exists|j: int|
            0 <= j < statuses.len() && (#[trigger] out[e]).kind == statuses[j].kind by {
            if e < rest.len() {
                assert(out[e] == rest[e]);
            } else {
                assert(out[e].kind == statuses[statuses.len() - 1].kind);
            }
        }
    }
}

/// A tick keeps a status list strictly sorted by kind.
#[verifier::rlimit(40)]
#[verifier::spinoff_prover]
pub proof fn lemma_tick_keeps_canonical(statuses: Seq<StatusEffect>)
    requires
        spec_canonical_statuses(statuses),
    ensures
        spec_canonical_statuses(spec_tick_statuses(statuses)),
    decreases statuses.len(),
{
    if statuses.len() > 0 {
        let prefix = statuses.drop_last();
        assert forall|i: int, j: int| 0 <= i < j < prefix.len() implies spec_kind_rank(
            (#[trigger] prefix[i]).kind,
        ) < spec_kind_rank((#[trigger] prefix[j]).kind) by {
            assert(prefix[i] == statuses[i] && prefix[j] == statuses[j]);
        }
        lemma_tick_keeps_canonical(prefix);
        lemma_tick_kinds(prefix);
        let rest = spec_tick_statuses(prefix);
        let out = spec_tick_statuses(statuses);
        let last = statuses.last();
        assert forall|i: int, j: int| 0 <= i < j < out.len() implies spec_kind_rank(
            (#[trigger] out[i]).kind,
        ) < spec_kind_rank((#[trigger] out[j]).kind) by {
            if j < rest.len() {
                assert(out[i] == rest[i] && out[j] == rest[j]);
            } else {
                assert(out[i] == rest[i]);
                let k = choose|k: int| 0 <= k < prefix.len() && rest[i].kind == prefix[k].kind;
                assert(prefix[k] == statuses[k]);
                assert(out[j].kind == last.kind);
            }
        }
    }
}

/// The statuses after `n` successive ticks.
pub open spec fn spec_tick_times(statuses: Seq<StatusEffect>, n: nat) -> Seq<StatusEffect>
    decreases n,
{
    if n == 0 {
        statuses
    } else {
        spec_tick_times(spec_tick_statuses(statuses), (n - 1) as nat)
    }
}

/// Whether `statuses` holds a status of `kind` with `turns` turns remaining.
pub open spec fn spec_has_status(statuses: Seq<StatusEffect>, kind: EffectKind, turns: int) -> bool {
    exists|i: int|
        0 <= i < statuses.len() && (#[trigger] statuses[i]).kind == kind && statuses[i].turns_remaining
            == turns
}

proof fn lemma_tick_step(statuses: Seq<StatusEffect>, kind: EffectKind, turns: int)
    requires
        kind != EffectKind::GuaranteeCrit,
    ensures
        spec_has_status(spec_tick_statuses(statuses), kind, turns) <==> (turns >= 1
            && spec_has_status(statuses, kind, turns + 1)),
    decreases statuses.len(),
{
    if statuses.len() > 0 {
        let prefix = statuses.drop_last();
        lemma_tick_step(prefix, kind, turns);
        let rest = spec_tick_statuses(prefix);
        let out = spec_tick_statuses(statuses);
        let last = statuses.last();
        let ticked = spec_ticked(last);
        if spec_has_status(out, kind, turns) {
            let i = choose|i: int|
                0 <= i < out.len() && (#[trigger] out[i]).kind == kind && out[i].turns_remaining
                    == turns;
            if i < rest.len() {
                assert(out[i] == rest[i]);
                assert(spec_has_status(rest, kind, turns));
                let k = choose|k: int|
                    0 <= k < prefix.len() && (#[trigger] prefix[k]).kind == kind
                        && prefix[k].turns_remaining == turns + 1;
                assert(statuses[k] == prefix[k]);
            } else {
                assert(out[i] == ticked);
                assert(statuses[statuses.len() - 1] == last);
            }
        }
        if turns >= 1 && spec_has_status(statuses, kind, turns + 1) {
            let k = choose|k: int|
                0 <= k < statuses.len() && (#[trigger] statuses[k]).kind == kind
                    && statuses[k].turns_remaining == turns + 1;
            if k < prefix.len() {
                assert(prefix[k] == statuses[k]);
                assert(spec_has_status(prefix, kind, turns + 1));
                let i = choose|i: int|
                    0 <= i < rest.len() && (#[trigger] rest[i]).kind == kind
                        && rest[i].turns_remaining == turns;
                assert(out[i] == rest[i]);
            } else {
                assert(spec_survives(ticked));
                assert(out[out.len() - 1] == ticked);
            }
        }
    }
}

proof fn lemma_tick_times_turns(statuses: Seq<StatusEffect>, kind: EffectKind, turns: int, n: nat)
    requires
        kind != EffectKind::GuaranteeCrit,
        n >= 1,
    ensures
        spec_has_status(spec_tick_times(statuses, n), kind, turns) <==> (turns >= 1
            && spec_has_status(statuses, kind, turns + n)),
    decreases n,
{
    let once = spec_tick_statuses(statuses);
    let m = (n - 1) as nat;
    assert(spec_tick_times(statuses, n) == spec_tick_times(once, m));
    if m == 0 {
        lemma_tick_step(statuses, kind, turns);
    } else {
        lemma_tick_times_turns(once, kind, turns, m);
        lemma_tick_step(statuses, kind, turns + m);
    }
}

/// A duration status survives exactly its stated number of turns: after `n >= 1` ticks a
/// status of `kind` is present, with `turns` left, exactly when the list held one of that
/// kind with `turns + n` left; so one stated for `n` turns has one turn left after `n - 1`
/// ticks, and once every status of that kind had at most `n` turns, none is left after `n`.
pub proof fn lemma_status_lasts_its_duration(
    statuses: Seq<StatusEffect>,
    kind: EffectKind,
    turns: int,
    n: nat,
)
    requires
        kind != EffectKind::GuaranteeCrit,
        n >= 1,
    ensures
        spec_has_status(spec_tick_times(statuses, n), kind, turns) <==> (turns >= 1
            && spec_has_status(statuses, kind, turns + n)),
        (forall|u: int| spec_has_status(statuses, kind, u) ==> u <= n) ==> (forall|u: int|
            !spec_has_status(spec_tick_times(statuses, n), kind, u)),
        spec_has_status(statuses, kind, n as int) ==> spec_has_status(
            spec_tick_times(statuses, (n - 1) as nat),
            kind,
            1,
        ),
{
    lemma_tick_times_turns(statuses, kind, turns, n);
    if forall|u: int| spec_has_status(statuses, kind, u) ==> u <= n {
        assert forall|u: int| !spec_has_status(spec_tick_times(statuses, n), kind, u) by {
            lemma_tick_times_turns(statuses, kind, u, n);
        }
    }
    if n >= 2 {
        lemma_tick_times_turns(statuses, kind, 1, (n - 1) as nat);
    }
}

} // verus!

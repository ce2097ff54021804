//! Persistent-object resolvers: SpawnTurret, EmbedProjectile and ChainDetonate.
//!
//! Emi's turret is capped at one per owner; Aleph's embedded knives are capped per owner
//! (the oldest is evicted) and detonate in chains, always in ascending creation order.

use crate::error::{SimError, SimResult};
use crate::fixed::{
    clamp_i64, round_divide, scale, spec_round_divide, spec_scale, spec_within_radius,
    within_radius, FixedPoint, POSITION_SCALE,
};
use crate::terrain::{self, spec_after_operation, spec_removed_count, MaterialMask, TerrainMask, TerrainOperation, TerrainShape};
use crate::types::{
    lemma_find_player, spec_find_player, DamageView, EffectKind, ObjectView, PersistentObject,
    PersistentObjectChange, PersistentObjectKind, PersistentObjectTransition, PlayerState,
    SimulationState, SpecialEffect, BASE_ATTACK,
};
use super::{spec_damage_views, spec_touch_entry, ResolveContext};
use vstd::prelude::*;

verus! {

/// Starting health of Emi's turret.
pub const EMI_TURRET_HEALTH: u16 = 80;

/// Nominal health of an embedded knife (knives leave play only by detonating or eviction).
pub const EMBEDDED_KNIFE_HEALTH: u16 = 1;

/// How close a landing knife must be to an embedded one to start a chain (1.5 body widths).
pub const KNIFE_CHAIN_TRIGGER_RADIUS: i32 = 6144;

// ---------------------------------------------------------------------------------------
// Object-list model
// ---------------------------------------------------------------------------------------

/// The views of an object list.
pub open spec fn spec_object_views(objects: Seq<PersistentObject>) -> Seq<ObjectView> {
    objects.map_values(|object: PersistentObject| object@)
}

/// The views of a list of object lifecycle records.
pub open spec fn spec_change_views(changes: Seq<PersistentObjectChange>) -> Seq<
    (ObjectView, PersistentObjectTransition),
> {
    changes.map_values(|change: PersistentObjectChange| change@)
}

/// Whether a removal pass drops `object`: turrets owned by `owner` when `turrets`, else
/// knives owned by `owner` carrying `sequence`.
pub open spec fn spec_drops(object: ObjectView, owner: Seq<char>, turrets: bool, sequence: u32) -> bool {
    if turrets {
        spec_is_owned_turret(object, owner)
    } else {
        spec_is_owned_knife(object, owner) && object.sequence == sequence
    }
}

/// `objects` without every object the removal pass drops, order kept.
pub open spec fn spec_without(objects: Seq<ObjectView>, owner: Seq<char>, turrets: bool, sequence: u32) -> Seq<
    ObjectView,
>
    decreases objects.len(),
{
    if objects.len() == 0 {
        objects
    } else {
        let rest = spec_without(objects.drop_last(), owner, turrets, sequence);
        if spec_drops(objects.last(), owner, turrets, sequence) {
            rest
        } else {
            rest.push(objects.last())
        }
    }
}

/// Whether `object` is a turret owned by `owner`.
pub open spec fn spec_is_owned_turret(object: ObjectView, owner: Seq<char>) -> bool {
    object.kind == PersistentObjectKind::Turret && object.owner_id == owner
}

/// Whether `object` is an embedded knife owned by `owner`.
pub open spec fn spec_is_owned_knife(object: ObjectView, owner: Seq<char>) -> bool {
    object.kind == PersistentObjectKind::EmbeddedKnife && object.owner_id == owner
}

/// How many of the first `n` objects are knives owned by `owner`.
pub open spec fn spec_owned_knife_count(objects: Seq<ObjectView>, owner: Seq<char>, n: int) -> nat
    decreases n,
{
    if n <= 0 {
        0
    } else {
        spec_owned_knife_count(objects, owner, n - 1) + if spec_is_owned_knife(
            objects[n - 1],
            owner,
        ) {
            1nat
        } else {
            0nat
        }
    }
}

/// The smallest sequence among the first `n` objects that are knives owned by `owner`.
pub open spec fn spec_oldest_owned_knife(objects: Seq<ObjectView>, owner: Seq<char>, n: int) -> Option<u32>
    decreases n,
{
    if n <= 0 {
        None
    } else {
        let rest = spec_oldest_owned_knife(objects, owner, n - 1);
        if spec_is_owned_knife(objects[n - 1], owner) {
            match rest {
                Some(sequence) => if objects[n - 1].sequence < sequence {
                    Some(objects[n - 1].sequence)
                } else {
                    Some(sequence)
                },
                None => Some(objects[n - 1].sequence),
            }
        } else {
            rest
        }
    }
}

/// The counter value after one saturating increment.
pub open spec fn spec_bump(counter: u32) -> u32 {
    if counter < u32::MAX {
        (counter + 1) as u32
    } else {
        counter
    }
}

/// `after` is `before` with only the object list, the object counter and the lifecycle
/// records changed.
pub open spec fn spec_same_but_objects(after: ResolveContext, before: ResolveContext) -> bool {
    after == ResolveContext {
        state: SimulationState {
            objects: after.state.objects,
            next_object_sequence: after.state.next_object_sequence,
            ..before.state
        },
        object_changes: after.object_changes,
        ..before
    }
}

/// The new object a spawn creates.
pub open spec fn spec_new_object(
    sequence: u32,
    owner: Seq<char>,
    kind: PersistentObjectKind,
    position: FixedPoint,
    health: u16,
    turns_remaining: u8,
) -> ObjectView {
    ObjectView { sequence, owner_id: owner, kind, position, health, turns_remaining }
}

/// The outcome of SpawnTurret: the actor's existing turrets are removed, then a new turret
/// takes the next object sequence at the impact point.
pub open spec fn spec_spawn_turret(before: ResolveContext, after: ResolveContext, effect: SpecialEffect) -> bool {
    let turret = spec_new_object(
        before.state.next_object_sequence,
        before.actor_id@,
        PersistentObjectKind::Turret,
        before.impact_point,
        EMI_TURRET_HEALTH,
        effect.duration_turns,
    );
    &&& spec_object_views(after.state.objects@) == spec_without(
        spec_object_views(before.state.objects@),
        before.actor_id@,
        true,
        0,
    ).push(turret)
    &&& after.state.next_object_sequence == spec_bump(before.state.next_object_sequence)
    &&& spec_change_views(after.object_changes@) == spec_change_views(before.object_changes@).push(
        (turret, PersistentObjectTransition::Spawned),
    )
    &&& spec_same_but_objects(after, before)
}

/// The outcome of EmbedProjectile with a positive cap: a knife is embedded at the impact
/// point; if the actor then owns more knives than the cap, their oldest knife is removed.
pub open spec fn spec_embed(before: ResolveContext, after: ResolveContext, effect: SpecialEffect) -> bool {
    let knife = spec_new_object(
        before.state.next_object_sequence,
        before.actor_id@,
        PersistentObjectKind::EmbeddedKnife,
        before.impact_point,
        EMBEDDED_KNIFE_HEALTH,
        effect.duration_turns,
    );
    let placed = spec_object_views(before.state.objects@).push(knife);
    let owner = before.actor_id@;
    &&& spec_object_views(after.state.objects@) == if spec_owned_knife_count(
        placed,
        owner,
        placed.len() as int,
    ) > effect.magnitude_secondary {
        match spec_oldest_owned_knife(placed, owner, placed.len() as int) {
            Some(oldest) => spec_without(placed, owner, false, oldest),
            None => placed,
        }
    } else {
        placed
    }
    &&& after.state.next_object_sequence == spec_bump(before.state.next_object_sequence)
    &&& spec_change_views(after.object_changes@) == spec_change_views(before.object_changes@).push(
        (knife, PersistentObjectTransition::Spawned),
    )
    &&& spec_same_but_objects(after, before)
}

// ---------------------------------------------------------------------------------------
// Object-list helpers
// ---------------------------------------------------------------------------------------

/// Removes, in place and in order, every object for which `drop` holds (turrets owned by
/// `owner` when `turrets`, else knives owned by `owner` with sequence `sequence`).
fn remove_objects(objects: &mut Vec<PersistentObject>, owner: &String, turrets: bool, sequence: u32)
    ensures
        spec_object_views(final(objects)@) == spec_without(
            spec_object_views(old(objects)@),
            owner@,
            turrets,
            sequence,
        ),
{
    let ghost initial = spec_object_views(objects@);
    let total = objects.len();
    let mut i: usize = 0;
    let mut processed: usize = 0;
    assert(initial.subrange(0, 0) =~= Seq::<ObjectView>::empty());
    assert(initial.skip(0) =~= initial);
    while processed < total
        invariant
            total == initial.len(),
            processed <= initial.len(),
            i <= objects@.len(),
            spec_object_views(objects@) == spec_without(initial.subrange(0, processed as int), owner@, turrets, sequence)
                + initial.skip(processed as int),
            spec_without(initial.subrange(0, processed as int), owner@, turrets, sequence).len() == i,
            objects@.len() == i + initial.len() - processed,
        decreases initial.len() - processed,
    {
        let ghost kept = spec_without(initial.subrange(0, processed as int), owner@, turrets, sequence);
        assert(initial.subrange(0, processed + 1).drop_last() =~= initial.subrange(
            0,
            processed as int,
        ));
        assert(spec_object_views(objects@)[i as int] == initial[processed as int]);
        let object = &objects[i];
        let matches = if turrets {
            object.kind == PersistentObjectKind::Turret && object.owner_id == *owner
        } else {
            object.kind == PersistentObjectKind::EmbeddedKnife && object.owner_id == *owner
                && object.sequence == sequence
        };
        assert(matches == spec_drops(initial[processed as int], owner@, turrets, sequence));
        assert(i < objects.len());
        if matches {
            let ghost before = objects@;
            objects.remove(i);
            assert(spec_object_views(objects@) =~= spec_object_views(before).remove(i as int));
            assert(initial.skip(processed as int).drop_first() =~= initial.skip(processed + 1));
            assert((kept + initial.skip(processed as int)).remove(i as int) =~= kept + initial.skip(
                processed + 1,
            ));
            assert(spec_object_views(objects@) =~= kept + initial.skip(processed + 1));
        } else {
            assert(spec_object_views(objects@) =~= kept.push(initial[processed as int])
                + initial.skip(processed + 1));
            i = i + 1;
        }
        processed = processed + 1;
    }
    assert(initial.subrange(0, initial.len() as int) =~= initial);
    assert(spec_object_views(objects@) =~= spec_without(initial, owner@, turrets, sequence));
}

/// Counts the knives owned by `owner` and finds the oldest one.
fn owned_knives(objects: &Vec<PersistentObject>, owner: &String) -> (found: (usize, Option<u32>))
    ensures
        found.0 as int == spec_owned_knife_count(
            spec_object_views(objects@),
            owner@,
            objects@.len() as int,
        ),
        found.1 == spec_oldest_owned_knife(spec_object_views(objects@), owner@, objects@.len() as int),
{
    let ghost views = spec_object_views(objects@);
    let mut count: usize = 0;
    let mut oldest: Option<u32> = None;
    let mut i: usize = 0;
    while i < objects.len()
        invariant
            i <= objects@.len(),
            views == spec_object_views(objects@),
            count as int == spec_owned_knife_count(views, owner@, i as int),
            count <= i,
            oldest == spec_oldest_owned_knife(views, owner@, i as int),
        decreases objects@.len() - i,
    {
        assert(views[i as int] == objects@[i as int]@);
        let object = &objects[i];
        if object.kind == PersistentObjectKind::EmbeddedKnife && object.owner_id == *owner {
            count = count + 1;
            oldest = match oldest {
                Some(sequence) => if object.sequence < sequence {
                    Some(object.sequence)
                } else {
                    Some(sequence)
                },
                None => Some(object.sequence),
            };
        }
        i = i + 1;
    }
    (count, oldest)
}

/// Places a new object at the end of the object list and records its spawn.
pub(crate) fn place_object(
    ctx: &mut ResolveContext,
    kind: PersistentObjectKind,
    position: FixedPoint,
    health: u16,
    turns_remaining: u8,
)
    ensures
        ({
            let object = spec_new_object(
                old(ctx).state.next_object_sequence,
                old(ctx).actor_id@,
                kind,
                position,
                health,
                turns_remaining,
            );
            &&& spec_object_views(final(ctx).state.objects@) == spec_object_views(
                old(ctx).state.objects@,
            ).push(object)
            &&& spec_change_views(final(ctx).object_changes@) == spec_change_views(
                old(ctx).object_changes@,
            ).push((object, PersistentObjectTransition::Spawned))
        }),
        final(ctx).state.next_object_sequence == spec_bump(old(ctx).state.next_object_sequence),
        spec_same_but_objects(*final(ctx), *old(ctx)),
{
    let sequence = ctx.next_object_sequence();
    let ghost objects_before = ctx.state.objects@;
    let ghost changes_before = ctx.object_changes@;
    ctx.state.objects.push(
        PersistentObject {
            sequence,
            owner_id: ctx.actor_id.clone(),
            kind,
            position,
            health,
            turns_remaining,
        },
    );
    ctx.object_changes.push(
        PersistentObjectChange {
            object: PersistentObject {
                sequence,
                owner_id: ctx.actor_id.clone(),
                kind,
                position,
                health,
                turns_remaining,
            },
            transition: PersistentObjectTransition::Spawned,
        },
    );
    let ghost object = spec_new_object(
        sequence,
        ctx.actor_id@,
        kind,
        position,
        health,
        turns_remaining,
    );
    assert(spec_object_views(ctx.state.objects@) =~= spec_object_views(objects_before).push(object));
    assert(spec_change_views(ctx.object_changes@) =~= spec_change_views(changes_before).push(
        (object, PersistentObjectTransition::Spawned),
    ));
}

/// What [`resolve`] does with `effect` in `before`: the context it leaves and the result.
pub open spec fn spec_resolve_outcome(
    before: ResolveContext,
    after: ResolveContext,
    effect: SpecialEffect,
    result: SimResult<()>,
) -> bool {
    &&& (effect.kind == EffectKind::SpawnTurret ==> result == Ok::<(), SimError>(())
            && spec_spawn_turret(before, after, effect))
    &&& (effect.kind == EffectKind::EmbedProjectile ==> {
            &&& effect.magnitude_secondary <= 0 ==> result == Err::<(), SimError>(
                SimError::OutOfRange {
                    field: "EmbedProjectile.magnitude_secondary (embedded knife cap)",
                },
            ) && after == before
            &&& effect.magnitude_secondary > 0 ==> result == Ok::<(), SimError>(()) && spec_embed(
                before,
                after,
                effect,
            )
        })
    &&& (effect.kind == EffectKind::ChainDetonate ==> spec_chain_detonate(
            before,
            after,
            effect,
            result
        ))
    &&& (!(effect.kind == EffectKind::SpawnTurret || effect.kind == EffectKind::EmbedProjectile
            || effect.kind == EffectKind::ChainDetonate) ==> result == Ok::<(), SimError>(())
            && after == before)
}

/// Resolves an objects-family effect: SpawnTurret, EmbedProjectile or ChainDetonate. Any
/// other kind is a no-op.
pub fn resolve(ctx: &mut ResolveContext, effect: &SpecialEffect) -> (result: SimResult<()>)
    ensures
        spec_resolve_outcome(*old(ctx), *final(ctx), *effect, result),
{
    match effect.kind {
        EffectKind::SpawnTurret => spawn_turret(ctx, effect),
        EffectKind::EmbedProjectile => embed_projectile(ctx, effect),
        EffectKind::ChainDetonate => chain_detonate(ctx, effect),
        _ => Ok(()),
    }
}

/// SpawnTurret: replaces the actor's turret with a new one at the impact point.
fn spawn_turret(ctx: &mut ResolveContext, effect: &SpecialEffect) -> (result: SimResult<()>)
    ensures
        result == Ok::<(), SimError>(()),
        spec_spawn_turret(*old(ctx), *final(ctx), *effect),
{
    let actor_id = ctx.actor_id.clone();
    remove_objects(&mut ctx.state.objects, &actor_id, true, 0);
    let impact = ctx.impact_point;
    place_object(ctx, PersistentObjectKind::Turret, impact, EMI_TURRET_HEALTH, effect.duration_turns);
    Ok(())
}

/// EmbedProjectile: embeds a knife at the impact point, evicting the actor's oldest knife
/// beyond the cap carried in `magnitude_secondary`. A cap that is not positive is refused.
fn embed_projectile(ctx: &mut ResolveContext, effect: &SpecialEffect) -> (result: SimResult<()>)
    ensures
        effect.magnitude_secondary <= 0 ==> result == Err::<(), SimError>(
            SimError::OutOfRange {
                field: "EmbedProjectile.magnitude_secondary (embedded knife cap)",
            },
        ) && *final(ctx) == *old(ctx),
        effect.magnitude_secondary > 0 ==> result == Ok::<(), SimError>(()) && spec_embed(
            *old(ctx),
            *final(ctx),
            *effect,
        ),
{
    if effect.magnitude_secondary <= 0 {
        return Err(
            SimError::OutOfRange {
                field: "EmbedProjectile.magnitude_secondary (embedded knife cap)",
            },
        );
    }
    let cap = effect.magnitude_secondary as usize;
    let actor_id = ctx.actor_id.clone();
    let impact = ctx.impact_point;
    place_object(
        ctx,
        PersistentObjectKind::EmbeddedKnife,
        impact,
        EMBEDDED_KNIFE_HEALTH,
        effect.duration_turns,
    );
    let (count, oldest) = owned_knives(&ctx.state.objects, &actor_id);
    if count > cap {
        match oldest {
            Some(sequence) => {
                remove_objects(&mut ctx.state.objects, &actor_id, false, sequence);
            },
            None => {},
        }
    }
    Ok(())
}

// ---------------------------------------------------------------------------------------
// Chain detonation model
// ---------------------------------------------------------------------------------------

/// Knife positions keyed by creation sequence, as a list strictly ascending by sequence.
pub type KnifeList = Seq<(u32, FixedPoint)>;

/// How many leading entries of `knives` have a sequence below `sequence`.
pub open spec fn spec_knives_below(knives: KnifeList, sequence: u32) -> int
    decreases knives.len(),
{
    if knives.len() == 0 {
        0
    } else if knives[0].0 < sequence {
        1 + spec_knives_below(knives.drop_first(), sequence)
    } else {
        0
    }
}

/// `knives` with `sequence` mapped to `position` (replacing an existing entry).
pub open spec fn spec_knife_put(knives: KnifeList, sequence: u32, position: FixedPoint) -> KnifeList {
    let p = spec_knives_below(knives, sequence);
    if p < knives.len() && knives[p].0 == sequence {
        knives.update(p, (sequence, position))
    } else {
        knives.insert(p, (sequence, position))
    }
}

/// The embedded knives among the first `n` objects, keyed by sequence (a later object with
/// the same sequence wins).
pub open spec fn spec_knives(objects: Seq<ObjectView>, n: int) -> KnifeList
    decreases n,
{
    if n <= 0 {
        Seq::empty()
    } else {
        let rest = spec_knives(objects, n - 1);
        if objects[n - 1].kind == PersistentObjectKind::EmbeddedKnife {
            spec_knife_put(rest, objects[n - 1].sequence, objects[n - 1].position)
        } else {
            rest
        }
    }
}

/// Whether `knives` is strictly ascending by sequence.
pub open spec fn spec_knives_sorted(knives: KnifeList) -> bool {
    forall|i: int, j: int| 0 <= i < j < knives.len() ==> (#[trigger] knives[i]).0 < (#[trigger] knives[j]).0
}

/// The highest-sequence knife among the first `n` that sits exactly at `impact`.
pub open spec fn spec_landing(knives: KnifeList, impact: FixedPoint, n: int) -> Option<int>
    decreases n,
{
    if n <= 0 {
        None
    } else if knives[n - 1].1 == impact {
        Some(n - 1)
    } else {
        spec_landing(knives, impact, n - 1)
    }
}

/// Where the knife with `sequence` sits, if it is among the first `n`.
pub open spec fn spec_knife_at(knives: KnifeList, sequence: u32, n: int) -> Option<FixedPoint>
    decreases n,
{
    if n <= 0 {
        None
    } else {
        match spec_knife_at(knives, sequence, n - 1) {
            Some(position) => Some(position),
            None => if knives[n - 1].0 == sequence {
                Some(knives[n - 1].1)
            } else {
                None
            },
        }
    }
}

/// How many leading elements of a strictly ascending set are below `x`.
pub open spec fn spec_set_below(set: Seq<u32>, x: u32) -> int
    decreases set.len(),
{
    if set.len() == 0 {
        0
    } else if set[0] < x {
        1 + spec_set_below(set.drop_first(), x)
    } else {
        0
    }
}

/// A strictly ascending set with `x` added.
pub open spec fn spec_set_insert(set: Seq<u32>, x: u32) -> Seq<u32> {
    let p = spec_set_below(set, x);
    if p < set.len() && set[p] == x {
        set
    } else {
        set.insert(p, x)
    }
}

/// Whether `set` is strictly ascending.
pub open spec fn spec_strictly_ascending(set: Seq<u32>) -> bool {
    forall|i: int, j: int| 0 <= i < j < set.len() ==> set[i] < set[j]
}

/// The knives among the first `n` that the landing knife triggers.
pub open spec fn spec_triggered(knives: KnifeList, landing: u32, at: FixedPoint, n: int) -> Seq<u32>
    decreases n,
{
    if n <= 0 {
        Seq::empty()
    } else {
        let rest = spec_triggered(knives, landing, at, n - 1);
        if knives[n - 1].0 != landing && spec_within_radius(
            at,
            knives[n - 1].1,
            KNIFE_CHAIN_TRIGGER_RADIUS as int,
        ) {
            spec_set_insert(rest, knives[n - 1].0)
        } else {
            rest
        }
    }
}

/// The ids of living players among the first `n` caught in a blast of `radius` at `center`.
pub open spec fn spec_caught(players: Seq<PlayerState>, center: FixedPoint, radius: i32, n: int) -> Seq<
    Seq<char>,
>
    decreases n,
{
    if n <= 0 {
        Seq::empty()
    } else {
        let rest = spec_caught(players, center, radius, n - 1);
        if players[n - 1].health != 0 && spec_within_radius(
            center,
            players[n - 1].position,
            radius as int,
        ) {
            rest.push(players[n - 1].id@)
        } else {
            rest
        }
    }
}

/// Whether `player` is caught by a blast of `radius` at `center`: alive and inside it.
pub open spec fn spec_in_blast(player: PlayerState, center: FixedPoint, radius: i32) -> bool {
    player.health != 0 && spec_within_radius(center, player.position, radius as int)
}

/// The blast law: the players a blast catches are exactly the living ones within its
/// radius, every one of them, each once per roster entry, in roster order — the roster's
/// ids filtered by [`spec_in_blast`].
pub proof fn lemma_caught_are_everyone_in_blast(
    players: Seq<PlayerState>,
    center: FixedPoint,
    radius: i32,
    n: int,
)
    requires
        0 <= n <= players.len(),
    ensures
        spec_caught(players, center, radius, n) == players.subrange(0, n).filter(
            |player: PlayerState| spec_in_blast(player, center, radius),
        ).map_values(|player: PlayerState| player.id@),
        forall|j: int|
            0 <= j < n && spec_in_blast(#[trigger] players[j], center, radius) ==> spec_caught(
                players,
                center,
                radius,
                n,
            ).contains(players[j].id@),
        forall|k: int|
            0 <= k < spec_caught(players, center, radius, n).len() ==> exists|j: int|
                0 <= j < n && spec_in_blast(#[trigger] players[j], center, radius) && players[j].id@
                    == #[trigger] spec_caught(players, center, radius, n)[k],
    decreases n,
{
    reveal(Seq::filter);
    if n > 0 {
        lemma_caught_are_everyone_in_blast(players, center, radius, n - 1);
        let prefix = players.subrange(0, n - 1);
        let whole = players.subrange(0, n);
        assert(whole.drop_last() =~= prefix);
        assert(whole.last() == players[n - 1]);
        let kept = prefix.filter(|player: PlayerState| spec_in_blast(player, center, radius));
        let rest = spec_caught(players, center, radius, n - 1);
        let caught = spec_caught(players, center, radius, n);
        if spec_in_blast(players[n - 1], center, radius) {
            assert(kept.push(players[n - 1]).map_values(|player: PlayerState| player.id@) =~= kept.map_values(
                |player: PlayerState| player.id@,
            ).push(players[n - 1].id@));
            assert(caught == rest.push(players[n - 1].id@));
            assert(caught[rest.len() as int] == players[n - 1].id@);
        } else {
            assert(caught == rest);
        }
        assert forall|j: int|
            0 <= j < n && spec_in_blast(#[trigger] players[j], center, radius) implies caught.contains(
            players[j].id@,
        ) by {
            if j < n - 1 {
                assert(rest.contains(players[j].id@));
                let k = choose|k: int| 0 <= k < rest.len() && rest[k] == players[j].id@;
                assert(caught[k] == rest[k]);
            } else {
                assert(caught[rest.len() as int] == players[j].id@);
            }
        }
        assert forall|k: int| 0 <= k < caught.len() implies exists|j: int|
            0 <= j < n && spec_in_blast(#[trigger] players[j], center, radius) && players[j].id@
                == #[trigger] caught[k] by {
            if k < rest.len() {
                assert(caught[k] == rest[k]);
                let j = choose|j: int|
                    0 <= j < n - 1 && spec_in_blast(#[trigger] players[j], center, radius)
                        && players[j].id@ == rest[k];
                assert(spec_in_blast(players[j], center, radius));
            } else {
                assert(spec_in_blast(players[n - 1], center, radius));
            }
        }
    } else {
        assert(players.subrange(0, 0) =~= Seq::<PlayerState>::empty());
    }
}

/// Blast damage of `amount` to the player named `id`: health saturates at zero, the damage
/// actually taken is recorded as splash, and an emptied health marks the entry eliminated.
pub open spec fn spec_splash_one(
    players: Seq<PlayerState>,
    damage: Seq<DamageView>,
    id: Seq<char>,
    amount: u16,
) -> (Seq<PlayerState>, Seq<DamageView>) {
    match spec_find_player(players, id) {
        None => (players, damage),
        Some(i) => if players[i].health == 0 {
            (players, damage)
        } else {
            let previous = players[i].health;
            let health: u16 = if previous > amount {
                (previous - amount) as u16
            } else {
                0
            };
            let actual = previous - health;
            let (touched, k) = spec_touch_entry(damage, id);
            let splash: u16 = if touched[k].splash + actual > u16::MAX {
                u16::MAX
            } else {
                (touched[k].splash + actual) as u16
            };
            (
                players.update(i, PlayerState { health, ..players[i] }),
                touched.update(
                    k,
                    DamageView {
                        splash,
                        eliminated: touched[k].eliminated || health == 0,
                        ..touched[k]
                    },
                ),
            )
        },
    }
}

/// Blast damage to the first `n` of `ids`, in order.
pub open spec fn spec_splash_all(
    players: Seq<PlayerState>,
    damage: Seq<DamageView>,
    ids: Seq<Seq<char>>,
    amount: u16,
    n: int,
) -> (Seq<PlayerState>, Seq<DamageView>)
    decreases n,
{
    if n <= 0 {
        (players, damage)
    } else {
        let (p, d) = spec_splash_all(players, damage, ids, amount, n - 1);
        spec_splash_one(p, d, ids[n - 1], amount)
    }
}

/// The pending set after a blast at `center` from knife `source`: every other knife among
/// the first `n` that has not detonated and lies within `radius` joins.
pub open spec fn spec_propagate(
    knives: KnifeList,
    pending: Seq<u32>,
    detonated: Seq<u32>,
    source: u32,
    center: FixedPoint,
    radius: i32,
    n: int,
) -> Seq<u32>
    decreases n,
{
    if n <= 0 {
        pending
    } else {
        let rest = spec_propagate(knives, pending, detonated, source, center, radius, n - 1);
        if knives[n - 1].0 != source && !detonated.contains(knives[n - 1].0) && spec_within_radius(
            center,
            knives[n - 1].1,
            radius as int,
        ) {
            spec_set_insert(rest, knives[n - 1].0)
        } else {
            rest
        }
    }
}

/// Everything a chain detonation tracks.
pub struct ChainModel {
    /// Knives waiting to detonate, strictly ascending.
    pub pending: Seq<u32>,
    /// Knives detonated so far, in detonation order.
    pub detonated: Seq<u32>,
    /// The roster.
    pub players: Seq<PlayerState>,
    /// The damage views.
    pub damage: Seq<DamageView>,
    /// Terrain cells.
    pub cells: Seq<u8>,
    /// Next terrain-operation sequence.
    pub next_terrain_sequence: u32,
    /// Terrain operations recorded so far.
    pub ops: Seq<TerrainOperation>,
    /// Terrain cells removed so far.
    pub removed: u32,
}

/// The fixed parameters of a chain detonation.
pub struct ChainParameters {
    /// The knife snapshot.
    pub knives: KnifeList,
    /// Terrain width.
    pub width: int,
    /// Terrain cell count.
    pub cell_count: int,
    /// Blast radius, fixed-point.
    pub radius: i32,
    /// Blast damage.
    pub amount: u16,
    /// Blast radius in whole cells.
    pub radius_cells: u16,
}

/// The crater one knife's blast removes.
pub open spec fn spec_blast_op(sequence: u32, center: FixedPoint, radius_cells: u16) -> TerrainOperation {
    TerrainOperation {
        sequence,
        shape: TerrainShape::SubtractCircle { center, radius_cells },
        material_mask: MaterialMask::Soft,
    }
}

/// `a + b` for `u32`, saturating.
pub open spec fn spec_add_u32(a: u32, b: int) -> u32 {
    if a + b > u32::MAX {
        u32::MAX
    } else {
        (a + b) as u32
    }
}

/// One step of the chain: the lowest pending knife detonates (unless it already has),
/// damaging living players in its blast, cratering soft terrain, and pulling in every
/// undetonated knife in its radius.
pub open spec fn spec_chain_step(m: ChainModel, c: ChainParameters) -> ChainModel {
    let sequence = m.pending[0];
    let rest = m.pending.drop_first();
    if m.detonated.contains(sequence) {
        ChainModel { pending: rest, ..m }
    } else {
        let detonated = m.detonated.push(sequence);
        match spec_knife_at(c.knives, sequence, c.knives.len() as int) {
            None => ChainModel { pending: rest, detonated, ..m },
            Some(center) => {
                let caught = spec_caught(m.players, center, c.radius, m.players.len() as int);
                let (players, damage) = spec_splash_all(
                    m.players,
                    m.damage,
                    caught,
                    c.amount,
                    caught.len() as int,
                );
                let op = spec_blast_op(m.next_terrain_sequence, center, c.radius_cells);
                let removed_now = spec_removed_count(m.cells, c.width, c.cell_count, op, m.cells.len() as int);
                ChainModel {
                    pending: spec_propagate(
                        c.knives,
                        rest,
                        detonated,
                        sequence,
                        center,
                        c.radius,
                        c.knives.len() as int,
                    ),
                    detonated,
                    players,
                    damage,
                    cells: spec_after_operation(m.cells, c.width, c.cell_count, op),
                    next_terrain_sequence: spec_bump(m.next_terrain_sequence),
                    ops: m.ops.push(op),
                    removed: spec_add_u32(
                        m.removed,
                        if removed_now > u32::MAX {
                            u32::MAX as int
                        } else {
                            removed_now as int
                        },
                    ),
                }
            },
        }
    }
}

/// The chain after at most `fuel` steps, stopping once nothing is pending.
pub open spec fn spec_chain(m: ChainModel, c: ChainParameters, fuel: nat) -> ChainModel
    decreases fuel,
{
    if fuel == 0 || m.pending.len() == 0 {
        m
    } else {
        spec_chain(spec_chain_step(m, c), c, (fuel - 1) as nat)
    }
}

/// A step budget that always suffices for a chain over `k` knives.
pub open spec fn spec_chain_budget(k: nat) -> nat {
    (k + 1) * (k + 1)
}

/// The knife sequences of a knife list.
pub open spec fn spec_knife_seqs(knives: KnifeList) -> Seq<u32> {
    knives.map_values(|knife: (u32, FixedPoint)| knife.0)
}

/// The size measure that every chain step strictly decreases.
pub open spec fn spec_chain_measure(m: ChainModel, k: nat) -> int {
    (k - m.detonated.len()) * (k + 1) + m.pending.len()
}

/// The bookkeeping facts a chain keeps at every step.
pub open spec fn spec_chain_wf(m: ChainModel, c: ChainParameters) -> bool {
    &&& spec_knives_sorted(c.knives)
    &&& spec_strictly_ascending(m.pending)
    &&& forall|i: int| 0 <= i < m.pending.len() ==> spec_knife_seqs(c.knives).contains(#[trigger] m.pending[i])
    &&& m.detonated.no_duplicates()
    &&& forall|i: int|
        0 <= i < m.detonated.len() ==> spec_knife_seqs(c.knives).contains(#[trigger] m.detonated[i])
}

/// A duplicate-free list drawn from `b` is no longer than `b`.
proof fn lemma_unique_subset_len(a: Seq<u32>, b: Seq<u32>)
    requires
        a.no_duplicates(),
        forall|i: int| 0 <= i < a.len() ==> b.contains(#[trigger] a[i]),
    ensures
        a.len() <= b.len(),
{
    a.unique_seq_to_set();
    b.lemma_cardinality_of_set();
    assert(a.to_set().subset_of(b.to_set())) by {
        assert forall|x: u32| a.to_set().contains(x) implies b.to_set().contains(x) by {
            let i = choose|i: int| 0 <= i < a.len() && a[i] == x;
            assert(b.contains(a[i]));
        }
    }
    vstd::seq_lib::seq_to_set_is_finite(b);
    vstd::set_lib::lemma_len_subset(a.to_set(), b.to_set());
}

/// Facts about the insertion point of a strictly ascending set.
proof fn lemma_set_below(set: Seq<u32>, x: u32)
    requires
        spec_strictly_ascending(set),
    ensures
        0 <= spec_set_below(set, x) <= set.len(),
        forall|k: int| 0 <= k < spec_set_below(set, x) ==> #[trigger] set[k] < x,
        forall|k: int| spec_set_below(set, x) <= k < set.len() ==> #[trigger] set[k] >= x,
    decreases set.len(),
{
    if set.len() > 0 {
        let rest = set.drop_first();
        assert forall|i: int, j: int| 0 <= i < j < rest.len() implies rest[i] < rest[j] by {
            assert(rest[i] == set[i + 1] && rest[j] == set[j + 1]);
        }
        lemma_set_below(rest, x);
        if set[0] < x {
            assert forall|k: int| 1 <= k < set.len() implies set[k] == rest[k - 1] by {}
        } else {
            assert forall|k: int| 0 <= k < set.len() implies #[trigger] set[k] >= x by {
                if k > 0 {
                    assert(set[0] < set[k]);
                }
            }
        }
    }
}

/// Inserting into a strictly ascending set keeps it strictly ascending, adds exactly `x`,
/// and grows it by at most one.
proof fn lemma_set_insert(set: Seq<u32>, x: u32)
    requires
        spec_strictly_ascending(set),
    ensures
        spec_strictly_ascending(spec_set_insert(set, x)),
        spec_set_insert(set, x).contains(x),
        forall|y: u32| spec_set_insert(set, x).contains(y) <==> (set.contains(y) || y == x),
        spec_set_insert(set, x).len() <= set.len() + 1,
{
    lemma_set_below(set, x);
    let p = spec_set_below(set, x);
    if p < set.len() && set[p] == x {
    } else {
        let out = set.insert(p, x);
        assert(out[p] == x);
        assert forall|i: int, j: int| 0 <= i < j < out.len() implies out[i] < out[j] by {
            if j < p {
                assert(out[i] == set[i] && out[j] == set[j]);
            } else if j == p {
                assert(out[i] == set[i]);
            } else if i < p {
                assert(out[i] == set[i] && out[j] == set[j - 1]);
            } else if i == p {
                assert(out[j] == set[j - 1]);
                if p < set.len() {
                    assert(set[p] > x);
                    if j - 1 > p {
                        assert(set[p] < set[j - 1]);
                    }
                }
            } else {
                assert(out[i] == set[i - 1] && out[j] == set[j - 1]);
            }
        }
        assert forall|y: u32| out.contains(y) <==> (set.contains(y) || y == x) by {
            if out.contains(y) {
                let k = choose|k: int| 0 <= k < out.len() && out[k] == y;
                if k < p {
                    assert(set[k] == y);
                } else if k > p {
                    assert(set[k - 1] == y);
                }
            }
            if set.contains(y) {
                let k = choose|k: int| 0 <= k < set.len() && set[k] == y;
                if k < p {
                    assert(out[k] == y);
                } else {
                    assert(out[k + 1] == y);
                }
            }
        }
    }
}

/// A strictly ascending set has no duplicates.
proof fn lemma_ascending_unique(set: Seq<u32>)
    requires
        spec_strictly_ascending(set),
    ensures
        set.no_duplicates(),
{
    assert forall|i: int, j: int| 0 <= i < set.len() && 0 <= j < set.len() && i != j implies set[i]
        != set[j] by {
        if i < j {
            assert(set[i] < set[j]);
        } else {
            assert(set[j] < set[i]);
        }
    }
}

/// Adds `x` to the strictly ascending set `set`.
fn set_insert(set: &mut Vec<u32>, x: u32)
    requires
        spec_strictly_ascending(old(set)@),
    ensures
        final(set)@ == spec_set_insert(old(set)@, x),
{
    let ghost before = set@;
    let mut p: usize = 0;
    assert(before.skip(0) =~= before);
    while p < set.len() && set[p] < x
        invariant
            p <= set@.len(),
            set@ == before,
            spec_set_below(before, x) == p + spec_set_below(before.skip(p as int), x),
        decreases set@.len() - p,
    {
        assert(before.skip(p as int).drop_first() =~= before.skip(p + 1));
        p = p + 1;
    }
    if p < set.len() && set[p] == x {
        return;
    }
    set.insert(p, x);
}

/// Facts about the insertion point of a knife list.
proof fn lemma_knives_below(knives: KnifeList, sequence: u32)
    requires
        spec_knives_sorted(knives),
    ensures
        0 <= spec_knives_below(knives, sequence) <= knives.len(),
        forall|k: int| 0 <= k < spec_knives_below(knives, sequence) ==> (#[trigger] knives[k]).0 < sequence,
        forall|k: int|
            spec_knives_below(knives, sequence) <= k < knives.len() ==> (#[trigger] knives[k]).0
                >= sequence,
    decreases knives.len(),
{
    if knives.len() > 0 {
        let rest = knives.drop_first();
        assert forall|i: int, j: int| 0 <= i < j < rest.len() implies (#[trigger] rest[i]).0 < (
        #[trigger] rest[j]).0 by {
            assert(rest[i] == knives[i + 1] && rest[j] == knives[j + 1]);
        }
        lemma_knives_below(rest, sequence);
        if knives[0].0 < sequence {
            assert forall|k: int| 1 <= k < knives.len() implies knives[k] == rest[k - 1] by {}
        } else {
            assert forall|k: int| 0 <= k < knives.len() implies (#[trigger] knives[k]).0 >= sequence by {
                if k > 0 {
                    assert(knives[0].0 < knives[k].0);
                }
            }
        }
    }
}

/// Putting a knife keeps the list strictly ascending.
proof fn lemma_knife_put(knives: KnifeList, sequence: u32, position: FixedPoint)
    requires
        spec_knives_sorted(knives),
    ensures
        spec_knives_sorted(spec_knife_put(knives, sequence, position)),
{
    lemma_knives_below(knives, sequence);
    let p = spec_knives_below(knives, sequence);
    if p < knives.len() && knives[p].0 == sequence {
        let out = knives.update(p, (sequence, position));
        assert forall|i: int, j: int| 0 <= i < j < out.len() implies (#[trigger] out[i]).0 < (
        #[trigger] out[j]).0 by {
            assert(out[i].0 == knives[i].0 && out[j].0 == knives[j].0);
        }
    } else {
        let out = knives.insert(p, (sequence, position));
        assert forall|i: int, j: int| 0 <= i < j < out.len() implies (#[trigger] out[i]).0 < (
        #[trigger] out[j]).0 by {
            if j < p {
                assert(out[i] == knives[i] && out[j] == knives[j]);
            } else if j == p {
                assert(out[i] == knives[i]);
            } else if i < p {
                assert(out[i] == knives[i] && out[j] == knives[j - 1]);
            } else if i == p {
                assert(out[j] == knives[j - 1]);
                assert(knives[p].0 > sequence);
                if j - 1 > p {
                    assert(knives[p].0 < knives[j - 1].0);
                }
            } else {
                assert(out[i] == knives[i - 1] && out[j] == knives[j - 1]);
            }
        }
    }
}

/// The embedded knives of `objects`, keyed by sequence.
fn knife_snapshot(objects: &Vec<PersistentObject>) -> (knives: Vec<(u32, FixedPoint)>)
    ensures
        knives@ == spec_knives(spec_object_views(objects@), objects@.len() as int),
        spec_knives_sorted(knives@),
{
    let ghost views = spec_object_views(objects@);
    let mut knives: Vec<(u32, FixedPoint)> = Vec::new();
    let mut i: usize = 0;
    while i < objects.len()
        invariant
            i <= objects@.len(),
            views == spec_object_views(objects@),
            knives@ == spec_knives(views, i as int),
            spec_knives_sorted(knives@),
        decreases objects@.len() - i,
    {
        assert(views[i as int] == objects@[i as int]@);
        if objects[i].kind == PersistentObjectKind::EmbeddedKnife {
            let sequence = objects[i].sequence;
            let position = objects[i].position;
            let ghost before = knives@;
            proof {
                lemma_knife_put(before, sequence, position);
            }
            let mut p: usize = 0;
            assert(before.skip(0) =~= before);
            while p < knives.len() && knives[p].0 < sequence
                invariant
                    p <= knives@.len(),
                    knives@ == before,
                    spec_knives_below(before, sequence) == p + spec_knives_below(
                        before.skip(p as int),
                        sequence,
                    ),
                decreases knives@.len() - p,
            {
                assert(before.skip(p as int).drop_first() =~= before.skip(p + 1));
                p = p + 1;
            }
            if p < knives.len() && knives[p].0 == sequence {
                knives.set(p, (sequence, position));
            } else {
                knives.insert(p, (sequence, position));
            }
        }
        i = i + 1;
    }
    knives
}

/// The landing knife's index: the highest-sequence knife at `impact`.
fn landing_index(knives: &Vec<(u32, FixedPoint)>, impact: FixedPoint) -> (landing: Option<usize>)
    ensures
        landing matches Some(i) ==> spec_landing(knives@, impact, knives@.len() as int) == Some(
            i as int,
        ) && i < knives@.len(),
        landing is None ==> spec_landing(knives@, impact, knives@.len() as int) is None,
{
    let mut found: Option<usize> = None;
    let mut i: usize = 0;
    while i < knives.len()
        invariant
            i <= knives@.len(),
            found matches Some(f) ==> spec_landing(knives@, impact, i as int) == Some(f as int) && f < i,
            found is None ==> spec_landing(knives@, impact, i as int) is None,
        decreases knives@.len() - i,
    {
        if knives[i].1 == impact {
            found = Some(i);
        }
        i = i + 1;
    }
    found
}

/// Once found, a knife's position stays the answer for every longer prefix.
proof fn lemma_knife_at_prefix(knives: KnifeList, sequence: u32, i: int, n: int)
    requires
        0 <= i < n <= knives.len(),
        spec_knife_at(knives, sequence, i) is None,
        knives[i].0 == sequence,
    ensures
        spec_knife_at(knives, sequence, n) == Some(knives[i].1),
    decreases n,
{
    if n > i + 1 {
        lemma_knife_at_prefix(knives, sequence, i, n - 1);
    }
}

/// Where the knife with `sequence` sits.
fn knife_at(knives: &Vec<(u32, FixedPoint)>, sequence: u32) -> (position: Option<FixedPoint>)
    ensures
        position == spec_knife_at(knives@, sequence, knives@.len() as int),
{
    let mut i: usize = 0;
    while i < knives.len()
        invariant
            i <= knives@.len(),
            spec_knife_at(knives@, sequence, i as int) is None,
        decreases knives@.len() - i,
    {
        if knives[i].0 == sequence {
            proof {
                lemma_knife_at_prefix(knives@, sequence, i as int, knives@.len() as int);
            }
            return Some(knives[i].1);
        }
        i = i + 1;
    }
    None
}

/// `objects` without the knives whose sequence has detonated, order kept.
pub open spec fn spec_without_detonated(objects: Seq<ObjectView>, detonated: Seq<u32>) -> Seq<ObjectView>
    decreases objects.len(),
{
    if objects.len() == 0 {
        objects
    } else {
        let rest = spec_without_detonated(objects.drop_last(), detonated);
        if objects.last().kind == PersistentObjectKind::EmbeddedKnife && detonated.contains(
            objects.last().sequence,
        ) {
            rest
        } else {
            rest.push(objects.last())
        }
    }
}

/// Whether `list` holds `x`.
fn list_contains(list: &Vec<u32>, x: u32) -> (found: bool)
    ensures
        found == list@.contains(x),
{
    let mut i: usize = 0;
    while i < list.len()
        invariant
            i <= list@.len(),
            forall|j: int| 0 <= j < i ==> list@[j] != x,
        decreases list@.len() - i,
    {
        if list[i] == x {
            assert(list@[i as int] == x);
            return true;
        }
        i = i + 1;
    }
    false
}

/// Removes, in place and in order, every knife whose sequence is in `detonated`.
fn remove_detonated(objects: &mut Vec<PersistentObject>, detonated: &Vec<u32>)
    ensures
        spec_object_views(final(objects)@) == spec_without_detonated(
            spec_object_views(old(objects)@),
            detonated@,
        ),
{
    let ghost initial = spec_object_views(objects@);
    let total = objects.len();
    let mut i: usize = 0;
    let mut processed: usize = 0;
    assert(initial.subrange(0, 0) =~= Seq::<ObjectView>::empty());
    assert(initial.skip(0) =~= initial);
    while processed < total
        invariant
            total == initial.len(),
            processed <= initial.len(),
            i <= objects@.len(),
            spec_object_views(objects@) == spec_without_detonated(
                initial.subrange(0, processed as int),
                detonated@,
            ) + initial.skip(processed as int),
            spec_without_detonated(initial.subrange(0, processed as int), detonated@).len() == i,
            objects@.len() == i + initial.len() - processed,
        decreases initial.len() - processed,
    {
        let ghost kept = spec_without_detonated(initial.subrange(0, processed as int), detonated@);
        assert(initial.subrange(0, processed + 1).drop_last() =~= initial.subrange(
            0,
            processed as int,
        ));
        assert(spec_object_views(objects@)[i as int] == initial[processed as int]);
        assert(i < objects.len());
        let drop = objects[i].kind == PersistentObjectKind::EmbeddedKnife && list_contains(
            detonated,
            objects[i].sequence,
        );
        if drop {
            let ghost before = objects@;
            objects.remove(i);
            assert(spec_object_views(objects@) =~= spec_object_views(before).remove(i as int));
            assert(initial.skip(processed as int).drop_first() =~= initial.skip(processed + 1));
            assert((kept + initial.skip(processed as int)).remove(i as int) =~= kept + initial.skip(
                processed + 1,
            ));
        } else {
            assert(spec_object_views(objects@) =~= kept.push(initial[processed as int])
                + initial.skip(processed + 1));
            i = i + 1;
        }
        processed = processed + 1;
    }
    assert(initial.subrange(0, initial.len() as int) =~= initial);
}

/// The ids of living players caught in a blast of `radius` at `center`, in roster order.
fn caught_ids(players: &Vec<PlayerState>, center: FixedPoint, radius: i32) -> (ids: Vec<String>)
    ensures
        super::spec_string_views(ids@) == spec_caught(players@, center, radius, players@.len() as int),
{
    let mut ids: Vec<String> = Vec::new();
    let mut i: usize = 0;
    while i < players.len()
        invariant
            i <= players@.len(),
            super::spec_string_views(ids@) == spec_caught(players@, center, radius, i as int),
        decreases players@.len() - i,
    {
        if players[i].health != 0 && within_radius(center, players[i].position, radius) {
            let ghost before = ids@;
            ids.push(players[i].id.clone());
            assert(super::spec_string_views(ids@) =~= super::spec_string_views(before).push(
                players@[i as int].id@,
            ));
        }
        i = i + 1;
    }
    ids
}

/// `after` is `before` with only the roster and the damage list changed.
pub open spec fn spec_same_but_casualties(after: ResolveContext, before: ResolveContext) -> bool {
    after == ResolveContext {
        state: SimulationState { players: after.state.players, ..before.state },
        damage: after.damage,
        ..before
    }
}

/// Applies `amount` of blast damage to the player named `id` (see [`spec_splash_one`]).
fn apply_detonation_damage(ctx: &mut ResolveContext, id: &str, amount: u16)
    ensures
        (final(ctx).state.players@, spec_damage_views(final(ctx).damage@)) == spec_splash_one(
            old(ctx).state.players@,
            spec_damage_views(old(ctx).damage@),
            id@,
            amount,
        ),
        spec_same_but_casualties(*final(ctx), *old(ctx)),
{
    let index = match ctx.state.player_index(id) {
        None => {
            return;
        },
        Some(index) => index,
    };
    if ctx.state.players[index].health == 0 {
        return;
    }
    let previous = ctx.state.players[index].health;
    let health: u16 = if previous > amount {
        previous - amount
    } else {
        0
    };
    ctx.state.players[index].health = health;
    let actual: u16 = previous - health;
    let e = ctx.touch_entry(id);
    let ghost touched = ctx.damage@;
    let current: u32 = ctx.damage[e].splash as u32;
    let splash: u16 = if current + actual as u32 > 65535 {
        65535
    } else {
        (current + actual as u32) as u16
    };
    let eliminated = ctx.damage[e].eliminated || health == 0;
    ctx.damage[e].splash = splash;
    ctx.damage[e].eliminated = eliminated;
    assert(spec_damage_views(ctx.damage@) =~= spec_damage_views(touched).update(
        e as int,
        DamageView { splash, eliminated, ..spec_damage_views(touched)[e as int] },
    ));
}

/// Converts a fixed-point radius to whole terrain cells, rounding half away from zero.
fn radius_to_terrain_cells(radius: i32) -> (cells: SimResult<u16>)
    ensures
        cells == match spec_round_divide(radius as int, POSITION_SCALE as int) {
            None => Err(SimError::Overflow { context: "ChainDetonate blast radius to terrain cells" }),
            Some(value) => if 0 <= value <= u16::MAX {
                Ok(value as u16)
            } else {
                Err(
                    SimError::OutOfRange {
                        field: "ChainDetonate.magnitude_secondary (blast radius)",
                    },
                )
            },
        },
{
    match round_divide(radius as i64, POSITION_SCALE as i64) {
        None => Err(SimError::Overflow { context: "ChainDetonate blast radius to terrain cells" }),
        Some(value) => if 0 <= value && value <= 65535 {
            Ok(value as u16)
        } else {
            Err(SimError::OutOfRange { field: "ChainDetonate.magnitude_secondary (blast radius)" })
        },
    }
}

/// Propagation keeps the pending set strictly ascending and drawn from the knife list.
proof fn lemma_propagate(
    knives: KnifeList,
    pending: Seq<u32>,
    detonated: Seq<u32>,
    source: u32,
    center: FixedPoint,
    radius: i32,
    n: int,
)
    requires
        0 <= n <= knives.len(),
        spec_strictly_ascending(pending),
        forall|i: int| 0 <= i < pending.len() ==> spec_knife_seqs(knives).contains(#[trigger] pending[i]),
    ensures
        ({
            let out = spec_propagate(knives, pending, detonated, source, center, radius, n);
            &&& spec_strictly_ascending(out)
            &&& forall|i: int| 0 <= i < out.len() ==> spec_knife_seqs(knives).contains(#[trigger] out[i])
        }),
    decreases n,
{
    if n > 0 {
        lemma_propagate(knives, pending, detonated, source, center, radius, n - 1);
        let rest = spec_propagate(knives, pending, detonated, source, center, radius, n - 1);
        let x = knives[n - 1].0;
        assert(spec_knife_seqs(knives)[n - 1] == x);
        lemma_set_insert(rest, x);
        let out = spec_set_insert(rest, x);
        assert forall|i: int| 0 <= i < out.len() implies spec_knife_seqs(knives).contains(#[trigger] out[i]) by {
            assert(out.contains(out[i]));
            if out[i] != x {
                assert(rest.contains(out[i]));
                let k = choose|k: int| 0 <= k < rest.len() && rest[k] == out[i];
                assert(spec_knife_seqs(knives).contains(rest[k]));
            }
        }
    }
}

/// One chain step keeps the bookkeeping facts and strictly decreases the measure.
proof fn lemma_chain_step(m: ChainModel, c: ChainParameters)
    requires
        spec_chain_wf(m, c),
        m.pending.len() > 0,
    ensures
        spec_chain_wf(spec_chain_step(m, c), c),
        spec_chain_measure(spec_chain_step(m, c), c.knives.len()) < spec_chain_measure(
            m,
            c.knives.len(),
        ),
{
    let k = c.knives.len();
    let seqs = spec_knife_seqs(c.knives);
    let sequence = m.pending[0];
    let rest = m.pending.drop_first();
    assert forall|i: int, j: int| 0 <= i < j < rest.len() implies rest[i] < rest[j] by {
        assert(rest[i] == m.pending[i + 1] && rest[j] == m.pending[j + 1]);
    }
    assert forall|i: int| 0 <= i < rest.len() implies seqs.contains(#[trigger] rest[i]) by {
        assert(rest[i] == m.pending[i + 1]);
    }
    lemma_unique_subset_len(m.detonated, seqs);
    lemma_ascending_unique(m.pending);
    lemma_unique_subset_len(m.pending, seqs);
    if m.detonated.contains(sequence) {
    } else {
        let detonated = m.detonated.push(sequence);
        assert(seqs.contains(m.pending[0]));
        assert(detonated.no_duplicates()) by {
            assert forall|i: int, j: int|
                0 <= i < detonated.len() && 0 <= j < detonated.len() && i != j implies detonated[i]
                != detonated[j] by {
                if i < m.detonated.len() && j < m.detonated.len() {
                    assert(detonated[i] == m.detonated[i] && detonated[j] == m.detonated[j]);
                } else if i == m.detonated.len() {
                    assert(detonated[j] == m.detonated[j]);
                    assert(m.detonated.contains(m.detonated[j]));
                } else {
                    assert(detonated[i] == m.detonated[i]);
                    assert(m.detonated.contains(m.detonated[i]));
                }
            }
        }
        assert forall|i: int| 0 <= i < detonated.len() implies seqs.contains(#[trigger] detonated[i]) by {
            if i < m.detonated.len() {
                assert(detonated[i] == m.detonated[i]);
            }
        }
        lemma_unique_subset_len(detonated, seqs);
        match spec_knife_at(c.knives, sequence, k as int) {
            None => {
                let d = m.detonated.len() as int;
                let kk = k as int;
                assert((kk - d - 1) * (kk + 1) + rest.len() < (kk - d) * (kk + 1) + m.pending.len())
                    by (nonlinear_arith)
                    requires
                        rest.len() == m.pending.len() - 1,
                        kk >= 0,
                ;
            },
            Some(center) => {
                lemma_propagate(c.knives, rest, detonated, sequence, center, c.radius, k as int);
                let out = spec_propagate(c.knives, rest, detonated, sequence, center, c.radius, k as int);
                lemma_ascending_unique(out);
                lemma_unique_subset_len(out, seqs);
                let d = m.detonated.len() as int;
                let kk = k as int;
                let p = out.len() as int;
                assert((kk - d - 1) * (kk + 1) + p < (kk - d) * (kk + 1) + m.pending.len())
                    by (nonlinear_arith)
                    requires
                        0 <= p <= kk,
                        m.pending.len() >= 1,
                ;
            },
        }
    }
}

/// A chain with enough budget empties its pending set.
pub proof fn lemma_chain_terminates(m: ChainModel, c: ChainParameters, fuel: nat)
    requires
        spec_chain_wf(m, c),
        spec_chain_measure(m, c.knives.len()) < fuel,
    ensures
        spec_chain(m, c, fuel).pending.len() == 0,
        spec_chain_wf(spec_chain(m, c, fuel), c),
    decreases fuel,
{
    if m.pending.len() > 0 {
        lemma_chain_step(m, c);
        lemma_chain_measure_nonnegative(spec_chain_step(m, c), c);
        lemma_chain_terminates(spec_chain_step(m, c), c, (fuel - 1) as nat);
    }
}

/// The measure is never negative.
proof fn lemma_chain_measure_nonnegative(m: ChainModel, c: ChainParameters)
    requires
        spec_chain_wf(m, c),
    ensures
        spec_chain_measure(m, c.knives.len()) >= 0,
{
    lemma_unique_subset_len(m.detonated, spec_knife_seqs(c.knives));
    let d = m.detonated.len() as int;
    let kk = c.knives.len() as int;
    assert((kk - d) * (kk + 1) >= 0) by (nonlinear_arith)
        requires
            d <= kk,
            kk >= 0,
    ;
}

/// What [`radius_to_terrain_cells`] yields for `radius`.
pub open spec fn spec_radius_cells(radius: i32) -> SimResult<u16> {
    match spec_round_divide(radius as int, POSITION_SCALE as int) {
        None => Err(SimError::Overflow { context: "ChainDetonate blast radius to terrain cells" }),
        Some(value) => if 0 <= value <= u16::MAX {
            Ok(value as u16)
        } else {
            Err(SimError::OutOfRange { field: "ChainDetonate.magnitude_secondary (blast radius)" })
        },
    }
}

/// The chain model read from a context and the two chain sets.
pub open spec fn spec_chain_model(ctx: ResolveContext, pending: Seq<u32>, detonated: Seq<u32>) -> ChainModel {
    ChainModel {
        pending,
        detonated,
        players: ctx.state.players@,
        damage: spec_damage_views(ctx.damage@),
        cells: ctx.state.terrain.cells@,
        next_terrain_sequence: ctx.state.next_terrain_sequence,
        ops: ctx.terrain_ops@,
        removed: ctx.terrain_cells_removed,
    }
}

/// `after` is `before` with only what a chain detonation touches changed.
pub open spec fn spec_same_but_chain(after: ResolveContext, before: ResolveContext) -> bool {
    after == ResolveContext {
        state: SimulationState {
            players: after.state.players,
            objects: after.state.objects,
            terrain: TerrainMask { cells: after.state.terrain.cells, ..before.state.terrain },
            next_terrain_sequence: after.state.next_terrain_sequence,
            ..before.state
        },
        damage: after.damage,
        terrain_ops: after.terrain_ops,
        terrain_cells_removed: after.terrain_cells_removed,
        ..before
    }
}

/// The outcome of ChainDetonate. Errors (leaving everything unchanged) when the damage
/// percent does not convert to hit points or the blast radius to whole cells. With no knife
/// at the impact point, or none within [`KNIFE_CHAIN_TRIGGER_RADIUS`] of the landing knife,
/// nothing happens. Otherwise the landing knife and every knife it triggers start a chain
/// (see [`spec_chain_step`]) run to exhaustion, and the detonated knives leave play.
pub open spec fn spec_chain_detonate(
    before: ResolveContext,
    after: ResolveContext,
    effect: SpecialEffect,
    result: SimResult<()>,
) -> bool {
    match spec_scale(BASE_ATTACK as int, effect.magnitude as int, 100) {
        None => result == Err::<(), SimError>(
            SimError::Overflow { context: "ChainDetonate damage percent to hit points" },
        ) && after == before,
        Some(hit_points) => if !(0 <= hit_points <= u16::MAX) {
            result == Err::<(), SimError>(
                SimError::OutOfRange { field: "ChainDetonate.magnitude (damage percent)" },
            ) && after == before
        } else {
            match spec_radius_cells(effect.magnitude_secondary) {
                Err(error) => result == Err::<(), SimError>(error) && after == before,
                Ok(radius_cells) => {
                    let views = spec_object_views(before.state.objects@);
                    let knives = spec_knives(views, views.len() as int);
                    match spec_landing(knives, before.impact_point, knives.len() as int) {
                        None => result == Ok::<(), SimError>(()) && after == before,
                        Some(l) => {
                            let triggered = spec_triggered(knives, knives[l].0, knives[l].1, knives.len() as int);
                            if triggered.len() == 0 {
                                result == Ok::<(), SimError>(()) && after == before
                            } else {
                                let c = ChainParameters {
                                    knives,
                                    width: before.state.terrain.width as int,
                                    cell_count: before.state.terrain.width * before.state.terrain.height,
                                    radius: effect.magnitude_secondary,
                                    amount: hit_points as u16,
                                    radius_cells,
                                };
                                let start = spec_chain_model(
                                    before,
                                    spec_set_insert(triggered, knives[l].0),
                                    Seq::empty(),
                                );
                                let end = spec_chain(start, c, spec_chain_budget(knives.len()));
                                &&& result == Ok::<(), SimError>(())
                                &&& end.pending.len() == 0
                                &&& end.detonated.no_duplicates()
                                &&& spec_chain_model(after, end.pending, end.detonated) == end
                                &&& spec_object_views(after.state.objects@) == spec_without_detonated(
                                    views,
                                    end.detonated,
                                )
                                &&& spec_same_but_chain(after, before)
                            }
                        },
                    }
                },
            }
        },
    }
}

/// The landing knife's trigger set is strictly ascending and drawn from the knife list.
proof fn lemma_triggered(knives: KnifeList, landing: u32, at: FixedPoint, n: int)
    requires
        0 <= n <= knives.len(),
    ensures
        spec_strictly_ascending(spec_triggered(knives, landing, at, n)),
        forall|i: int|
            0 <= i < spec_triggered(knives, landing, at, n).len() ==> spec_knife_seqs(knives).contains(
                #[trigger] spec_triggered(knives, landing, at, n)[i],
            ),
    decreases n,
{
    if n > 0 {
        lemma_triggered(knives, landing, at, n - 1);
        let rest = spec_triggered(knives, landing, at, n - 1);
        let x = knives[n - 1].0;
        assert(spec_knife_seqs(knives)[n - 1] == x);
        lemma_set_insert(rest, x);
        let out = spec_set_insert(rest, x);
        assert forall|i: int| 0 <= i < out.len() implies spec_knife_seqs(knives).contains(#[trigger] out[i]) by {
            assert(out.contains(out[i]));
            if out[i] != x {
                assert(rest.contains(out[i]));
                let k = choose|k: int| 0 <= k < rest.len() && rest[k] == out[i];
                assert(spec_knife_seqs(knives).contains(rest[k]));
            }
        }
    }
}

/// ChainDetonate: Aleph's dagger chain (see [`spec_chain_detonate`]).
fn chain_detonate(ctx: &mut ResolveContext, effect: &SpecialEffect) -> (result: SimResult<()>)
    ensures
        spec_chain_detonate(*old(ctx), *final(ctx), *effect, result),
{
    let blast_radius = effect.magnitude_secondary;
    let hit_points = match scale(BASE_ATTACK, effect.magnitude, 100) {
        None => {
            return Err(SimError::Overflow { context: "ChainDetonate damage percent to hit points" });
        },
        Some(value) => value,
    };
    if hit_points < 0 || hit_points > 65535 {
        return Err(SimError::OutOfRange { field: "ChainDetonate.magnitude (damage percent)" });
    }
    let amount = hit_points as u16;
    let radius_cells = match radius_to_terrain_cells(blast_radius) {
        Err(error) => {
            return Err(error);
        },
        Ok(cells) => cells,
    };
    let knives = knife_snapshot(&ctx.state.objects);
    let landing = match landing_index(&knives, ctx.impact_point) {
        None => {
            return Ok(());
        },
        Some(index) => index,
    };
    let landing_sequence = knives[landing].0;
    let landing_position = knives[landing].1;
    let mut pending: Vec<u32> = Vec::new();
    let mut j: usize = 0;
    while j < knives.len()
        invariant
            j <= knives@.len(),
            pending@ == spec_triggered(knives@, landing_sequence, landing_position, j as int),
            spec_strictly_ascending(pending@),
        decreases knives@.len() - j,
    {
        if knives[j].0 != landing_sequence && within_radius(
            landing_position,
            knives[j].1,
            KNIFE_CHAIN_TRIGGER_RADIUS,
        ) {
            proof {
                lemma_set_insert(pending@, knives@[j as int].0);
            }
            set_insert(&mut pending, knives[j].0);
        }
        j = j + 1;
    }
    if pending.len() == 0 {
        return Ok(());
    }
    proof {
        lemma_set_insert(pending@, landing_sequence);
    }
    set_insert(&mut pending, landing_sequence);
    let mut detonated: Vec<u32> = Vec::new();
    let ghost c = ChainParameters {
        knives: knives@,
        width: ctx.state.terrain.width as int,
        cell_count: ctx.state.terrain.width * ctx.state.terrain.height,
        radius: blast_radius,
        amount,
        radius_cells,
    };
    let ghost start = spec_chain_model(*ctx, pending@, detonated@);
    let ghost budget = spec_chain_budget(knives@.len());
    let ghost before = *ctx;
    proof {
        let seqs = spec_knife_seqs(knives@);
        let triggered = spec_triggered(knives@, landing_sequence, landing_position, knives@.len() as int);
        lemma_triggered(knives@, landing_sequence, landing_position, knives@.len() as int);
        lemma_set_insert(triggered, landing_sequence);
        assert(seqs[landing as int] == landing_sequence);
        assert forall|i: int| 0 <= i < pending@.len() implies seqs.contains(#[trigger] pending@[i]) by {
            assert(pending@.contains(pending@[i]));
            if pending@[i] != landing_sequence {
                assert(triggered.contains(pending@[i]));
                let k = choose|k: int| 0 <= k < triggered.len() && triggered[k] == pending@[i];
                assert(seqs.contains(triggered[k]));
            }
        }
        lemma_ascending_unique(pending@);
        lemma_unique_subset_len(pending@, seqs);
        let kk = knives@.len() as int;
        let p = pending@.len() as int;
        assert(kk * (kk + 1) + p < (kk + 1) * (kk + 1)) by (nonlinear_arith)
            requires
                0 <= p <= kk,
        ;
    }
    let mut steps: Ghost<nat> = Ghost(0);
    while pending.len() > 0
        invariant
            c.knives == knives@,
            c.width == ctx.state.terrain.width,
            c.cell_count == ctx.state.terrain.width * ctx.state.terrain.height,
            c.radius == blast_radius,
            c.amount == amount,
            c.radius_cells == radius_cells,
            spec_chain_wf(spec_chain_model(*ctx, pending@, detonated@), c),
            steps@ <= budget,
            spec_chain_measure(spec_chain_model(*ctx, pending@, detonated@), knives@.len()) + steps@
                <= spec_chain_measure(start, knives@.len()),
            spec_chain_measure(start, knives@.len()) < budget,
            spec_chain(start, c, budget) == spec_chain(
                spec_chain_model(*ctx, pending@, detonated@),
                c,
                (budget - steps@) as nat,
            ),
            spec_same_but_chain(*ctx, before),
            ctx.state.objects == before.state.objects,
        decreases spec_chain_measure(spec_chain_model(*ctx, pending@, detonated@), knives@.len()),
    {
        let ghost current = spec_chain_model(*ctx, pending@, detonated@);
        proof {
            lemma_chain_step(current, c);
            lemma_chain_measure_nonnegative(spec_chain_step(current, c), c);
        }
        let sequence = pending.remove(0);
        assert(pending@ == current.pending.drop_first());
        if !list_contains(&detonated, sequence) {
            detonated.push(sequence);
            match knife_at(&knives, sequence) {
                None => {},
                Some(center) => {
                    let caught = caught_ids(&ctx.state.players, center, blast_radius);
                    let ghost caught_views = super::spec_string_views(caught@);
                    let ghost players0 = ctx.state.players@;
                    let ghost damage0 = spec_damage_views(ctx.damage@);
                    let ghost terrain0 = ctx.state.terrain;
                    let mut k: usize = 0;
                    while k < caught.len()
                        invariant
                            k <= caught@.len(),
                            caught_views == super::spec_string_views(caught@),
                            (ctx.state.players@, spec_damage_views(ctx.damage@)) == spec_splash_all(
                                players0,
                                damage0,
                                caught_views,
                                amount,
                                k as int,
                            ),
                            spec_same_but_chain(*ctx, before),
                            ctx.state.objects == before.state.objects,
                            ctx.state.terrain == terrain0,
                            ctx.state.next_terrain_sequence == current.next_terrain_sequence,
                            ctx.terrain_ops@ == current.ops,
                            ctx.terrain_cells_removed == current.removed,
                        decreases caught@.len() - k,
                    {
                        apply_detonation_damage(ctx, caught[k].as_str(), amount);
                        k = k + 1;
                    }
                    let terrain_sequence = ctx.next_terrain_sequence();
                    let op = TerrainOperation {
                        sequence: terrain_sequence,
                        shape: TerrainShape::SubtractCircle { center, radius_cells },
                        material_mask: MaterialMask::soft(),
                    };
                    let removed = terrain::apply_operation(&mut ctx.state.terrain, &op);
                    ctx.terrain_cells_removed = if ctx.terrain_cells_removed as u64 + removed as u64
                        > u32::MAX as u64 {
                        u32::MAX
                    } else {
                        ctx.terrain_cells_removed + removed
                    };
                    ctx.terrain_ops.push(op);
                    let ghost rest = current.pending.drop_first();
                    let mut j: usize = 0;
                    while j < knives.len()
                        invariant
                            j <= knives@.len(),
                            pending@ == spec_propagate(
                                knives@,
                                rest,
                                detonated@,
                                sequence,
                                center,
                                blast_radius,
                                j as int,
                            ),
                            spec_strictly_ascending(pending@),
                        decreases knives@.len() - j,
                    {
                        if knives[j].0 != sequence && !list_contains(&detonated, knives[j].0)
                            && within_radius(center, knives[j].1, blast_radius) {
                            proof {
                                lemma_set_insert(pending@, knives@[j as int].0);
                            }
                            set_insert(&mut pending, knives[j].0);
                        }
                        j = j + 1;
                    }
                },
            }
        }
        proof {
            steps@ = steps@ + 1;
        }
    }
    proof {
        lemma_chain_terminates(start, c, budget);
    }
    remove_detonated(&mut ctx.state.objects, &detonated);
    Ok(())
}

// ---------------------------------------------------------------------------------------
// Laws
// ---------------------------------------------------------------------------------------

/// How many of the first `n` objects are turrets owned by `owner`.
pub open spec fn spec_owned_turret_count(objects: Seq<ObjectView>, owner: Seq<char>, n: int) -> nat
    decreases n,
{
    if n <= 0 {
        0
    } else {
        spec_owned_turret_count(objects, owner, n - 1) + if spec_is_owned_turret(
            objects[n - 1],
            owner,
        ) {
            1nat
        } else {
            0nat
        }
    }
}

/// A removal pass over turrets leaves none of the owner's turrets.
proof fn lemma_without_turrets(objects: Seq<ObjectView>, owner: Seq<char>)
    ensures
        ({
            let out = spec_without(objects, owner, true, 0);
            spec_owned_turret_count(out, owner, out.len() as int) == 0
        }),
    decreases objects.len(),
{
    if objects.len() > 0 {
        lemma_without_turrets(objects.drop_last(), owner);
        let rest = spec_without(objects.drop_last(), owner, true, 0);
        let out = spec_without(objects, owner, true, 0);
        if !spec_drops(objects.last(), owner, true, 0) {
            lemma_count_prefix_turrets(out, owner, rest.len() as int);
            assert(out.subrange(0, rest.len() as int) =~= rest);
        }
    }
}

/// Counting turrets over a prefix of a list counts the prefix.
proof fn lemma_count_prefix_turrets(objects: Seq<ObjectView>, owner: Seq<char>, n: int)
    requires
        0 <= n <= objects.len(),
    ensures
        spec_owned_turret_count(objects, owner, n) == spec_owned_turret_count(
            objects.subrange(0, n),
            owner,
            n,
        ),
    decreases n,
{
    if n > 0 {
        lemma_count_prefix_turrets(objects, owner, n - 1);
        lemma_count_prefix_turrets(objects.subrange(0, n), owner, n - 1);
        assert(objects.subrange(0, n).subrange(0, n - 1) =~= objects.subrange(0, n - 1));
    }
}

/// How many objects are knives owned by `owner` carrying `sequence`.
pub open spec fn spec_knives_with(objects: Seq<ObjectView>, owner: Seq<char>, sequence: u32) -> nat
    decreases objects.len(),
{
    if objects.len() == 0 {
        0
    } else {
        spec_knives_with(objects.drop_last(), owner, sequence) + if spec_is_owned_knife(
            objects.last(),
            owner,
        ) && objects.last().sequence == sequence {
            1nat
        } else {
            0nat
        }
    }
}

/// Whether no two knives owned by `owner` carry the same sequence.
pub open spec fn spec_owned_knives_distinct(objects: Seq<ObjectView>, owner: Seq<char>) -> bool {
    forall|i: int, j: int|
        0 <= i < j < objects.len() && spec_is_owned_knife(objects[i], owner) && spec_is_owned_knife(
            objects[j],
            owner,
        ) ==> (#[trigger] objects[i]).sequence != (#[trigger] objects[j]).sequence
}

/// Removing the owner's knives of one sequence removes exactly that many owned knives.
proof fn lemma_without_knife_exact(objects: Seq<ObjectView>, owner: Seq<char>, sequence: u32)
    ensures
        ({
            let out = spec_without(objects, owner, false, sequence);
            spec_owned_knife_count(out, owner, out.len() as int) + spec_knives_with(
                objects,
                owner,
                sequence,
            ) == spec_owned_knife_count(objects, owner, objects.len() as int)
        }),
    decreases objects.len(),
{
    if objects.len() > 0 {
        let prefix = objects.drop_last();
        lemma_without_knife_exact(prefix, owner, sequence);
        lemma_knife_count_prefix(objects, owner, prefix.len() as int);
        assert(objects.subrange(0, prefix.len() as int) =~= prefix);
        let rest = spec_without(prefix, owner, false, sequence);
        let out = spec_without(objects, owner, false, sequence);
        if !spec_drops(objects.last(), owner, false, sequence) {
            lemma_knife_count_prefix(out, owner, rest.len() as int);
            assert(out.subrange(0, rest.len() as int) =~= rest);
        }
    }
}

/// With distinct owned sequences, at most one owned knife carries `sequence`, and one does
/// exactly when some owned knife carries it.
proof fn lemma_knives_with_unique(objects: Seq<ObjectView>, owner: Seq<char>, sequence: u32)
    requires
        spec_owned_knives_distinct(objects, owner),
    ensures
        spec_knives_with(objects, owner, sequence) <= 1,
        spec_knives_with(objects, owner, sequence) == 1 <==> exists|k: int|
            0 <= k < objects.len() && spec_is_owned_knife(#[trigger] objects[k], owner)
                && objects[k].sequence == sequence,
    decreases objects.len(),
{
    if objects.len() > 0 {
        let prefix = objects.drop_last();
        let n = prefix.len() as int;
        assert forall|i: int, j: int|
            0 <= i < j < prefix.len() && spec_is_owned_knife(prefix[i], owner) && spec_is_owned_knife(
                prefix[j],
                owner,
            ) implies (#[trigger] prefix[i]).sequence != (#[trigger] prefix[j]).sequence by {
            assert(prefix[i] == objects[i] && prefix[j] == objects[j]);
        }
        lemma_knives_with_unique(prefix, owner, sequence);
        if exists|k: int|
            0 <= k < objects.len() && spec_is_owned_knife(#[trigger] objects[k], owner)
                && objects[k].sequence == sequence {
            let k = choose|k: int|
                0 <= k < objects.len() && spec_is_owned_knife(#[trigger] objects[k], owner)
                    && objects[k].sequence == sequence;
            if k < n {
                assert(prefix[k] == objects[k]);
            }
        }
        if spec_is_owned_knife(objects.last(), owner) && objects.last().sequence == sequence {
            if exists|k: int|
                0 <= k < prefix.len() && spec_is_owned_knife(#[trigger] prefix[k], owner)
                    && prefix[k].sequence == sequence {
                let k = choose|k: int|
                    0 <= k < prefix.len() && spec_is_owned_knife(#[trigger] prefix[k], owner)
                        && prefix[k].sequence == sequence;
                assert(prefix[k] == objects[k]);
                assert(objects[k].sequence != objects[n].sequence);
            }
        } else if exists|k: int|
            0 <= k < prefix.len() && spec_is_owned_knife(#[trigger] prefix[k], owner)
                && prefix[k].sequence == sequence {
            let k = choose|k: int|
                0 <= k < prefix.len() && spec_is_owned_knife(#[trigger] prefix[k], owner)
                    && prefix[k].sequence == sequence;
            assert(prefix[k] == objects[k]);
        }
    }
}

/// The oldest owned knife carries the smallest owned sequence, and exists as soon as one
/// owned knife does.
proof fn lemma_oldest_is_min(objects: Seq<ObjectView>, owner: Seq<char>, n: int)
    requires
        0 <= n <= objects.len(),
    ensures
        forall|j: int|
            0 <= j < n && spec_is_owned_knife(#[trigger] objects[j], owner) ==> spec_oldest_owned_knife(
                objects,
                owner,
                n,
            ) is Some && spec_oldest_owned_knife(objects, owner, n).unwrap() <= objects[j].sequence,
    decreases n,
{
    if n > 0 {
        lemma_oldest_is_min(objects, owner, n - 1);
    }
}

/// Appending a knife with a sequence above every existing owned knife to a list holding at
/// least one owned knife, all with distinct sequences: the oldest owned knife of the result
/// is an existing one with the smallest sequence, removing it keeps the new knife last, and
/// removes exactly one owned knife.
#[verifier::rlimit(40)]
#[verifier::spinoff_prover]
proof fn lemma_evict_oldest_of_placed(views: Seq<ObjectView>, owner: Seq<char>, knife: ObjectView)
    requires
        spec_is_owned_knife(knife, owner),
        spec_owned_knives_distinct(views, owner),
        forall|i: int|
            0 <= i < views.len() && spec_is_owned_knife(#[trigger] views[i], owner)
                ==> views[i].sequence < knife.sequence,
        spec_owned_knife_count(views, owner, views.len() as int) > 0,
    ensures
        ({
            let placed = views.push(knife);
            let oldest = spec_oldest_owned_knife(placed, owner, placed.len() as int);
            &&& oldest is Some
            &&& exists|m: int|
                0 <= m < views.len() && spec_is_owned_knife(#[trigger] views[m], owner) && (forall|
                    j: int,
                |
                    0 <= j < views.len() && spec_is_owned_knife(#[trigger] views[j], owner)
                        ==> views[m].sequence <= views[j].sequence) && views[m].sequence
                    == oldest.unwrap()
            &&& spec_without(placed, owner, false, oldest.unwrap()) == spec_without(
                views,
                owner,
                false,
                oldest.unwrap(),
            ).push(knife)
            &&& spec_owned_knife_count(
                spec_without(placed, owner, false, oldest.unwrap()),
                owner,
                spec_without(placed, owner, false, oldest.unwrap()).len() as int,
            ) + 1 == spec_owned_knife_count(placed, owner, placed.len() as int)
        }),
{
    let placed = views.push(knife);
    let n = views.len() as int;
    lemma_knife_count_prefix(placed, owner, n);
    assert(placed.subrange(0, n) =~= views);
    lemma_oldest_is_owned(placed, owner, placed.len() as int);
    lemma_oldest_is_min(placed, owner, placed.len() as int);
    let oldest = spec_oldest_owned_knife(placed, owner, placed.len() as int).unwrap();
    let w = choose|w: int|
        0 <= w < placed.len() && spec_is_owned_knife(#[trigger] placed[w], owner)
            && placed[w].sequence == oldest;
    lemma_oldest_is_owned(views, owner, n);
    let e = choose|e: int|
        0 <= e < n && spec_is_owned_knife(#[trigger] views[e], owner) && views[e].sequence
            == spec_oldest_owned_knife(views, owner, n).unwrap();
    assert(placed[e] == views[e]);
    assert(oldest <= placed[e].sequence);
    if w == n {
        assert(placed[w] == knife);
        assert(false);
    }
    assert(placed[w] == views[w]);
    assert forall|j: int| 0 <= j < n && spec_is_owned_knife(#[trigger] views[j], owner) implies views[w].sequence
        <= views[j].sequence by {
        assert(placed[j] == views[j]);
    }
    assert(placed.drop_last() =~= views);
    assert(!spec_drops(knife, owner, false, oldest));
    assert forall|i: int, j: int|
        0 <= i < j < placed.len() && spec_is_owned_knife(placed[i], owner) && spec_is_owned_knife(
            placed[j],
            owner,
        ) implies (#[trigger] placed[i]).sequence != (#[trigger] placed[j]).sequence by {
        assert(placed[i] == views[i]);
        if j < n {
            assert(placed[j] == views[j]);
        }
    }
    lemma_knives_with_unique(placed, owner, oldest);
    lemma_without_knife_exact(placed, owner, oldest);
}

/// EmbedProjectile with cap `c` keeps an owner holding `k <= c` knives, with distinct
/// sequences all below the object counter, at exactly `min(k + 1, c)` knives. Below the cap
/// the new knife is simply appended. At the cap the evicted knife is the owner's knife with
/// the smallest sequence, every other object stays in order, and the new knife is appended.
#[verifier::rlimit(50)]
#[verifier::spinoff_prover]
pub proof fn lemma_embed_evicts_oldest(before: ResolveContext, after: ResolveContext, effect: SpecialEffect)
    requires
        effect.magnitude_secondary > 0,
        spec_embed(before, after, effect),
        ({
            let views = spec_object_views(before.state.objects@);
            let owner = before.actor_id@;
            &&& spec_owned_knife_count(views, owner, views.len() as int)
                <= effect.magnitude_secondary
            &&& spec_owned_knives_distinct(views, owner)
            &&& forall|i: int|
                0 <= i < views.len() && spec_is_owned_knife(#[trigger] views[i], owner)
                    ==> views[i].sequence < before.state.next_object_sequence
        }),
    ensures
        ({
            let views = spec_object_views(before.state.objects@);
            let owner = before.actor_id@;
            let k = spec_owned_knife_count(views, owner, views.len() as int);
            let cap = effect.magnitude_secondary;
            let knife = spec_new_object(
                before.state.next_object_sequence,
                owner,
                PersistentObjectKind::EmbeddedKnife,
                before.impact_point,
                EMBEDDED_KNIFE_HEALTH,
                effect.duration_turns,
            );
            let out = spec_object_views(after.state.objects@);
            &&& spec_owned_knife_count(out, owner, out.len() as int) == if k < cap {
                k + 1int
            } else {
                cap as int
            }
            &&& k < cap ==> out == views.push(knife)
            &&& k == cap ==> exists|m: int|
                0 <= m < views.len() && spec_is_owned_knife(#[trigger] views[m], owner) && (forall|
                    j: int,
                |
                    0 <= j < views.len() && spec_is_owned_knife(#[trigger] views[j], owner)
                        ==> views[m].sequence <= views[j].sequence) && out == spec_without(
                    views,
                    owner,
                    false,
                    views[m].sequence,
                ).push(knife)
        }),
{
    let owner = before.actor_id@;
    let views = spec_object_views(before.state.objects@);
    let knife = spec_new_object(
        before.state.next_object_sequence,
        owner,
        PersistentObjectKind::EmbeddedKnife,
        before.impact_point,
        EMBEDDED_KNIFE_HEALTH,
        effect.duration_turns,
    );
    let placed = views.push(knife);
    let n = views.len() as int;
    lemma_knife_count_prefix(placed, owner, n);
    assert(placed.subrange(0, n) =~= views);
    let k = spec_owned_knife_count(views, owner, n);
    let count = spec_owned_knife_count(placed, owner, placed.len() as int);
    assert(count == k + 1);
    if k == effect.magnitude_secondary {
        lemma_evict_oldest_of_placed(views, owner, knife);
    }
}

/// A player owns at most one turret: after SpawnTurret the actor owns exactly one.
pub proof fn lemma_spawn_turret_single(before: ResolveContext, after: ResolveContext, effect: SpecialEffect)
    requires
        spec_spawn_turret(before, after, effect),
    ensures
        ({
            let views = spec_object_views(after.state.objects@);
            spec_owned_turret_count(views, before.actor_id@, views.len() as int) == 1
        }),
{
    let views = spec_object_views(after.state.objects@);
    let kept = spec_without(spec_object_views(before.state.objects@), before.actor_id@, true, 0);
    lemma_without_turrets(spec_object_views(before.state.objects@), before.actor_id@);
    lemma_count_prefix_turrets(views, before.actor_id@, kept.len() as int);
    assert(views.subrange(0, kept.len() as int) =~= kept);
}

/// Removing the owner's knives of one sequence that the owner holds lowers the count.
proof fn lemma_without_knife_count(objects: Seq<ObjectView>, owner: Seq<char>, sequence: u32)
    ensures
        ({
            let out = spec_without(objects, owner, false, sequence);
            &&& spec_owned_knife_count(out, owner, out.len() as int) <= spec_owned_knife_count(
                objects,
                owner,
                objects.len() as int,
            )
            &&& (exists|k: int|
                0 <= k < objects.len() && spec_is_owned_knife(#[trigger] objects[k], owner)
                    && objects[k].sequence == sequence) ==> spec_owned_knife_count(
                out,
                owner,
                out.len() as int,
            ) < spec_owned_knife_count(objects, owner, objects.len() as int)
        }),
    decreases objects.len(),
{
    if objects.len() > 0 {
        let prefix = objects.drop_last();
        lemma_without_knife_count(prefix, owner, sequence);
        lemma_knife_count_prefix(objects, owner, prefix.len() as int);
        assert(objects.subrange(0, prefix.len() as int) =~= prefix);
        let rest = spec_without(prefix, owner, false, sequence);
        let out = spec_without(objects, owner, false, sequence);
        if !spec_drops(objects.last(), owner, false, sequence) {
            lemma_knife_count_prefix(out, owner, rest.len() as int);
            assert(out.subrange(0, rest.len() as int) =~= rest);
        }
        if exists|k: int|
            0 <= k < objects.len() && spec_is_owned_knife(#[trigger] objects[k], owner)
                && objects[k].sequence == sequence {
            let k = choose|k: int|
                0 <= k < objects.len() && spec_is_owned_knife(#[trigger] objects[k], owner)
                    && objects[k].sequence == sequence;
            if k < prefix.len() {
                assert(prefix[k] == objects[k]);
            }
        }
    }
}

/// Counting knives over a prefix of a list counts the prefix.
proof fn lemma_knife_count_prefix(objects: Seq<ObjectView>, owner: Seq<char>, n: int)
    requires
        0 <= n <= objects.len(),
    ensures
        spec_owned_knife_count(objects, owner, n) == spec_owned_knife_count(
            objects.subrange(0, n),
            owner,
            n,
        ),
    decreases n,
{
    if n > 0 {
        lemma_knife_count_prefix(objects, owner, n - 1);
        lemma_knife_count_prefix(objects.subrange(0, n), owner, n - 1);
        assert(objects.subrange(0, n).subrange(0, n - 1) =~= objects.subrange(0, n - 1));
    }
}

/// The oldest owned knife, when there is one, is an owned knife of the list.
proof fn lemma_oldest_is_owned(objects: Seq<ObjectView>, owner: Seq<char>, n: int)
    requires
        0 <= n <= objects.len(),
    ensures
        spec_owned_knife_count(objects, owner, n) > 0 ==> spec_oldest_owned_knife(objects, owner, n) is Some,
        spec_oldest_owned_knife(objects, owner, n) matches Some(sequence) ==> exists|k: int|
            0 <= k < n && spec_is_owned_knife(#[trigger] objects[k], owner) && objects[k].sequence
                == sequence,
    decreases n,
{
    if n > 0 {
        lemma_oldest_is_owned(objects, owner, n - 1);
        if spec_is_owned_knife(objects[n - 1], owner) {
            assert(spec_is_owned_knife(objects[n - 1], owner));
        }
    }
}

/// The per-owner knife cap holds after EmbedProjectile: an owner within the cap before stays
/// within it after a knife lands.
pub proof fn lemma_embed_respects_cap(before: ResolveContext, after: ResolveContext, effect: SpecialEffect)
    requires
        effect.magnitude_secondary > 0,
        spec_embed(before, after, effect),
        ({
            let views = spec_object_views(before.state.objects@);
            spec_owned_knife_count(views, before.actor_id@, views.len() as int)
                <= effect.magnitude_secondary
        }),
    ensures
        ({
            let views = spec_object_views(after.state.objects@);
            spec_owned_knife_count(views, before.actor_id@, views.len() as int)
                <= effect.magnitude_secondary
        }),
{
    let owner = before.actor_id@;
    let views = spec_object_views(before.state.objects@);
    let knife = spec_new_object(
        before.state.next_object_sequence,
        owner,
        PersistentObjectKind::EmbeddedKnife,
        before.impact_point,
        EMBEDDED_KNIFE_HEALTH,
        effect.duration_turns,
    );
    let placed = views.push(knife);
    lemma_knife_count_prefix(placed, owner, views.len() as int);
    assert(placed.subrange(0, views.len() as int) =~= views);
    let count = spec_owned_knife_count(placed, owner, placed.len() as int);
    if count > effect.magnitude_secondary {
        lemma_oldest_is_owned(placed, owner, placed.len() as int);
        let oldest = spec_oldest_owned_knife(placed, owner, placed.len() as int).unwrap();
        lemma_without_knife_count(placed, owner, oldest);
    }
}

proof fn lemma_splash_all_prefix(
    players: Seq<PlayerState>,
    damage: Seq<DamageView>,
    a: Seq<Seq<char>>,
    b: Seq<Seq<char>>,
    amount: u16,
    n: int,
)
    requires
        0 <= n <= a.len(),
        n <= b.len(),
        forall|k: int| 0 <= k < n ==> a[k] == b[k],
    ensures
        spec_splash_all(players, damage, a, amount, n) == spec_splash_all(players, damage, b, amount, n),
    decreases n,
{
    if n > 0 {
        lemma_splash_all_prefix(players, damage, a, b, amount, n - 1);
    }
}

/// The blast damage law: on a roster with distinct ids, a blast of `amount` over everyone it
/// catches takes `min(amount, health)` from every living player within its radius and
/// leaves every other player exactly as it was; the caught change only health.
pub proof fn lemma_blast_damages_everyone_caught(
    players: Seq<PlayerState>,
    damage: Seq<DamageView>,
    center: FixedPoint,
    radius: i32,
    amount: u16,
    n: int,
)
    requires
        0 <= n <= players.len(),
        forall|i: int, j: int|
            0 <= i < j < players.len() ==> (#[trigger] players[i]).id@ != (#[trigger] players[j]).id@,
    ensures
        ({
            let caught = spec_caught(players, center, radius, n);
            let after = spec_splash_all(players, damage, caught, amount, caught.len() as int).0;
            &&& after.len() == players.len()
            &&& forall|j: int|
                0 <= j < players.len() ==> {
                    let p = players[j];
                    let q = #[trigger] after[j];
                    &&& j < n && spec_in_blast(p, center, radius) ==> q == (PlayerState {
                        health: (p.health - if amount < p.health {
                            amount as int
                        } else {
                            p.health as int
                        }) as u16,
                        ..p
                    })
                    &&& !(j < n && spec_in_blast(p, center, radius)) ==> q == p
                }
        }),
    decreases n,
{
    if n > 0 {
        lemma_blast_damages_everyone_caught(players, damage, center, radius, amount, n - 1);
        let rest = spec_caught(players, center, radius, n - 1);
        let caught = spec_caught(players, center, radius, n);
        let (mid_p, mid_d) = spec_splash_all(players, damage, rest, amount, rest.len() as int);
        if spec_in_blast(players[n - 1], center, radius) {
            assert(caught == rest.push(players[n - 1].id@));
            lemma_splash_all_prefix(players, damage, caught, rest, amount, rest.len() as int);
            let id = players[n - 1].id@;
            lemma_find_player(mid_p, id);
            crate::types::lemma_find_player_at(players, id, n - 1);
            assert(mid_p[n - 1] == players[n - 1]);
            match spec_find_player(mid_p, id) {
                Some(f) => {
                    if f != n - 1 {
                        assert(mid_p[f].id@ == players[f].id@);
                        if f < n - 1 {
                            assert(players[f].id@ != players[n - 1].id@);
                        } else {
                            assert(players[n - 1].id@ != players[f].id@);
                        }
                    }
                },
                None => {
                    assert(mid_p[n - 1].id@ == id);
                },
            }
        } else {
            assert(caught == rest);
        }
    }
}

proof fn lemma_set_below_bounded(set: Seq<u32>, x: u32)
    ensures
        0 <= spec_set_below(set, x) <= set.len(),
    decreases set.len(),
{
    if set.len() > 0 && set[0] < x {
        lemma_set_below_bounded(set.drop_first(), x);
    }
}

/// Adding to a set keeps what it held and adds exactly `x`.
pub proof fn lemma_set_insert_contains(set: Seq<u32>, x: u32)
    ensures
        forall|y: u32| #[trigger] spec_set_insert(set, x).contains(y) <==> set.contains(y) || y == x,
{
    lemma_set_below_bounded(set, x);
    let p = spec_set_below(set, x);
    if !(p < set.len() && set[p] == x) {
        let out = set.insert(p, x);
        assert forall|y: u32| #[trigger] out.contains(y) <==> set.contains(y) || y == x by {
            if out.contains(y) {
                let k = choose|k: int| 0 <= k < out.len() && out[k] == y;
                if k < p {
                    assert(set[k] == y);
                } else if k > p {
                    assert(set[k - 1] == y);
                }
            }
            if set.contains(y) {
                let k = choose|k: int| 0 <= k < set.len() && set[k] == y;
                if k < p {
                    assert(out[k] == y);
                } else {
                    assert(out[k + 1] == y);
                }
            }
            if y == x {
                assert(out[p] == y);
            }
        }
    } else {
        assert(set[p] == x);
    }
}

/// Whether knife `j` of `knives` is set off by a blast of `radius` at `center` from
/// `source`: another knife, not yet detonated, within the radius.
pub open spec fn spec_set_off(
    knives: KnifeList,
    detonated: Seq<u32>,
    source: u32,
    center: FixedPoint,
    radius: i32,
    j: int,
) -> bool {
    knives[j].0 != source && !detonated.contains(knives[j].0) && spec_within_radius(
        center,
        knives[j].1,
        radius as int,
    )
}

/// The propagation law of a chain detonation: after a blast, the knives waiting to
/// detonate are exactly those that were waiting plus every knife (among the first `n`) the
/// blast sets off — every other knife not yet detonated within the blast radius.
pub proof fn lemma_propagate_law(
    knives: KnifeList,
    pending: Seq<u32>,
    detonated: Seq<u32>,
    source: u32,
    center: FixedPoint,
    radius: i32,
    n: int,
)
    requires
        0 <= n <= knives.len(),
    ensures
        forall|y: u32|
            #[trigger] spec_propagate(knives, pending, detonated, source, center, radius, n).contains(y)
                <==> pending.contains(y) || exists|j: int|
                0 <= j < n && (#[trigger] knives[j]).0 == y && spec_set_off(
                    knives,
                    detonated,
                    source,
                    center,
                    radius,
                    j,
                ),
    decreases n,
{
    if n > 0 {
        lemma_propagate_law(knives, pending, detonated, source, center, radius, n - 1);
        let rest = spec_propagate(knives, pending, detonated, source, center, radius, n - 1);
        lemma_set_insert_contains(rest, knives[n - 1].0);
        let out = spec_propagate(knives, pending, detonated, source, center, radius, n);
        assert forall|y: u32| #[trigger] out.contains(y) <==> pending.contains(y) || exists|j: int|
            0 <= j < n && (#[trigger] knives[j]).0 == y && spec_set_off(
                knives,
                detonated,
                source,
                center,
                radius,
                j,
            ) by {
            if exists|j: int|
                0 <= j < n && (#[trigger] knives[j]).0 == y && spec_set_off(
                    knives,
                    detonated,
                    source,
                    center,
                    radius,
                    j,
                ) {
                let j = choose|j: int|
                    0 <= j < n && (#[trigger] knives[j]).0 == y && spec_set_off(
                        knives,
                        detonated,
                        source,
                        center,
                        radius,
                        j,
                    );
                if j < n - 1 {
                    assert(rest.contains(y));
                }
            }
            if rest.contains(y) && !pending.contains(y) {
                let j = choose|j: int|
                    0 <= j < n - 1 && (#[trigger] knives[j]).0 == y && spec_set_off(
                        knives,
                        detonated,
                        source,
                        center,
                        radius,
                        j,
                    );
                assert(0 <= j < n);
            }
        }
    }
}

/// The trigger law of a chain detonation: the knives the landing knife sets off are
/// exactly the other knives (among the first `n`) within the trigger radius of the landing
/// point.
pub proof fn lemma_triggered_law(knives: KnifeList, landing: u32, at: FixedPoint, n: int)
    requires
        0 <= n <= knives.len(),
    ensures
        forall|y: u32|
            #[trigger] spec_triggered(knives, landing, at, n).contains(y) <==> exists|j: int|
                0 <= j < n && (#[trigger] knives[j]).0 == y && y != landing && spec_within_radius(
                    at,
                    knives[j].1,
                    KNIFE_CHAIN_TRIGGER_RADIUS as int,
                ),
    decreases n,
{
    if n > 0 {
        lemma_triggered_law(knives, landing, at, n - 1);
        let rest = spec_triggered(knives, landing, at, n - 1);
        lemma_set_insert_contains(rest, knives[n - 1].0);
        let out = spec_triggered(knives, landing, at, n);
        assert forall|y: u32| #[trigger] out.contains(y) <==> exists|j: int|
            0 <= j < n && (#[trigger] knives[j]).0 == y && y != landing && spec_within_radius(
                at,
                knives[j].1,
                KNIFE_CHAIN_TRIGGER_RADIUS as int,
            ) by {
            if exists|j: int|
                0 <= j < n && (#[trigger] knives[j]).0 == y && y != landing && spec_within_radius(
                    at,
                    knives[j].1,
                    KNIFE_CHAIN_TRIGGER_RADIUS as int,
                ) {
                let j = choose|j: int|
                    0 <= j < n && (#[trigger] knives[j]).0 == y && y != landing && spec_within_radius(
                        at,
                        knives[j].1,
                        KNIFE_CHAIN_TRIGGER_RADIUS as int,
                    );
                if j < n - 1 {
                    assert(rest.contains(y));
                }
            }
            if rest.contains(y) {
                let j = choose|j: int|
                    0 <= j < n - 1 && (#[trigger] knives[j]).0 == y && y != landing && spec_within_radius(
                        at,
                        knives[j].1,
                        KNIFE_CHAIN_TRIGGER_RADIUS as int,
                    );
                assert(0 <= j < n);
            }
        }
    }
}

/// The landing law: the landing knife is a knife lying exactly at the impact point — the
/// latest such among the first `n` — and there is none exactly when no knife lies there.
pub proof fn lemma_landing_law(knives: KnifeList, impact: FixedPoint, n: int)
    requires
        0 <= n <= knives.len(),
    ensures
        spec_landing(knives, impact, n) is None <==> forall|j: int| 0 <= j < n ==> (#[trigger] knives[j]).1 != impact,
        spec_landing(knives, impact, n) matches Some(k) ==> 0 <= k < n && knives[k].1 == impact
            && forall|j: int| k < j < n ==> (#[trigger] knives[j]).1 != impact,
    decreases n,
{
    if n > 0 {
        lemma_landing_law(knives, impact, n - 1);
    }
}

} // verus!

//! Attack-modifier resolvers: MultiStrike, GuaranteeCrit, Cluster, Return and Tunnel.
//!
//! Effect fields:
//!
//! - `MultiStrike`: `magnitude` strikes (at least one); `magnitude_secondary` packs the
//!   per-strike damage as `uncrit + crit * 1000` (percent of [`BASE_ATTACK`]);
//!   `duration_turns` is the crit chance per strike, in whole percent.
//! - `GuaranteeCrit`: `magnitude` forced crits, kept as a countdown status.
//! - `Cluster`: `magnitude` submunitions of `magnitude_secondary` percent each, capped per
//!   target at `duration_turns` percent after every submunition has landed.
//! - `Return`: two passes of `magnitude` percent, capped per target at
//!   `magnitude_secondary` percent after both passes.
//! - `Tunnel`: bores up to `magnitude` cells toward `+X` through anything but reinforced
//!   stone, then detonates; `magnitude_secondary` percent to the primary target.

use crate::error::{SimError, SimResult};
use crate::fixed::{
    clamp_i32, clamp_i64, distance_squared, scale, spec_distance_squared, spec_scale,
    spec_within_radius, within_radius, FixedPoint, BODY_WIDTH, POSITION_SCALE,
};
use crate::rng::{spec_advance, spec_bounded_value, spec_draw};
use crate::terrain::{
    self, spec_after_operation, spec_removed_count, Material, MaterialMask, TerrainOperation,
    TerrainShape,
};
use crate::types::{
    lemma_find_player, lemma_find_view, lemma_find_view_same_ids, spec_find_player, spec_find_view, spec_player_views,
    DamageView, EffectKind, PlayerState, PlayerView, SimulationState,
    SpecialEffect, StatusEffect, BASE_ATTACK,
};
use super::status::{first_of_kind, sort_by_kind, spec_apply_status, spec_first_of_kind};
use super::{
    spec_view_index, spec_zero_view,
    spec_damage_views, spec_living_opponents, spec_sort_ids, spec_string_views, spec_touch_entry,
    ResolveContext,
};
use vstd::prelude::*;

verus! {

/// Bound of one crit roll (basis points: `10_000` is certain).
pub const CRIT_ROLL_BOUND: u32 = 10000;

/// Decimal packing base of MultiStrike's two damage percents.
pub const MULTI_STRIKE_CRIT_PERCENT_SCALE: i32 = 1000;

/// Crater radius of one Cluster submunition, in cells.
pub const CLUSTER_SUBMUNITION_CRATER_RADIUS_CELLS: u16 = 3;

/// Ring spacing of Cluster submunitions.
pub const CLUSTER_RING_STEP: i32 = 2048;

/// Longest Tunnel bore, in cells.
pub const TUNNEL_MAX_BORE_CELLS: i32 = 64;

/// Radius of the Tunnel bore path, in cells.
pub const TUNNEL_BORE_RADIUS_CELLS: u16 = 1;

/// Radius of the Tunnel detonation crater, in cells.
pub const TUNNEL_DETONATION_RADIUS_CELLS: u16 = 2;

// ---------------------------------------------------------------------------------------
// Shared model
// ---------------------------------------------------------------------------------------

/// Hit points for a percent of [`BASE_ATTACK`]; an unrepresentable value is zero.
pub open spec fn spec_percent_to_hp(percent: i32) -> u16 {
    match spec_scale(BASE_ATTACK as int, percent as int, 100) {
        Some(value) => if 0 <= value <= u16::MAX {
            value as u16
        } else {
            0
        },
        None => 0,
    }
}

/// The roster and damage views after `amount` of direct damage to the player named `id`:
/// health saturates at zero, the damage actually landed is recorded, and the crit and
/// elimination flags are set (never cleared). Zero damage or an unknown player changes
/// nothing.
pub open spec fn spec_deal(
    players: Seq<PlayerView>,
    damage: Seq<DamageView>,
    id: Seq<char>,
    amount: u16,
    critical: bool,
) -> (Seq<PlayerView>, Seq<DamageView>) {
    if amount == 0 {
        (players, damage)
    } else {
        match spec_find_view(players, id) {
            None => (players, damage),
            Some(i) => {
                let before = players[i].health;
                let actual: u16 = if amount < before {
                    amount
                } else {
                    before
                };
                let health = (before - actual) as u16;
                let (touched, k) = spec_touch_entry(damage, id);
                let direct: u16 = if touched[k].direct + actual > u16::MAX {
                    u16::MAX
                } else {
                    (touched[k].direct + actual) as u16
                };
                (
                    players.update(i, PlayerView { health, ..players[i] }),
                    touched.update(
                        k,
                        DamageView {
                            direct,
                            was_critical: touched[k].was_critical || critical,
                            eliminated: touched[k].eliminated || health == 0,
                            ..touched[k]
                        },
                    ),
                )
            },
        }
    }
}

/// The part of a context attack modifiers change: roster views and damage views.
pub open spec fn spec_hits(ctx: ResolveContext) -> (Seq<PlayerView>, Seq<DamageView>) {
    (spec_player_views(ctx.state.players@), spec_damage_views(ctx.damage@))
}

/// `after` is `before` with only the roster and the damage list changed.
pub open spec fn spec_same_but_hits(after: ResolveContext, before: ResolveContext) -> bool {
    after == ResolveContext {
        state: SimulationState { players: after.state.players, ..before.state },
        damage: after.damage,
        ..before
    }
}

/// Hit points for a percent of [`BASE_ATTACK`].
fn percent_to_hp(percent: i32) -> (hp: u16)
    ensures
        hp == spec_percent_to_hp(percent),
{
    match scale(BASE_ATTACK, percent, 100) {
        Some(value) => if 0 <= value && value <= 65535 {
            value as u16
        } else {
            0
        },
        None => 0,
    }
}

/// Deals `amount` of direct damage to `id` (see [`spec_deal`]) and returns what landed.
fn deal_damage(ctx: &mut ResolveContext, id: &str, amount: u16, critical: bool) -> (landed: u16)
    ensures
        spec_hits(*final(ctx)) == spec_deal(
            spec_hits(*old(ctx)).0,
            spec_hits(*old(ctx)).1,
            id@,
            amount,
            critical,
        ),
        spec_same_but_hits(*final(ctx), *old(ctx)),
        landed <= amount,
{
    proof {
        lemma_find_view(ctx.state.players@, id@);
    }
    if amount == 0 {
        return 0;
    }
    let index = match ctx.state.player_index(id) {
        None => {
            return 0;
        },
        Some(index) => index,
    };
    let before = ctx.state.players[index].health;
    let actual: u16 = if amount < before {
        amount
    } else {
        before
    };
    let health: u16 = before - actual;
    let ghost players_before = ctx.state.players@;
    ctx.state.players[index].health = health;
    assert(spec_player_views(ctx.state.players@) =~= spec_player_views(players_before).update(
        index as int,
        PlayerView { health, ..spec_player_views(players_before)[index as int] },
    ));
    let e = ctx.touch_entry(id);
    let ghost touched = ctx.damage@;
    let current: u32 = ctx.damage[e].direct as u32;
    let direct: u16 = if current + actual as u32 > 65535 {
        65535
    } else {
        (current + actual as u32) as u16
    };
    let was_critical = ctx.damage[e].was_critical || critical;
    let eliminated = ctx.damage[e].eliminated || health == 0;
    ctx.damage[e].direct = direct;
    ctx.damage[e].was_critical = was_critical;
    ctx.damage[e].eliminated = eliminated;
    assert(spec_damage_views(ctx.damage@) =~= spec_damage_views(touched).update(
        e as int,
        DamageView { direct, was_critical, eliminated, ..spec_damage_views(touched)[e as int] },
    ));
    actual
}

// ---------------------------------------------------------------------------------------
// MultiStrike and GuaranteeCrit
// ---------------------------------------------------------------------------------------

/// The roster after one forced crit of the player named `id` is consumed, and whether one
/// was: the first GuaranteeCrit status with a positive count loses one, and an emptied
/// countdown removes every GuaranteeCrit status.
pub open spec fn spec_consume(players: Seq<PlayerView>, id: Seq<char>) -> (Seq<PlayerView>, bool) {
    match spec_find_view(players, id) {
        None => (players, false),
        Some(i) => {
            let statuses = players[i].statuses;
            match spec_first_of_kind(statuses, EffectKind::GuaranteeCrit) {
                None => (players, false),
                Some(k) => if statuses[k].magnitude <= 0 {
                    (players, false)
                } else {
                    let left = statuses[k].magnitude - 1;
                    let updated = statuses.update(k, StatusEffect { magnitude: left as i32, ..statuses[k] });
                    let kept = if left <= 0 {
                        spec_drop_kind(updated, EffectKind::GuaranteeCrit)
                    } else {
                        updated
                    };
                    (players.update(i, PlayerView { statuses: kept, ..players[i] }), true)
                },
            }
        },
    }
}

/// `statuses` without any status of `kind`, order kept.
pub open spec fn spec_drop_kind(statuses: Seq<StatusEffect>, kind: EffectKind) -> Seq<StatusEffect>
    decreases statuses.len(),
{
    if statuses.len() == 0 {
        statuses
    } else {
        let rest = spec_drop_kind(statuses.drop_last(), kind);
        if statuses.last().kind == kind {
            rest
        } else {
            rest.push(statuses.last())
        }
    }
}

/// One strike of MultiStrike against `id`: a forced crit is consumed if available,
/// otherwise the crit is rolled; then the crit or uncrit damage is dealt.
pub open spec fn spec_strike(
    world: (Seq<PlayerView>, Seq<DamageView>, u64),
    id: Seq<char>,
    uncrit_hp: u16,
    crit_hp: u16,
    chance: u32,
) -> (Seq<PlayerView>, Seq<DamageView>, u64) {
    let (players, forced) = spec_consume(world.0, id);
    let (critical, rng) = if forced {
        (true, world.2)
    } else {
        (
            spec_bounded_value(spec_draw(world.2), CRIT_ROLL_BOUND) < chance,
            spec_advance(world.2),
        )
    };
    let (after_players, after_damage) = spec_deal(
        players,
        world.1,
        id,
        if critical {
            crit_hp
        } else {
            uncrit_hp
        },
        critical,
    );
    (after_players, after_damage, rng)
}

/// `n` strikes in a row.
pub open spec fn spec_strikes(
    world: (Seq<PlayerView>, Seq<DamageView>, u64),
    id: Seq<char>,
    uncrit_hp: u16,
    crit_hp: u16,
    chance: u32,
    n: nat,
) -> (Seq<PlayerView>, Seq<DamageView>, u64)
    decreases n,
{
    if n == 0 {
        world
    } else {
        spec_strike(spec_strikes(world, id, uncrit_hp, crit_hp, chance, (n - 1) as nat), id, uncrit_hp, crit_hp, chance)
    }
}

/// The strike count of a MultiStrike effect: its magnitude, at least one.
pub open spec fn spec_strike_count(effect: SpecialEffect) -> nat {
    if effect.magnitude >= 1 {
        effect.magnitude as nat
    } else {
        1
    }
}

/// The (uncrit, crit) damage percents packed in a MultiStrike effect.
pub open spec fn spec_strike_percents(effect: SpecialEffect) -> (i32, i32) {
    let packed = if effect.magnitude_secondary > 0 {
        effect.magnitude_secondary as int
    } else {
        0
    };
    ((packed % 1000) as i32, (packed / 1000) as i32)
}

/// `after` is `before` with only the roster, the damage list and the generator changed.
pub open spec fn spec_same_but_strikes(after: ResolveContext, before: ResolveContext) -> bool {
    after == ResolveContext {
        state: SimulationState { players: after.state.players, ..before.state },
        damage: after.damage,
        rng: after.rng,
        ..before
    }
}

/// `statuses` without any status of `kind`.
fn drop_kind(statuses: &Vec<StatusEffect>, kind: EffectKind) -> (kept: Vec<StatusEffect>)
    ensures
        kept@ == spec_drop_kind(statuses@, kind),
{
    let mut kept: Vec<StatusEffect> = Vec::new();
    let mut i: usize = 0;
    assert(statuses@.subrange(0, 0) =~= Seq::<StatusEffect>::empty());
    while i < statuses.len()
        invariant
            i <= statuses@.len(),
            kept@ == spec_drop_kind(statuses@.subrange(0, i as int), kind),
        decreases statuses@.len() - i,
    {
        assert(statuses@.subrange(0, i + 1).drop_last() =~= statuses@.subrange(0, i as int));
        if statuses[i].kind != kind {
            kept.push(statuses[i]);
        }
        i = i + 1;
    }
    assert(statuses@.subrange(0, statuses@.len() as int) =~= statuses@);
    kept
}

/// Consumes one forced crit of `id`, if any (see [`spec_consume`]).
fn consume_guarantee_crit(ctx: &mut ResolveContext, id: &str) -> (forced: bool)
    ensures
        (spec_player_views(final(ctx).state.players@), forced) == spec_consume(
            spec_player_views(old(ctx).state.players@),
            id@,
        ),
        *final(ctx) == (ResolveContext {
            state: SimulationState { players: final(ctx).state.players, ..old(ctx).state },
            ..*old(ctx)
        }),
{
    proof {
        lemma_find_view(ctx.state.players@, id@);
    }
    let index = match ctx.state.player_index(id) {
        None => {
            return false;
        },
        Some(index) => index,
    };
    let k = match first_of_kind(&ctx.state.players[index].statuses, EffectKind::GuaranteeCrit) {
        None => {
            return false;
        },
        Some(k) => k,
    };
    let status = ctx.state.players[index].statuses[k];
    if status.magnitude <= 0 {
        return false;
    }
    let left = status.magnitude - 1;
    let mut updated = ctx.state.players[index].statuses.clone();
    updated.set(k, StatusEffect { magnitude: left, ..status });
    let kept = if left <= 0 {
        drop_kind(&updated, EffectKind::GuaranteeCrit)
    } else {
        updated
    };
    let ghost players_before = ctx.state.players@;
    ctx.state.players[index].statuses = kept;
    assert(spec_player_views(ctx.state.players@) =~= spec_player_views(players_before).update(
        index as int,
        PlayerView { statuses: kept@, ..spec_player_views(players_before)[index as int] },
    ));
    true
}

/// How many times a MultiStrike effect strikes: its magnitude, at least once (a
/// non-positive magnitude still means one hit rather than a silent no-op).
fn multi_strike_strike_count(effect: &SpecialEffect) -> (count: u32)
    ensures
        count as nat == spec_strike_count(*effect),
{
    if effect.magnitude >= 1 {
        effect.magnitude as u32
    } else {
        1
    }
}

/// Decodes the `(uncrit, crit)` damage percents packed in `magnitude_secondary` as
/// `uncrit + crit * MULTI_STRIKE_CRIT_PERCENT_SCALE` (a negative packing reads as zero).
fn multi_strike_damage_percents(effect: &SpecialEffect) -> (percents: (i32, i32))
    ensures
        percents == spec_strike_percents(*effect),
{
    let packed: i32 = if effect.magnitude_secondary > 0 {
        effect.magnitude_secondary
    } else {
        0
    };
    (packed % MULTI_STRIKE_CRIT_PERCENT_SCALE, packed / MULTI_STRIKE_CRIT_PERCENT_SCALE)
}

/// The per-strike crit chance in basis points: `duration_turns` carries it as a whole
/// percent.
fn multi_strike_crit_chance_basis_points(effect: &SpecialEffect) -> (chance: u32)
    ensures
        chance == effect.duration_turns * 100,
{
    effect.duration_turns as u32 * 100
}

/// The outcome of MultiStrike (see [`resolve_multi_strike`]).
pub open spec fn spec_multi_strike(
    before: ResolveContext,
    after: ResolveContext,
    effect: SpecialEffect,
    result: SimResult<()>,
) -> bool {
    match before.primary_target_id {
        None => result == Err::<(), SimError>(
            SimError::OutOfRange { field: "multi_strike.primary_target_id" },
        ) && after == before,
        Some(target) => {
            let (uncrit, crit) = spec_strike_percents(effect);
            &&& result == Ok::<(), SimError>(())
            &&& (spec_hits(after).0, spec_hits(after).1, after.rng@)
                == spec_strikes(
                (spec_hits(before).0, spec_hits(before).1, before.rng@),
                target@,
                spec_percent_to_hp(uncrit),
                spec_percent_to_hp(crit),
                (effect.duration_turns * 100) as u32,
                spec_strike_count(effect),
            )
            &&& spec_same_but_strikes(after, before)
        }
    }
}

/// MultiStrike: strikes the primary target `magnitude` times (at least once), each strike
/// consuming a forced crit when one is available and otherwise rolling its own crit.
fn resolve_multi_strike(ctx: &mut ResolveContext, effect: &SpecialEffect) -> (result: SimResult<()>)
    ensures
        spec_multi_strike(*old(ctx), *final(ctx), *effect, result),
{
    let target: String = match &ctx.primary_target_id {
        None => {
            return Err(SimError::OutOfRange { field: "multi_strike.primary_target_id" });
        },
        Some(target) => target.clone(),
    };
    let strikes = multi_strike_strike_count(effect);
    let (uncrit_percent, crit_percent) = multi_strike_damage_percents(effect);
    let uncrit_hp = percent_to_hp(uncrit_percent);
    let crit_hp = percent_to_hp(crit_percent);
    let chance = multi_strike_crit_chance_basis_points(effect);
    let ghost before = *ctx;
    let ghost start = (spec_hits(before).0, spec_hits(before).1, before.rng@);
    let mut k: u32 = 0;
    while k < strikes
        invariant
            k <= strikes,
            strikes as nat == spec_strike_count(*effect),
            (spec_hits(*ctx).0, spec_hits(*ctx).1, ctx.rng@) == spec_strikes(
                start,
                target@,
                uncrit_hp,
                crit_hp,
                chance,
                k as nat,
            ),
            spec_same_but_strikes(*ctx, before),
        decreases strikes - k,
    {
        let forced = consume_guarantee_crit(ctx, target.as_str());
        let critical = if forced {
            true
        } else {
            ctx.rng.bounded(CRIT_ROLL_BOUND) < chance
        };
        let hp = if critical {
            crit_hp
        } else {
            uncrit_hp
        };
        deal_damage(ctx, target.as_str(), hp, critical);
        k = k + 1;
    }
    Ok(())
}

/// The outcome of GuaranteeCrit (see [`resolve_guarantee_crit`]).
pub open spec fn spec_guarantee_crit(
    before: ResolveContext,
    after: ResolveContext,
    effect: SpecialEffect,
    result: SimResult<()>,
) -> bool {
    match before.primary_target_id {
        None => result == Err::<(), SimError>(
            SimError::OutOfRange { field: "guarantee_crit.primary_target_id" },
        ) && after == before,
        Some(target) => match spec_find_view(spec_player_views(before.state.players@), target@) {
            None => result == Err::<(), SimError>(SimError::UnknownDefinition) && after
                == before,
            Some(i) => {
                let views = spec_player_views(before.state.players@);
                let status = StatusEffect {
                    kind: EffectKind::GuaranteeCrit,
                    magnitude: if effect.magnitude > 0 {
                        effect.magnitude
                    } else {
                        0
                    },
                    turns_remaining: u8::MAX,
                };
                &&& result == Ok::<(), SimError>(())
                &&& spec_player_views(after.state.players@) == views.update(
                    i,
                    PlayerView {
                        statuses: spec_apply_status(views[i].statuses, status),
                        ..views[i]
                    },
                )
                &&& after == (ResolveContext {
                    state: SimulationState { players: after.state.players, ..before.state },
                    ..before
                })
            },
        }
    }
}

/// GuaranteeCrit: gives the primary target a countdown of `magnitude` forced crits
/// (replacing any countdown it had), kept as a status that never lapses by turns alone.
fn resolve_guarantee_crit(ctx: &mut ResolveContext, effect: &SpecialEffect) -> (result: SimResult<()>)
    ensures
        spec_guarantee_crit(*old(ctx), *final(ctx), *effect, result),
{
    let index = match &ctx.primary_target_id {
        None => {
            return Err(SimError::OutOfRange { field: "guarantee_crit.primary_target_id" });
        },
        Some(target) => {
            proof {
                lemma_find_view(ctx.state.players@, target@);
            }
            match ctx.state.player_index(target.as_str()) {
                None => {
                    return Err(SimError::UnknownDefinition);
                },
                Some(index) => index,
            }
        },
    };
    let status = StatusEffect {
        kind: EffectKind::GuaranteeCrit,
        magnitude: if effect.magnitude > 0 {
            effect.magnitude
        } else {
            0
        },
        turns_remaining: 255,
    };
    let mut staged = ctx.state.players[index].statuses.clone();
    match first_of_kind(&staged, EffectKind::GuaranteeCrit) {
        Some(k) => {
            staged.set(k, status);
        },
        None => {
            staged.push(status);
        },
    }
    let sorted = sort_by_kind(staged);
    let ghost players_before = ctx.state.players@;
    ctx.state.players[index].statuses = sorted;
    assert(spec_player_views(ctx.state.players@) =~= spec_player_views(players_before).update(
        index as int,
        PlayerView { statuses: sorted@, ..spec_player_views(players_before)[index as int] },
    ));
    Ok(())
}

// ---------------------------------------------------------------------------------------
// Terrain carving
// ---------------------------------------------------------------------------------------

/// The terrain bookkeeping of a context: cells, next operation sequence, the operations so
/// far and the cells removed so far.
pub type Carving = (Seq<u8>, u32, Seq<TerrainOperation>, u32);

/// The carving state of a context.
pub open spec fn spec_carving(ctx: ResolveContext) -> Carving {
    (ctx.state.terrain.cells@, ctx.state.next_terrain_sequence, ctx.terrain_ops@, ctx.terrain_cells_removed)
}

/// The carving state after one soft-material operation of `shape` takes the next sequence.
pub open spec fn spec_carve(carving: Carving, width: int, cell_count: int, shape: TerrainShape) -> Carving {
    let op = TerrainOperation { sequence: carving.1, shape, material_mask: MaterialMask::Soft };
    let removed_now = spec_removed_count(carving.0, width, cell_count, op, carving.0.len() as int);
    let removed_capped: int = if removed_now > u32::MAX {
        u32::MAX as int
    } else {
        removed_now as int
    };
    (
        spec_after_operation(carving.0, width, cell_count, op),
        if carving.1 < u32::MAX {
            (carving.1 + 1) as u32
        } else {
            carving.1
        },
        carving.2.push(op),
        if carving.3 + removed_capped > u32::MAX {
            u32::MAX
        } else {
            (carving.3 + removed_capped) as u32
        },
    )
}

/// `after` is `before` with only the terrain cells, the terrain sequence, the operation list
/// and the removal count changed.
pub open spec fn spec_same_but_carving(after: ResolveContext, before: ResolveContext) -> bool {
    after == ResolveContext {
        state: SimulationState {
            terrain: crate::terrain::TerrainMask { cells: after.state.terrain.cells, ..before.state.terrain },
            next_terrain_sequence: after.state.next_terrain_sequence,
            ..before.state
        },
        terrain_ops: after.terrain_ops,
        terrain_cells_removed: after.terrain_cells_removed,
        ..before
    }
}

/// Carves soft material in `shape` with the next terrain sequence and records it.
fn carve(ctx: &mut ResolveContext, shape: TerrainShape)
    ensures
        spec_carving(*final(ctx)) == spec_carve(
            spec_carving(*old(ctx)),
            old(ctx).state.terrain.width as int,
            old(ctx).state.terrain.width * old(ctx).state.terrain.height,
            shape,
        ),
        spec_same_but_carving(*final(ctx), *old(ctx)),
{
    let sequence = ctx.next_terrain_sequence();
    let op = TerrainOperation { sequence, shape, material_mask: MaterialMask::soft() };
    let removed = terrain::apply_operation(&mut ctx.state.terrain, &op);
    ctx.terrain_cells_removed = if ctx.terrain_cells_removed as u64 + removed as u64 > u32::MAX as u64 {
        u32::MAX
    } else {
        ctx.terrain_cells_removed + removed
    };
    ctx.terrain_ops.push(op);
}

// ---------------------------------------------------------------------------------------
// Capped multi-hit damage
// ---------------------------------------------------------------------------------------

/// Raw damage per target, one entry per target id.
pub type RawHits = Seq<(Seq<char>, u32)>;

/// The view of a raw-damage list.
pub open spec fn spec_raw_view(raw: Seq<(String, u32)>) -> RawHits {
    raw.map_values(|entry: (String, u32)| (entry.0@, entry.1))
}

/// Index of the entry for `id`, if any.
pub open spec fn spec_raw_index(raw: RawHits, id: Seq<char>) -> Option<int>
    decreases raw.len(),
{
    if raw.len() == 0 {
        None
    } else {
        match spec_raw_index(raw.drop_last(), id) {
            Some(k) => Some(k),
            None => if raw.last().0 == id {
                Some(raw.len() - 1)
            } else {
                None
            },
        }
    }
}

/// `raw` with `amount` more (saturating) recorded against `id`.
pub open spec fn spec_accumulate(raw: RawHits, id: Seq<char>, amount: u32) -> RawHits {
    match spec_raw_index(raw, id) {
        Some(k) => raw.update(
            k,
            (
                id,
                if raw[k].1 + amount > u32::MAX {
                    u32::MAX
                } else {
                    (raw[k].1 + amount) as u32
                },
            ),
        ),
        None => raw.push((id, amount)),
    }
}

/// The capped damage dealt for an accumulated raw total.
pub open spec fn spec_capped(raw: u32, cap: u16) -> u16 {
    if raw < cap {
        raw as u16
    } else {
        cap
    }
}

/// The hits after the first `n` raw totals are dealt, each capped at `cap`, in order.
pub open spec fn spec_apply_capped(
    hits: (Seq<PlayerView>, Seq<DamageView>),
    raw: RawHits,
    cap: u16,
    n: int,
) -> (Seq<PlayerView>, Seq<DamageView>)
    decreases n,
{
    if n <= 0 {
        hits
    } else {
        let before = spec_apply_capped(hits, raw, cap, n - 1);
        spec_deal(before.0, before.1, raw[n - 1].0, spec_capped(raw[n - 1].1, cap), false)
    }
}

/// Records `amount` more raw damage against `id`.
fn accumulate(raw: &mut Vec<(String, u32)>, id: &String, amount: u32)
    ensures
        spec_raw_view(final(raw)@) == spec_accumulate(
            spec_raw_view(old(raw)@),
            id@,
            amount,
        ),
{
    let ghost model = spec_raw_view(raw@);
    proof {
        lemma_raw_index(model, id@);
    }
    let mut k: usize = 0;
    while k < raw.len()
        invariant
            k <= raw@.len(),
            model == spec_raw_view(raw@),
            model == spec_raw_view(old(raw)@),
            forall|j: int| 0 <= j < k ==> model[j].0 != id@,
        decreases raw@.len() - k,
    {
        if raw[k].0 == *id {
            proof {
                lemma_raw_index_at(model, id@, k as int);
            }
            let total: u32 = if raw[k].1 as u64 + amount as u64 > u32::MAX as u64 {
                u32::MAX
            } else {
                raw[k].1 + amount
            };
            raw.set(k, (id.clone(), total));
            assert(spec_raw_view(raw@) =~= spec_accumulate(
                model,
                id@,
                amount,
            ));
            return;
        }
        k = k + 1;
    }
    raw.push((id.clone(), amount));
    assert(spec_raw_view(raw@) =~= model.push((id@, amount)));
}

/// `spec_raw_index` finds nothing only when no entry has the id.
proof fn lemma_raw_index(raw: RawHits, id: Seq<char>)
    ensures
        spec_raw_index(raw, id) is None ==> forall|j: int| 0 <= j < raw.len() ==> raw[j].0 != id,
        spec_raw_index(raw, id) matches Some(k) ==> 0 <= k < raw.len() && raw[k].0 == id,
    decreases raw.len(),
{
    if raw.len() > 0 {
        lemma_raw_index(raw.drop_last(), id);
        assert forall|j: int| 0 <= j < raw.len() - 1 implies raw.drop_last()[j] == raw[j] by {}
    }
}

/// The first entry with the id is the one `spec_raw_index` finds.
proof fn lemma_raw_index_at(raw: RawHits, id: Seq<char>, k: int)
    requires
        0 <= k < raw.len(),
        raw[k].0 == id,
        forall|j: int| 0 <= j < k ==> raw[j].0 != id,
    ensures
        spec_raw_index(raw, id) == Some(k),
    decreases raw.len(),
{
    if raw.len() - 1 > k {
        lemma_raw_index_at(raw.drop_last(), id, k);
    } else {
        lemma_raw_index(raw.drop_last(), id);
        if spec_raw_index(raw.drop_last(), id) is Some {
            let f = spec_raw_index(raw.drop_last(), id).unwrap();
            assert(raw.drop_last()[f] == raw[f]);
        }
    }
}

/// Deals every accumulated total, capped at `cap`, in order.
fn apply_capped(ctx: &mut ResolveContext, raw: &Vec<(String, u32)>, cap: u16)
    ensures
        spec_hits(*final(ctx)) == spec_apply_capped(
            spec_hits(*old(ctx)),
            spec_raw_view(raw@),
            cap,
            raw@.len() as int,
        ),
        spec_same_but_hits(*final(ctx), *old(ctx)),
{
    let ghost model = spec_raw_view(raw@);
    let ghost before = *ctx;
    let mut k: usize = 0;
    while k < raw.len()
        invariant
            k <= raw@.len(),
            model == spec_raw_view(raw@),
            spec_hits(*ctx) == spec_apply_capped(spec_hits(before), model, cap, k as int),
            spec_same_but_hits(*ctx, before),
        decreases raw@.len() - k,
    {
        let total = raw[k].1;
        let capped: u16 = if total < cap as u32 {
            total as u16
        } else {
            cap
        };
        deal_damage(ctx, raw[k].0.as_str(), capped, false);
        k = k + 1;
    }
}

// ---------------------------------------------------------------------------------------
// Cluster
// ---------------------------------------------------------------------------------------

/// The compass direction of a submunition index modulo eight.
pub open spec fn spec_spread(direction: int) -> (int, int) {
    if direction == 0 {
        (1, 0)
    } else if direction == 1 {
        (1, 1)
    } else if direction == 2 {
        (0, 1)
    } else if direction == 3 {
        (-1, 1)
    } else if direction == 4 {
        (-1, 0)
    } else if direction == 5 {
        (-1, -1)
    } else if direction == 6 {
        (0, -1)
    } else {
        (1, -1)
    }
}

/// Where submunition `index` lands: eight compass directions per ring, rings
/// [`CLUSTER_RING_STEP`] apart, all saturating.
pub open spec fn spec_cluster_landing(impact: FixedPoint, index: u32) -> FixedPoint {
    let (dx, dy) = spec_spread((index % 8) as int);
    let step = clamp_i32(CLUSTER_RING_STEP * (index / 8 + 1));
    FixedPoint {
        x: clamp_i32(impact.x + clamp_i32(dx * step)),
        y: clamp_i32(impact.y + clamp_i32(dy * step)),
    }
}

/// The nearest candidate among the first `n` of `ids` standing within one body width of
/// `point` (the first wins ties), with its squared distance.
pub open spec fn spec_nearest(players: Seq<PlayerState>, ids: Seq<Seq<char>>, point: FixedPoint, n: int) -> Option<
    (int, i64),
>
    decreases n,
{
    if n <= 0 {
        None
    } else {
        let best = spec_nearest(players, ids, point, n - 1);
        match spec_find_player(players, ids[n - 1]) {
            None => best,
            Some(i) => if spec_within_radius(players[i].position, point, BODY_WIDTH as int) {
                let distance = clamp_i64(spec_distance_squared(players[i].position, point));
                match best {
                    None => Some((n - 1, distance)),
                    Some(b) => if distance < b.1 {
                        Some((n - 1, distance))
                    } else {
                        best
                    },
                }
            } else {
                best
            },
        }
    }
}

/// Whether candidate `j` of `ids` names a roster player within one body width of `point`.
pub open spec fn spec_in_reach(players: Seq<PlayerState>, ids: Seq<Seq<char>>, point: FixedPoint, j: int) -> bool {
    spec_find_player(players, ids[j]) matches Some(i) && spec_within_radius(
        players[i].position,
        point,
        BODY_WIDTH as int,
    )
}

/// The squared distance (saturated) from `point` to the player candidate `j` names.
pub open spec fn spec_reach_distance(players: Seq<PlayerState>, ids: Seq<Seq<char>>, point: FixedPoint, j: int) -> i64 {
    clamp_i64(spec_distance_squared(players[spec_find_player(players, ids[j])->0].position, point))
}

/// The nearest-target law: among the first `n` candidates, a target is chosen exactly when
/// one is within one body width of `point`; the chosen one is in reach, no candidate in
/// reach is strictly nearer, and every earlier candidate in reach is strictly farther (ties
/// go to the earliest); the reported distance is the chosen one's.
pub proof fn lemma_nearest_is_closest(players: Seq<PlayerState>, ids: Seq<Seq<char>>, point: FixedPoint, n: int)
    requires
        0 <= n <= ids.len(),
    ensures
        spec_nearest(players, ids, point, n) is None <==> forall|j: int|
            0 <= j < n ==> !spec_in_reach(players, ids, point, j),
        spec_nearest(players, ids, point, n) matches Some(best) ==> {
            &&& 0 <= best.0 < n
            &&& spec_in_reach(players, ids, point, best.0)
            &&& best.1 == spec_reach_distance(players, ids, point, best.0)
            &&& forall|j: int|
                0 <= j < n && spec_in_reach(players, ids, point, j) ==> best.1 <= spec_reach_distance(
                    players,
                    ids,
                    point,
                    j,
                )
            &&& forall|j: int|
                0 <= j < best.0 && spec_in_reach(players, ids, point, j) ==> best.1
                    < spec_reach_distance(players, ids, point, j)
        },
    decreases n,
{
    if n > 0 {
        lemma_nearest_is_closest(players, ids, point, n - 1);
        crate::types::lemma_find_player(players, ids[n - 1]);
        if forall|j: int| 0 <= j < n ==> !spec_in_reach(players, ids, point, j) {
            assert(!spec_in_reach(players, ids, point, n - 1));
            assert forall|j: int| 0 <= j < n - 1 implies !spec_in_reach(players, ids, point, j) by {
                assert(!spec_in_reach(players, ids, point, j));
            }
        }
        if spec_nearest(players, ids, point, n) is None {
            assert forall|j: int| 0 <= j < n implies !spec_in_reach(players, ids, point, j) by {
                if j < n - 1 {
                    assert(spec_nearest(players, ids, point, n - 1) is None);
                }
            }
        }
    }
}

/// The carving and raw totals after the first `n` submunitions of a Cluster.
pub open spec fn spec_cluster(
    carving: Carving,
    raw: RawHits,
    players: Seq<PlayerState>,
    ids: Seq<Seq<char>>,
    impact: FixedPoint,
    per_hit: u16,
    width: int,
    cell_count: int,
    n: nat,
) -> (Carving, RawHits)
    decreases n,
{
    if n == 0 {
        (carving, raw)
    } else {
        let (c, r) = spec_cluster(carving, raw, players, ids, impact, per_hit, width, cell_count, (n - 1) as nat);
        let landing = spec_cluster_landing(impact, (n - 1) as u32);
        let carved = spec_carve(
            c,
            width,
            cell_count,
            TerrainShape::SubtractCircle { center: landing, radius_cells: CLUSTER_SUBMUNITION_CRATER_RADIUS_CELLS },
        );
        match spec_nearest(players, ids, landing, ids.len() as int) {
            None => (carved, r),
            Some(best) => (carved, spec_accumulate(r, ids[best.0], per_hit as u32)),
        }
    }
}

/// The direction of submunition index `direction` (taken modulo eight).
fn cluster_spread_direction(direction: u32) -> (offset: (i32, i32))
    requires
        direction < 8,
    ensures
        offset.0 as int == spec_spread(direction as int).0,
        offset.1 as int == spec_spread(direction as int).1,
{
    match direction {
        0 => (1, 0),
        1 => (1, 1),
        2 => (0, 1),
        3 => (-1, 1),
        4 => (-1, 0),
        5 => (-1, -1),
        6 => (0, -1),
        _ => (1, -1),
    }
}

/// Where submunition `index` lands around `impact` (see [`spec_cluster_landing`]).
pub fn cluster_submunition_landing(impact: FixedPoint, index: u32) -> (landing: FixedPoint)
    ensures
        landing == spec_cluster_landing(impact, index),
{
    let (dx, dy) = cluster_spread_direction(index % 8);
    let ring_scale: i32 = (index / 8) as i32 + 1;
    let step = crate::fixed::saturating_mul_i32(CLUSTER_RING_STEP, ring_scale);
    let offset_x = crate::fixed::saturating_mul_i32(dx, step);
    let offset_y = crate::fixed::saturating_mul_i32(dy, step);
    FixedPoint::new(
        crate::fixed::saturating_add_i32(impact.x, offset_x),
        crate::fixed::saturating_add_i32(impact.y, offset_y),
    )
}

/// Index of the nearest candidate within one body width of `point` (see [`spec_nearest`]).
fn nearest_living_target(state: &SimulationState, candidates: &Vec<String>, point: FixedPoint) -> (best: Option<usize>)
    ensures
        match spec_nearest(state.players@, spec_string_views(candidates@), point, candidates@.len() as int) {
            None => best is None,
            Some(b) => 0 <= b.0 < candidates@.len() && best == Some(b.0 as usize),
        },
        best matches Some(k) ==> k < candidates@.len(),
{
    let ghost ids = spec_string_views(candidates@);
    let mut best: Option<(usize, i64)> = None;
    let mut k: usize = 0;
    while k < candidates.len()
        invariant
            k <= candidates@.len(),
            ids == spec_string_views(candidates@),
            match spec_nearest(state.players@, ids, point, k as int) {
                None => best is None,
                Some(b) => 0 <= b.0 < k && best == Some((b.0 as usize, b.1)),
            },
        decreases candidates@.len() - k,
    {
        match state.player(candidates[k].as_str()) {
            None => {},
            Some(player) => {
                if within_radius(player.position, point, BODY_WIDTH) {
                    let distance = distance_squared(player.position, point);
                    best = match best {
                        None => Some((k, distance)),
                        Some(current) => if distance < current.1 {
                            Some((k, distance))
                        } else {
                            Some(current)
                        },
                    };
                }
            },
        }
        k = k + 1;
    }
    match best {
        None => None,
        Some(found) => Some(found.0),
    }
}

/// `after` is `before` with only the hits and the carving changed.
pub open spec fn spec_same_but_hits_and_carving(after: ResolveContext, before: ResolveContext) -> bool {
    after == ResolveContext {
        state: SimulationState {
            players: after.state.players,
            terrain: crate::terrain::TerrainMask { cells: after.state.terrain.cells, ..before.state.terrain },
            next_terrain_sequence: after.state.next_terrain_sequence,
            ..before.state
        },
        damage: after.damage,
        terrain_ops: after.terrain_ops,
        terrain_cells_removed: after.terrain_cells_removed,
        ..before
    }
}

/// The submunition count of a Cluster effect.
pub open spec fn spec_cluster_count(effect: SpecialEffect) -> nat {
    if effect.magnitude > 0 {
        effect.magnitude as nat
    } else {
        0
    }
}

/// The outcome of Cluster (see [`resolve_cluster`]).
pub open spec fn spec_cluster_outcome(
    before: ResolveContext,
    after: ResolveContext,
    effect: SpecialEffect,
    result: SimResult<()>,
) -> bool {
    &&& result == Ok::<(), SimError>(())
    &&& ({
        let ids = spec_sort_ids(spec_living_opponents(before.state.players@, before.actor_id@));
        let (carving, raw) = spec_cluster(
            spec_carving(before),
            Seq::empty(),
            before.state.players@,
            ids,
            before.impact_point,
            spec_percent_to_hp(effect.magnitude_secondary),
            before.state.terrain.width as int,
            before.state.terrain.width * before.state.terrain.height,
            spec_cluster_count(effect),
        );
        &&& spec_carving(after) == carving
        &&& spec_hits(after) == spec_apply_capped(
            spec_hits(before),
            raw,
            spec_percent_to_hp(effect.duration_turns as i32),
            raw.len() as int,
        )
        &&& spec_same_but_hits_and_carving(after, before)
    })
}

/// Cluster: every submunition lands on its spread point, carves a small crater and marks
/// the nearest opponent in reach; each target then takes its summed hits once, capped.
fn resolve_cluster(ctx: &mut ResolveContext, effect: &SpecialEffect) -> (result: SimResult<()>)
    ensures
        spec_cluster_outcome(*old(ctx), *final(ctx), *effect, result),
{
    let count: u32 = if effect.magnitude > 0 {
        effect.magnitude as u32
    } else {
        0
    };
    let per_hit = percent_to_hp(effect.magnitude_secondary);
    let cap = percent_to_hp(effect.duration_turns as i32);
    let impact = ctx.impact_point;
    let opponents = ctx.living_opponent_ids();
    let ghost ids = spec_string_views(opponents@);
    let ghost before = *ctx;
    let mut raw: Vec<(String, u32)> = Vec::new();
    let mut index: u32 = 0;
    while index < count
        invariant
            index <= count,
            count as nat == spec_cluster_count(*effect),
            impact == before.impact_point,
            ids == spec_string_views(opponents@),
            ids == spec_sort_ids(spec_living_opponents(before.state.players@, before.actor_id@)),
            (spec_carving(*ctx), spec_raw_view(raw@)) == spec_cluster(
                spec_carving(before),
                Seq::empty(),
                before.state.players@,
                ids,
                impact,
                per_hit,
                before.state.terrain.width as int,
                before.state.terrain.width * before.state.terrain.height,
                index as nat,
            ),
            spec_same_but_carving(*ctx, before),
        decreases count - index,
    {
        let landing = cluster_submunition_landing(impact, index);
        carve(
            ctx,
            TerrainShape::SubtractCircle {
                center: landing,
                radius_cells: CLUSTER_SUBMUNITION_CRATER_RADIUS_CELLS,
            },
        );
        assert(ctx.state.players@ == before.state.players@);
        match nearest_living_target(&ctx.state, &opponents, landing) {
            None => {},
            Some(k) => {
                assert(ids[k as int] == opponents@[k as int]@);
                accumulate(&mut raw, &opponents[k], per_hit as u32);
            },
        }
        index = index + 1;
    }
    apply_capped(ctx, &raw, cap);
    Ok(())
}

// ---------------------------------------------------------------------------------------
// Return and Tunnel
// ---------------------------------------------------------------------------------------

/// The outcome of Return (see [`resolve_return`]).
pub open spec fn spec_return(
    before: ResolveContext,
    after: ResolveContext,
    effect: SpecialEffect,
    result: SimResult<()>,
) -> bool {
    match before.primary_target_id {
        None => result == Err::<(), SimError>(
            SimError::OutOfRange { field: "return.primary_target_id" },
        ) && after == before,
        Some(primary) => {
            let back = match before.secondary_target_id {
                Some(secondary) => secondary@,
                None => primary@,
            };
            let per_pass = spec_percent_to_hp(effect.magnitude) as u32;
            let raw = spec_accumulate(
                spec_accumulate(Seq::empty(), primary@, per_pass),
                back,
                per_pass,
            );
            &&& result == Ok::<(), SimError>(())
            &&& spec_hits(after) == spec_apply_capped(
                spec_hits(before),
                raw,
                spec_percent_to_hp(effect.magnitude_secondary),
                raw.len() as int,
            )
            &&& spec_same_but_hits(after, before)
        }
    }
}

/// Return: two passes — the outbound one at the primary target and the return one at the
/// secondary target, or the primary again — summed per target and capped once.
fn resolve_return(ctx: &mut ResolveContext, effect: &SpecialEffect) -> (result: SimResult<()>)
    ensures
        spec_return(*old(ctx), *final(ctx), *effect, result),
{
    let primary: String = match &ctx.primary_target_id {
        None => {
            return Err(SimError::OutOfRange { field: "return.primary_target_id" });
        },
        Some(primary) => primary.clone(),
    };
    let back: String = match &ctx.secondary_target_id {
        Some(secondary) => secondary.clone(),
        None => primary.clone(),
    };
    let per_pass = percent_to_hp(effect.magnitude);
    let cap = percent_to_hp(effect.magnitude_secondary);
    let mut raw: Vec<(String, u32)> = Vec::new();
    assert(spec_raw_view(raw@) =~= Seq::<(Seq<char>, u32)>::empty());
    accumulate(&mut raw, &primary, per_pass as u32);
    accumulate(&mut raw, &back, per_pass as u32);
    apply_capped(ctx, &raw, cap);
    Ok(())
}

/// The cell where a bore from `x` along `+X` stops after at most `fuel` cells: before the
/// first reinforced stone.
pub open spec fn spec_bore(terrain: crate::terrain::TerrainMask, x: i32, y: i32, fuel: nat) -> i32
    decreases fuel,
{
    if fuel == 0 {
        x
    } else {
        let next = clamp_i32(x + 1);
        if terrain.spec_material_at(next as int, y as int) == Material::ReinforcedStone {
            x
        } else {
            spec_bore(terrain, next, y, (fuel - 1) as nat)
        }
    }
}

/// The bore law: a bore of at most `fuel` cells along `+X` passes every cell that is not
/// reinforced stone and stops exactly before the first reinforced stone, or after `fuel`
/// cells: it ends `k <= fuel` cells on, none of the `k` cells it entered is reinforced, and
/// when it stopped early the next cell is.
pub proof fn lemma_bore_law(terrain: crate::terrain::TerrainMask, x: i32, y: i32, fuel: nat)
    requires
        x + fuel <= i32::MAX,
    ensures
        ({
            let stop = spec_bore(terrain, x, y, fuel);
            &&& x <= stop <= x + fuel
            &&& forall|c: int|
                x < c <= stop ==> terrain.spec_material_at(c, y as int) != Material::ReinforcedStone
            &&& stop < x + fuel ==> terrain.spec_material_at(stop + 1, y as int)
                == Material::ReinforcedStone
        }),
    decreases fuel,
{
    if fuel > 0 {
        let next = clamp_i32(x + 1);
        assert(next == x + 1);
        if terrain.spec_material_at(next as int, y as int) != Material::ReinforcedStone {
            lemma_bore_law(terrain, next, y, (fuel - 1) as nat);
        }
    }
}

/// The bore length limit of a Tunnel effect.
pub open spec fn spec_bore_limit(effect: SpecialEffect) -> nat {
    if effect.magnitude < 0 {
        0
    } else if effect.magnitude > TUNNEL_MAX_BORE_CELLS {
        TUNNEL_MAX_BORE_CELLS as nat
    } else {
        effect.magnitude as nat
    }
}

/// The outcome of Tunnel (see [`resolve_tunnel`]).
pub open spec fn spec_tunnel(
    before: ResolveContext,
    after: ResolveContext,
    effect: SpecialEffect,
    result: SimResult<()>,
) -> bool {
    ({
        let start_x = crate::fixed::spec_cell_of(before.impact_point.x as int);
        let start_y = crate::fixed::spec_cell_of(before.impact_point.y as int);
        let stop_x = spec_bore(before.state.terrain, start_x as i32, start_y as i32, spec_bore_limit(effect));
        if !(i32::MIN <= stop_x * POSITION_SCALE <= i32::MAX && i32::MIN <= start_y * POSITION_SCALE
            <= i32::MAX) {
            result == Err::<(), SimError>(SimError::Overflow { context: "tunnel.stop_point" })
                && after == before
        } else {
            let stop = FixedPoint {
                x: (stop_x * POSITION_SCALE) as i32,
                y: (start_y * POSITION_SCALE) as i32,
            };
            let width = before.state.terrain.width as int;
            let cells = before.state.terrain.width * before.state.terrain.height;
            let bored = spec_carve(
                spec_carving(before),
                width,
                cells,
                TerrainShape::SubtractCapsule {
                    start: before.impact_point,
                    end: stop,
                    radius_cells: TUNNEL_BORE_RADIUS_CELLS,
                },
            );
            &&& result == Ok::<(), SimError>(())
            &&& spec_carving(after) == spec_carve(
                bored,
                width,
                cells,
                TerrainShape::SubtractCircle { center: stop, radius_cells: TUNNEL_DETONATION_RADIUS_CELLS },
            )
            &&& spec_hits(after) == match before.primary_target_id {
                None => spec_hits(before),
                Some(target) => spec_deal(
                    spec_hits(before).0,
                    spec_hits(before).1,
                    target@,
                    spec_percent_to_hp(effect.magnitude_secondary),
                    false,
                ),
            }
            &&& spec_same_but_hits_and_carving(after, before)
        }
    })
}

/// Tunnel: bores toward `+X` from the impact cell, stopping before reinforced stone, then
/// carves the bore path and a detonation crater (soft material only) and damages the
/// primary target, if any. A stopping point outside the fixed-point range is an error.
fn resolve_tunnel(ctx: &mut ResolveContext, effect: &SpecialEffect) -> (result: SimResult<()>)
    ensures
        spec_tunnel(*old(ctx), *final(ctx), *effect, result),
{
    let limit: i32 = if effect.magnitude < 0 {
        0
    } else if effect.magnitude > TUNNEL_MAX_BORE_CELLS {
        TUNNEL_MAX_BORE_CELLS
    } else {
        effect.magnitude
    };
    let (start_x, start_y) = ctx.impact_point.to_cells();
    let ghost goal = spec_bore(ctx.state.terrain, start_x, start_y, limit as nat);
    let mut stop_x = start_x;
    let mut done = false;
    let mut k: i32 = 0;
    while k < limit && !done
        invariant
            0 <= k <= limit,
            done ==> goal == stop_x,
            !done ==> goal == spec_bore(ctx.state.terrain, stop_x, start_y, (limit - k) as nat),
        decreases limit - k,
    {
        let next_x = crate::fixed::saturating_add_i32(stop_x, 1);
        if terrain::material_at(&ctx.state.terrain, next_x, start_y) == Material::ReinforcedStone {
            done = true;
        } else {
            stop_x = next_x;
        }
        k = k + 1;
    }
    let stop = match FixedPoint::from_cells(stop_x, start_y) {
        None => {
            return Err(SimError::Overflow { context: "tunnel.stop_point" });
        },
        Some(point) => point,
    };
    let impact = ctx.impact_point;
    carve(
        ctx,
        TerrainShape::SubtractCapsule {
            start: impact,
            end: stop,
            radius_cells: TUNNEL_BORE_RADIUS_CELLS,
        },
    );
    carve(
        ctx,
        TerrainShape::SubtractCircle { center: stop, radius_cells: TUNNEL_DETONATION_RADIUS_CELLS },
    );
    let target: Option<String> = match &ctx.primary_target_id {
        None => None,
        Some(target) => Some(target.clone()),
    };
    match target {
        None => {},
        Some(target) => {
            let hp = percent_to_hp(effect.magnitude_secondary);
            deal_damage(ctx, target.as_str(), hp, false);
        },
    }
    Ok(())
}

/// What [`resolve`] does with `effect` in `before`: the context it leaves and the result.
pub open spec fn spec_resolve_outcome(
    before: ResolveContext,
    after: ResolveContext,
    effect: SpecialEffect,
    result: SimResult<()>,
) -> bool {
    &&& (effect.kind == EffectKind::MultiStrike ==> spec_multi_strike(before, after, effect, result))
    &&& (effect.kind == EffectKind::GuaranteeCrit ==> spec_guarantee_crit(before, after, effect, result))
    &&& (effect.kind == EffectKind::Cluster ==> spec_cluster_outcome(before, after, effect, result))
    &&& (effect.kind == EffectKind::Return ==> spec_return(before, after, effect, result))
    &&& (effect.kind == EffectKind::Tunnel ==> spec_tunnel(before, after, effect, result))
    &&& (!(effect.kind == EffectKind::MultiStrike || effect.kind == EffectKind::GuaranteeCrit
            || effect.kind == EffectKind::Cluster || effect.kind == EffectKind::Return || effect.kind
            == EffectKind::Tunnel) ==> result == Err::<(), SimError>(
            SimError::OutOfRange { field: "effect.kind (not an attack_mods-family effect)" }
        ) && after == before)
}

/// Resolves an attack-modifier effect: MultiStrike, GuaranteeCrit, Cluster, Return or
/// Tunnel. Any other kind is refused.
pub fn resolve(ctx: &mut ResolveContext, effect: &SpecialEffect) -> (result: SimResult<()>)
    ensures
        spec_resolve_outcome(*old(ctx), *final(ctx), *effect, result),
{
    match effect.kind {
        EffectKind::MultiStrike => resolve_multi_strike(ctx, effect),
        EffectKind::GuaranteeCrit => resolve_guarantee_crit(ctx, effect),
        EffectKind::Cluster => resolve_cluster(ctx, effect),
        EffectKind::Return => resolve_return(ctx, effect),
        EffectKind::Tunnel => resolve_tunnel(ctx, effect),
        _ => Err(SimError::OutOfRange { field: "effect.kind (not an attack_mods-family effect)" }),
    }
}

// ---------------------------------------------------------------------------------------
// Laws
// ---------------------------------------------------------------------------------------

/// The direct damage recorded for `id` (zero without an entry).
pub open spec fn spec_direct_of(damage: Seq<DamageView>, id: Seq<char>) -> int {
    match spec_view_index(damage, id) {
        Some(k) => damage[k].direct as int,
        None => 0,
    }
}

/// Whether the ids of the first `n` raw totals are pairwise distinct.
pub open spec fn spec_raw_unique(raw: RawHits, n: int) -> bool {
    forall|i: int, j: int| 0 <= i < j < n ==> (#[trigger] raw[i]).0 != (#[trigger] raw[j]).0
}

pub(crate) proof fn lemma_view_index_facts(damage: Seq<DamageView>, id: Seq<char>)
    ensures
        spec_view_index(damage, id) matches Some(k) ==> 0 <= k < damage.len() && damage[k].player_id
            == id && forall|j: int| 0 <= j < k ==> damage[j].player_id != id,
        spec_view_index(damage, id) is None ==> forall|j: int|
            0 <= j < damage.len() ==> damage[j].player_id != id,
    decreases damage.len(),
{
    if damage.len() > 0 {
        let prefix = damage.drop_last();
        lemma_view_index_facts(prefix, id);
        assert forall|j: int| 0 <= j < prefix.len() implies prefix[j] == damage[j] by {}
    }
}

pub(crate) proof fn lemma_view_index_unique(damage: Seq<DamageView>, id: Seq<char>, k: int)
    requires
        0 <= k < damage.len(),
        damage[k].player_id == id,
        forall|j: int| 0 <= j < k ==> damage[j].player_id != id,
    ensures
        spec_view_index(damage, id) == Some(k),
{
    lemma_view_index_facts(damage, id);
    match spec_view_index(damage, id) {
        Some(f) => {
            if f < k {
            } else if f > k {
            }
        },
        None => {},
    }
}

/// Replacing an entry by one with the same owner finds the same indices.
pub(crate) proof fn lemma_view_index_update(damage: Seq<DamageView>, k: int, entry: DamageView, id: Seq<char>)
    requires
        0 <= k < damage.len(),
        entry.player_id == damage[k].player_id,
    ensures
        spec_view_index(damage.update(k, entry), id) == spec_view_index(damage, id),
{
    let updated = damage.update(k, entry);
    lemma_view_index_facts(damage, id);
    lemma_view_index_facts(updated, id);
    match spec_view_index(damage, id) {
        Some(f) => lemma_view_index_unique(updated, id, f),
        None => {
            if spec_view_index(updated, id) is Some {
                let f = spec_view_index(updated, id).unwrap();
                assert(updated[f].player_id == damage[f].player_id);
            }
        },
    }
}

/// Dealing damage to `target` leaves every other id's direct damage unchanged, and raises
/// the target's by at most `amount`.
proof fn lemma_deal_direct(
    players: Seq<PlayerView>,
    damage: Seq<DamageView>,
    target: Seq<char>,
    amount: u16,
    critical: bool,
    id: Seq<char>,
)
    ensures
        id != target ==> spec_direct_of(spec_deal(players, damage, target, amount, critical).1, id)
            == spec_direct_of(damage, id),
        spec_direct_of(spec_deal(players, damage, target, amount, critical).1, id)
            <= spec_direct_of(damage, id) + amount,
{
    if amount != 0 {
        match spec_find_view(players, target) {
            None => {},
            Some(i) => {
                let (touched, k) = super::spec_touch_entry(damage, target);
                lemma_view_index_facts(damage, target);
                lemma_view_index_facts(damage, id);
                if spec_view_index(damage, target) is None {
                    let pushed = damage.push(spec_zero_view(target));
                    assert(pushed.drop_last() =~= damage);
                    if id != target {
                        assert(spec_view_index(pushed, id) == spec_view_index(damage, id));
                    }
                }
                let result = spec_deal(players, damage, target, amount, critical).1;
                let entry = result[k];
                assert(entry.player_id == touched[k].player_id);
                lemma_view_index_update(touched, k, entry, id);
                assert(result == touched.update(k, entry));
                lemma_view_index_facts(touched, id);
                if id == target {
                    lemma_view_index_facts(touched, target);
                }
            },
        }
    }
}

/// Capped multi-hit damage never lets a target take more than the cap in direct damage:
/// each of the first `n` distinct ids gains at most `cap`, every other id gains nothing.
pub proof fn lemma_capped_bound(
    hits: (Seq<PlayerView>, Seq<DamageView>),
    raw: RawHits,
    cap: u16,
    n: int,
    id: Seq<char>,
)
    requires
        0 <= n <= raw.len(),
        spec_raw_unique(raw, n),
    ensures
        (forall|j: int| 0 <= j < n ==> (#[trigger] raw[j]).0 != id) ==> spec_direct_of(
            spec_apply_capped(hits, raw, cap, n).1,
            id,
        ) == spec_direct_of(hits.1, id),
        spec_direct_of(spec_apply_capped(hits, raw, cap, n).1, id) <= spec_direct_of(hits.1, id)
            + cap,
    decreases n,
{
    if n > 0 {
        lemma_capped_bound(hits, raw, cap, n - 1, id);
        let middle = spec_apply_capped(hits, raw, cap, n - 1);
        let amount = spec_capped(raw[n - 1].1, cap);
        lemma_deal_direct(middle.0, middle.1, raw[n - 1].0, amount, false, id);
        if raw[n - 1].0 == id {
            assert forall|j: int| 0 <= j < n - 1 implies (#[trigger] raw[j]).0 != id by {
                assert(raw[j].0 != raw[n - 1].0);
            }
        }
    }
}

/// Accumulating keeps the ids of a raw list distinct.
proof fn lemma_accumulate_unique(raw: RawHits, id: Seq<char>, amount: u32)
    requires
        spec_raw_unique(raw, raw.len() as int),
    ensures
        spec_raw_unique(spec_accumulate(raw, id, amount), spec_accumulate(raw, id, amount).len() as int),
{
    lemma_raw_index(raw, id);
    let out = spec_accumulate(raw, id, amount);
    assert forall|i: int, j: int| 0 <= i < j < out.len() implies (#[trigger] out[i]).0 != (
    #[trigger] out[j]).0 by {
        assert(out[i].0 == (if i < raw.len() { raw[i].0 } else { id }));
        assert(out[j].0 == (if j < raw.len() { raw[j].0 } else { id }));
    }
}

/// A Cluster's raw totals carry distinct ids.
proof fn lemma_cluster_unique(
    carving: Carving,
    players: Seq<PlayerState>,
    ids: Seq<Seq<char>>,
    impact: FixedPoint,
    per_hit: u16,
    width: int,
    cell_count: int,
    n: nat,
)
    ensures
        ({
            let raw = spec_cluster(carving, Seq::empty(), players, ids, impact, per_hit, width, cell_count, n).1;
            spec_raw_unique(raw, raw.len() as int)
        }),
    decreases n,
{
    if n > 0 {
        lemma_cluster_unique(carving, players, ids, impact, per_hit, width, cell_count, (n - 1) as nat);
        let r = spec_cluster(carving, Seq::empty(), players, ids, impact, per_hit, width, cell_count, (n - 1) as nat).1;
        let landing = spec_cluster_landing(impact, (n - 1) as u32);
        match spec_nearest(players, ids, landing, ids.len() as int) {
            None => {},
            Some(best) => lemma_accumulate_unique(r, ids[best.0], per_hit as u32),
        }
    }
}

/// Cluster enforces its per-target cap after every submunition has landed: no player's
/// recorded direct damage grows by more than the cap.
pub proof fn lemma_cluster_respects_cap(
    before: ResolveContext,
    after: ResolveContext,
    effect: SpecialEffect,
    result: SimResult<()>,
    id: Seq<char>,
)
    requires
        spec_cluster_outcome(before, after, effect, result),
    ensures
        spec_direct_of(spec_damage_views(after.damage@), id) <= spec_direct_of(
            spec_damage_views(before.damage@),
            id,
        ) + spec_percent_to_hp(effect.duration_turns as i32),
{
    let ids = spec_sort_ids(spec_living_opponents(before.state.players@, before.actor_id@));
    let width = before.state.terrain.width as int;
    let cells = before.state.terrain.width * before.state.terrain.height;
    let per_hit = spec_percent_to_hp(effect.magnitude_secondary);
    lemma_cluster_unique(
        spec_carving(before),
        before.state.players@,
        ids,
        before.impact_point,
        per_hit,
        width,
        cells,
        spec_cluster_count(effect),
    );
    let raw = spec_cluster(
        spec_carving(before),
        Seq::empty(),
        before.state.players@,
        ids,
        before.impact_point,
        per_hit,
        width,
        cells,
        spec_cluster_count(effect),
    ).1;
    lemma_capped_bound(
        spec_hits(before),
        raw,
        spec_percent_to_hp(effect.duration_turns as i32),
        raw.len() as int,
        id,
    );
}

/// Return enforces its per-target cap after both passes: no player's recorded direct
/// damage grows by more than the cap, even when both passes hit the same target.
pub proof fn lemma_return_respects_cap(
    before: ResolveContext,
    after: ResolveContext,
    effect: SpecialEffect,
    result: SimResult<()>,
    id: Seq<char>,
)
    requires
        spec_return(before, after, effect, result),
    ensures
        spec_direct_of(spec_damage_views(after.damage@), id) <= spec_direct_of(
            spec_damage_views(before.damage@),
            id,
        ) + spec_percent_to_hp(effect.magnitude_secondary),
{
    match before.primary_target_id {
        None => {},
        Some(primary) => {
            let back = match before.secondary_target_id {
                Some(secondary) => secondary@,
                None => primary@,
            };
            let per_pass = spec_percent_to_hp(effect.magnitude) as u32;
            let first = spec_accumulate(Seq::empty(), primary@, per_pass);
            lemma_accumulate_unique(Seq::empty(), primary@, per_pass);
            lemma_accumulate_unique(first, back, per_pass);
            let raw = spec_accumulate(first, back, per_pass);
            lemma_capped_bound(
                spec_hits(before),
                raw,
                spec_percent_to_hp(effect.magnitude_secondary),
                raw.len() as int,
                id,
            );
        },
    }
}

/// Health left after `amount` of direct damage: it drops by what is left at most.
pub open spec fn spec_health_after(health: u16, amount: u16) -> int {
    health - if amount < health {
        amount as int
    } else {
        health as int
    }
}

/// Dealing damage to a present player changes only that player's health.
proof fn lemma_deal_health(
    players: Seq<PlayerView>,
    damage: Seq<DamageView>,
    id: Seq<char>,
    amount: u16,
    critical: bool,
    i: int,
)
    requires
        0 <= i < players.len(),
        spec_find_view(players, id) == Some(i),
    ensures
        ({
            let after = spec_deal(players, damage, id, amount, critical).0;
            &&& after.len() == players.len()
            &&& after[i] == (PlayerView {
                health: spec_health_after(players[i].health, amount) as u16,
                ..players[i]
            })
            &&& forall|j: int| 0 <= j < players.len() && j != i ==> after[j] == players[j]
        }),
{
    if amount == 0 {
        assert(players[i] == (PlayerView { health: players[i].health, ..players[i] }));
    }
}

/// Direct damage recorded after adding `dealt`, saturating at `u16::MAX`.
pub open spec fn spec_direct_grown(previous: int, dealt: int) -> int {
    if previous + dealt <= u16::MAX {
        previous + dealt
    } else {
        u16::MAX as int
    }
}

/// Dealing `amount` to the player at `i` records exactly the health it took as direct
/// damage against that player (saturating).
proof fn lemma_deal_direct_exact(
    players: Seq<PlayerView>,
    damage: Seq<DamageView>,
    id: Seq<char>,
    amount: u16,
    critical: bool,
    i: int,
)
    requires
        0 <= i < players.len(),
        spec_find_view(players, id) == Some(i),
        spec_direct_of(damage, id) <= u16::MAX,
    ensures
        spec_direct_of(spec_deal(players, damage, id, amount, critical).1, id) == spec_direct_grown(
            spec_direct_of(damage, id),
            players[i].health - spec_health_after(players[i].health, amount),
        ),
{
    if amount != 0 {
        let (touched, k) = super::spec_touch_entry(damage, id);
        lemma_view_index_facts(damage, id);
        if spec_view_index(damage, id) is None {
            let pushed = damage.push(spec_zero_view(id));
            assert(pushed.drop_last() =~= damage);
            lemma_view_index_facts(pushed, id);
        }
        lemma_view_index_facts(touched, id);
        let result = spec_deal(players, damage, id, amount, critical).1;
        let entry = result[k];
        assert(entry.player_id == touched[k].player_id);
        lemma_view_index_update(touched, k, entry, id);
        assert(result == touched.update(k, entry));
    }
}

proof fn lemma_find_view_bounded(players: Seq<PlayerView>, id: Seq<char>)
    ensures
        spec_find_view(players, id) matches Some(i) ==> 0 <= i < players.len() && players[i].id == id,
    decreases players.len(),
{
    if players.len() > 0 {
        lemma_find_view_bounded(players.drop_last(), id);
    }
}

/// The damage law shared by every attack modifier: dealing `amount` to a present player
/// takes `min(amount, health)` from that player's health and from nobody else's, and
/// records exactly what it took as direct damage against that player (saturating at
/// `u16::MAX`). Dealing to an absent player, or dealing nothing, changes nothing.
pub proof fn lemma_deal_law(
    players: Seq<PlayerView>,
    damage: Seq<DamageView>,
    id: Seq<char>,
    amount: u16,
    critical: bool,
)
    ensures
        spec_find_view(players, id) is None || amount == 0 ==> spec_deal(
            players,
            damage,
            id,
            amount,
            critical,
        ) == (players, damage),
        match spec_find_view(players, id) {
            None => true,
            Some(i) => spec_direct_of(damage, id) <= u16::MAX ==> {
            let (after, recorded) = spec_deal(players, damage, id, amount, critical);
            let taken = if amount < players[i].health {
                amount as int
            } else {
                players[i].health as int
            };
            &&& after.len() == players.len()
            &&& after[i].health == players[i].health - taken
            &&& after[i] == (PlayerView { health: after[i].health, ..players[i] })
            &&& forall|j: int| 0 <= j < players.len() && j != i ==> after[j] == players[j]
            &&& spec_direct_of(recorded, id) == if spec_direct_of(damage, id) + taken <= u16::MAX {
                spec_direct_of(damage, id) + taken
            } else {
                u16::MAX as int
            }
        },
        },
{
    lemma_find_view_bounded(players, id);
    match spec_find_view(players, id) {
        Some(i) => {
            if spec_direct_of(damage, id) <= u16::MAX {
                lemma_deal_health(players, damage, id, amount, critical, i);
                lemma_deal_direct_exact(players, damage, id, amount, critical, i);
            }
        },
        None => {},
    }
}

proof fn lemma_consume_keeps_vitals(players: Seq<PlayerView>, id: Seq<char>)
    ensures
        spec_consume(players, id).0.len() == players.len(),
        forall|j: int|
            0 <= j < players.len() ==> (#[trigger] spec_consume(players, id).0[j]).health
                == players[j].health && spec_consume(players, id).0[j].id == players[j].id,
{
    lemma_find_view_bounded(players, id);
}

/// The MultiStrike law: `n` strikes at a present target, each dealing the uncrit or the
/// crit amount, take from it at least `n · min(uncrit, crit)` (or all its health) and at
/// most `n · max(uncrit, crit)`, take nothing from anyone else, and record exactly what they
/// took as direct damage against it (when the record cannot saturate).
pub proof fn lemma_strikes_law(
    world: (Seq<PlayerView>, Seq<DamageView>, u64),
    id: Seq<char>,
    uncrit_hp: u16,
    crit_hp: u16,
    chance: u32,
    n: nat,
    i: int,
)
    requires
        spec_find_view(world.0, id) == Some(i),
        spec_direct_of(world.1, id) + world.0[i].health <= u16::MAX,
    ensures
        ({
            let after = spec_strikes(world, id, uncrit_hp, crit_hp, chance, n);
            let lost = world.0[i].health - after.0[i].health;
            let low = if uncrit_hp < crit_hp {
                uncrit_hp as int
            } else {
                crit_hp as int
            };
            let high = if uncrit_hp < crit_hp {
                crit_hp as int
            } else {
                uncrit_hp as int
            };
            &&& after.0.len() == world.0.len()
            &&& spec_find_view(after.0, id) == Some(i)
            &&& 0 <= lost <= n * high
            &&& after.0[i].health == 0 || lost >= n * low
            &&& spec_direct_of(after.1, id) == spec_direct_of(world.1, id) + lost
            &&& forall|j: int|
                0 <= j < world.0.len() && j != i ==> (#[trigger] after.0[j]).health == world.0[j].health
        }),
    decreases n,
{
    lemma_find_view_bounded(world.0, id);
    if n > 0 {
        lemma_strikes_law(world, id, uncrit_hp, crit_hp, chance, (n - 1) as nat, i);
        let mid = spec_strikes(world, id, uncrit_hp, crit_hp, chance, (n - 1) as nat);
        let (consumed, forced) = spec_consume(mid.0, id);
        lemma_consume_keeps_vitals(mid.0, id);
        lemma_find_view_same_ids(consumed, mid.0, id);
        let critical = if forced {
            true
        } else {
            spec_bounded_value(spec_draw(mid.2), CRIT_ROLL_BOUND) < chance
        };
        let amount = if critical {
            crit_hp
        } else {
            uncrit_hp
        };
        lemma_deal_law(consumed, mid.1, id, amount, critical);
        let after = spec_strikes(world, id, uncrit_hp, crit_hp, chance, n);
        let dealt = spec_deal(consumed, mid.1, id, amount, critical);
        assert(after.0 == dealt.0 && after.1 == dealt.1);
        assert(consumed[i].health == mid.0[i].health);
        lemma_find_view_same_ids(dealt.0, consumed, id);
        let low = if uncrit_hp < crit_hp {
            uncrit_hp as int
        } else {
            crit_hp as int
        };
        let high = if uncrit_hp < crit_hp {
            crit_hp as int
        } else {
            uncrit_hp as int
        };
        assert((n - 1) * high + high == n * high) by (nonlinear_arith);
        assert((n - 1) * low + low == n * low) by (nonlinear_arith);
        assert forall|j: int| 0 <= j < world.0.len() && j != i implies (#[trigger] after.0[j]).health
            == world.0[j].health by {
            assert(consumed[j].health == mid.0[j].health);
        }
    }
}

/// The MultiStrike effect law: a MultiStrike at a present primary target strikes it
/// `max(magnitude, 1)` times, each strike dealing the uncrit (`magnitude_secondary % 1000`
/// percent of the base attack) or the crit (`magnitude_secondary / 1000` percent) amount:
/// the target loses at least that many of the smaller amount (or all its health) and at
/// most that many of the larger, nobody else loses health, and the record grows by exactly
/// what was lost.
pub proof fn lemma_multi_strike_law(
    before: ResolveContext,
    after: ResolveContext,
    effect: SpecialEffect,
    result: SimResult<()>,
    i: int,
)
    requires
        spec_multi_strike(before, after, effect, result),
        before.primary_target_id matches Some(target) && spec_find_view(spec_hits(before).0, target@)
            == Some(i),
        spec_direct_of(spec_hits(before).1, before.primary_target_id->0@) + spec_hits(before).0[i].health
            <= u16::MAX,
    ensures
        ({
            let count = if effect.magnitude >= 1 {
                effect.magnitude as int
            } else {
                1
            };
            let packed = if effect.magnitude_secondary > 0 {
                effect.magnitude_secondary as int
            } else {
                0
            };
            let uncrit = spec_percent_to_hp((packed % 1000) as i32) as int;
            let crit = spec_percent_to_hp((packed / 1000) as i32) as int;
            let low = if uncrit < crit {
                uncrit
            } else {
                crit
            };
            let high = if uncrit < crit {
                crit
            } else {
                uncrit
            };
            let old = spec_hits(before).0;
            let new = spec_hits(after).0;
            let lost = old[i].health - new[i].health;
            let id = before.primary_target_id->0@;
            &&& result is Ok
            &&& new.len() == old.len()
            &&& 0 <= lost <= count * high
            &&& new[i].health == 0 || lost >= count * low
            &&& spec_direct_of(spec_hits(after).1, id) == spec_direct_of(spec_hits(before).1, id) + lost
            &&& forall|j: int| 0 <= j < old.len() && j != i ==> (#[trigger] new[j]).health == old[j].health
        }),
{
    let target = before.primary_target_id->0;
    let (u, c) = spec_strike_percents(effect);
    lemma_strikes_law(
        (spec_hits(before).0, spec_hits(before).1, before.rng@),
        target@,
        spec_percent_to_hp(u),
        spec_percent_to_hp(c),
        (effect.duration_turns * 100) as u32,
        spec_strike_count(effect),
        i,
    );
}

/// Return's damage per target: the same target hit on both passes loses the sum of the two
/// passes capped once; two different targets each lose one pass, capped. Nobody else
/// changes.
pub proof fn lemma_return_health(
    before: ResolveContext,
    after: ResolveContext,
    effect: SpecialEffect,
    result: SimResult<()>,
    primary: int,
    back: int,
)
    requires
        spec_return(before, after, effect, result),
        before.primary_target_id matches Some(p) && spec_find_player(before.state.players@, p@)
            == Some(primary),
        match before.secondary_target_id {
            Some(s) => spec_find_player(before.state.players@, s@) == Some(back),
            None => back == primary,
        },
    ensures
        ({
            let old_players = spec_player_views(before.state.players@);
            let new_players = spec_player_views(after.state.players@);
            let per_pass = spec_percent_to_hp(effect.magnitude);
            let cap = spec_percent_to_hp(effect.magnitude_secondary);
            &&& result == Ok::<(), SimError>(())
            &&& new_players.len() == old_players.len()
            &&& primary == back ==> new_players[primary].health == spec_health_after(
                old_players[primary].health,
                spec_capped((2 * per_pass) as u32, cap),
            )
            &&& primary != back ==> new_players[primary].health == spec_health_after(
                old_players[primary].health,
                spec_capped(per_pass as u32, cap),
            ) && new_players[back].health == spec_health_after(
                old_players[back].health,
                spec_capped(per_pass as u32, cap),
            )
            &&& forall|j: int|
                0 <= j < old_players.len() && j != primary && j != back ==> new_players[j]
                    == old_players[j]
            &&& forall|j: int|
                #![trigger new_players[j]]
                0 <= j < old_players.len() && (j == primary || j == back) ==> spec_direct_of(
                    spec_damage_views(after.damage@),
                    old_players[j].id,
                ) == spec_direct_grown(
                    spec_direct_of(spec_damage_views(before.damage@), old_players[j].id),
                    old_players[j].health - new_players[j].health,
                )
        }),
{
    let p = before.primary_target_id->Some_0;
    let players = spec_player_views(before.state.players@);
    let damage = spec_damage_views(before.damage@);
    let back_id = match before.secondary_target_id {
        Some(secondary) => secondary@,
        None => p@,
    };
    lemma_find_player(before.state.players@, p@);
    lemma_find_view(before.state.players@, p@);
    lemma_find_player(before.state.players@, back_id);
    lemma_find_view(before.state.players@, back_id);
    let per_pass = spec_percent_to_hp(effect.magnitude) as u32;
    let cap = spec_percent_to_hp(effect.magnitude_secondary);
    let first = spec_accumulate(Seq::empty(), p@, per_pass);
    assert(first == seq![(p@, per_pass)]);
    assert(first.drop_last() =~= Seq::<(Seq<char>, u32)>::empty());
    assert(spec_raw_index(first.drop_last(), back_id) is None);
    let raw = spec_accumulate(first, back_id, per_pass);
    assert(spec_apply_capped((players, damage), raw, cap, 0) == (players, damage));
    if back_id == p@ {
        assert(spec_raw_index(first, p@) == Some(0int));
        assert(raw == seq![(p@, (per_pass + per_pass) as u32)]);
        assert(spec_apply_capped((players, damage), raw, cap, 1) == spec_deal(
            players,
            damage,
            p@,
            spec_capped(raw[0].1, cap),
            false,
        ));
        lemma_deal_health(players, damage, p@, spec_capped(raw[0].1, cap), false, primary);
        lemma_deal_direct_exact(players, damage, p@, spec_capped(raw[0].1, cap), false, primary);
    } else {
        assert(spec_raw_index(first, back_id) is None);
        assert(raw == seq![(p@, per_pass), (back_id, per_pass)]);
        assert(primary != back);
        let once = spec_apply_capped((players, damage), raw, cap, 1);
        assert(once == spec_deal(players, damage, p@, spec_capped(per_pass, cap), false));
        lemma_deal_health(players, damage, p@, spec_capped(per_pass, cap), false, primary);
        lemma_deal_direct_exact(players, damage, p@, spec_capped(per_pass, cap), false, primary);
        lemma_deal_direct(players, damage, p@, spec_capped(per_pass, cap), false, back_id);
        assert forall|j: int| 0 <= j < once.0.len() implies once.0[j].id == players[j].id by {
            if j != primary {
                assert(once.0[j] == players[j]);
            }
        }
        lemma_find_view_same_ids(once.0, players, back_id);
        assert(spec_apply_capped((players, damage), raw, cap, 2) == spec_deal(
            once.0,
            once.1,
            back_id,
            spec_capped(per_pass, cap),
            false,
        ));
        lemma_deal_health(once.0, once.1, back_id, spec_capped(per_pass, cap), false, back);
        lemma_deal_direct_exact(once.0, once.1, back_id, spec_capped(per_pass, cap), false, back);
        lemma_deal_direct(once.0, once.1, back_id, spec_capped(per_pass, cap), false, p@);
    }
}

} // verus!

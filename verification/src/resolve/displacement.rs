//! Displacement-family resolvers: Knockback, Push, Pull, Recoil and WallImpact.
//!
//! Every displacement is swept one step at a time and stops at the first solid cell, so a
//! displaced character never passes through terrain. Effect fields:
//!
//! | Kind | `magnitude` | `magnitude_secondary` |
//! |---|---|---|
//! | `Knockback`, `Push` | displacement, fixed-point | radius (0 or less: the primary target only, at full strength) |
//! | `Pull` | displacement, fixed-point | HP threshold in basis points (0 = half) |
//! | `Recoil` | displacement, fixed-point | unused |
//! | `WallImpact` | bonus damage, percent of [`BASE_ATTACK`] | unused |

use crate::error::{SimError, SimResult};
use crate::fixed::{
    abs_int, apply_basis_points, clamp_i32, clamp_i64, distance_squared, round_divide, scale,
    spec_distance_squared, spec_point_add, spec_point_sub, spec_round_div, spec_scale,
    FixedPoint, BASIS_POINTS,
};
use crate::movement::{is_locked_down, spec_player_locked};
use crate::terrain::{self, TerrainMask};
use crate::types::{
    lemma_find_player, spec_find_player, DamageView, EffectKind, PlayerState, SimulationState,
    SpecialEffect, BASE_ATTACK,
};
use super::{
    lemma_living_opponents_strictly_ascending, spec_add_knockback, spec_damage_views, spec_living_opponents, spec_sort_ids,
    spec_string_views, spec_touch_entry, spec_view_index, spec_zero_view, lemma_damage_index_views,
    ResolveContext,
};
use super::attack_mods::{lemma_view_index_facts, lemma_view_index_unique};
use vstd::prelude::*;

verus! {

/// Step length of a swept displacement (a quarter cell).
pub const SWEEP_STEP: i32 = 256;

/// Default `Pull` health threshold: half of max health, in basis points.
pub const DEFAULT_PULL_THRESHOLD_BP: i32 = 5000;

/// Iteration cap for a single sweep.
pub const MAX_SWEEP_STEPS: u32 = 512;

// ---------------------------------------------------------------------------------------
// Model
// ---------------------------------------------------------------------------------------

/// The part of a resolve context displacement changes: the roster and the damage views.
pub type World = (Seq<PlayerState>, Seq<DamageView>);

/// The world of a context.
pub open spec fn spec_world(ctx: ResolveContext) -> World {
    (ctx.state.players@, spec_damage_views(ctx.damage@))
}

/// `after` is `before` with only the roster and the damage list changed.
pub open spec fn spec_same_but_world(after: ResolveContext, before: ResolveContext) -> bool {
    after == ResolveContext {
        state: SimulationState { players: after.state.players, ..before.state },
        damage: after.damage,
        ..before
    }
}

/// Whether the player named `id` carries an active Lockdown.
pub open spec fn spec_immune(players: Seq<PlayerState>, id: Seq<char>) -> bool {
    match spec_find_player(players, id) {
        Some(i) => spec_player_locked(players[i]),
        None => false,
    }
}

/// `|value|` of an `i32`, saturating.
pub open spec fn spec_abs(value: i32) -> int {
    clamp_i32(abs_int(value as int)) as int
}

/// A direction from `from` toward `to` whose dominant axis is [`SWEEP_STEP`] long, with
/// the other axis scaled proportionally; a sub-step offset is nudged one full step along its
/// dominant axis. `None` when the points coincide.
pub open spec fn spec_step_toward(from: FixedPoint, to: FixedPoint) -> Option<FixedPoint> {
    let dx = clamp_i32(to.x - from.x);
    let dy = clamp_i32(to.y - from.y);
    if dx == 0 && dy == 0 {
        None
    } else {
        let dominant = if spec_abs(dx) >= spec_abs(dy) {
            spec_abs(dx)
        } else {
            spec_abs(dy)
        };
        match (
            spec_scale(dx as int, SWEEP_STEP as int, dominant),
            spec_scale(dy as int, SWEEP_STEP as int, dominant),
        ) {
            (Some(step_x), Some(step_y)) => if step_x == 0 && step_y == 0 {
                if spec_abs(dx) >= spec_abs(dy) {
                    Some(
                        FixedPoint {
                            x: if dx < 0 {
                                (-SWEEP_STEP) as i32
                            } else {
                                SWEEP_STEP
                            },
                            y: 0,
                        },
                    )
                } else {
                    Some(
                        FixedPoint {
                            x: 0,
                            y: if dy < 0 {
                                (-SWEEP_STEP) as i32
                            } else {
                                SWEEP_STEP
                            },
                        },
                    )
                }
            } else {
                Some(FixedPoint { x: step_x, y: step_y })
            },
            _ => None,
        }
    }
}

/// How many steps a sweep of `distance` along `step` takes: the distance over the step's
/// dominant length, rounded up, capped at [`MAX_SWEEP_STEPS`].
pub open spec fn spec_sweep_steps(step: FixedPoint, distance: i32) -> nat {
    let length = if spec_abs(step.x) >= spec_abs(step.y) {
        spec_abs(step.x)
    } else {
        spec_abs(step.y)
    };
    let step_length = if length < 1 {
        1
    } else {
        length
    };
    let wanted = spec_round_div(spec_abs(distance) + step_length - 1, step_length);
    if wanted < MAX_SWEEP_STEPS {
        wanted as nat
    } else {
        MAX_SWEEP_STEPS as nat
    }
}

/// The swept position: at most `fuel` steps, stopping before the first solid cell.
pub open spec fn spec_sweep(terrain: TerrainMask, position: FixedPoint, step: FixedPoint, fuel: nat) -> FixedPoint
    decreases fuel,
{
    if fuel == 0 {
        position
    } else {
        let candidate = spec_point_add(position, step);
        if terrain.spec_is_solid_at(candidate) {
            position
        } else {
            spec_sweep(terrain, candidate, step, (fuel - 1) as nat)
        }
    }
}

/// The world after sweeping roster entry `index` by `distance` along `step`, recording the
/// net displacement from `from` against `id`.
pub open spec fn spec_displace(
    terrain: TerrainMask,
    world: World,
    index: int,
    id: Seq<char>,
    step: FixedPoint,
    distance: i32,
    from: FixedPoint,
) -> World {
    let player = world.0[index];
    let end = spec_sweep(terrain, player.position, step, spec_sweep_steps(step, distance));
    (
        world.0.update(index, PlayerState { position: end, ..player }),
        spec_add_knockback(world.1, id, spec_point_sub(end, from)),
    )
}

/// Displacement left after linear falloff over squared distance: the full magnitude with
/// no radius, nothing beyond the radius, otherwise scaled by the remaining share of the
/// squared radius (in truncated basis points).
pub open spec fn spec_falloff(magnitude: i32, distance_sq: i64, radius: i32) -> Option<i32> {
    if radius <= 0 {
        Some(magnitude)
    } else {
        let radius_sq = radius * radius;
        if distance_sq > radius_sq {
            None
        } else {
            let product = clamp_i64(clamp_i64(radius_sq - distance_sq) * BASIS_POINTS);
            let quotient = product as int / radius_sq;
            let ratio = if quotient <= i32::MAX {
                quotient
            } else {
                BASIS_POINTS as int
            };
            spec_scale(magnitude as int, ratio, BASIS_POINTS as int)
        }
    }
}

/// The radial targets among `ids` (in that order): each living opponent found in the roster,
/// with its squared distance to `impact`, when inside a positive `radius`; with a radius that
/// is not positive, the primary target alone.
pub open spec fn spec_targets(
    players: Seq<PlayerState>,
    impact: FixedPoint,
    radius: i32,
    primary: Option<Seq<char>>,
    ids: Seq<Seq<char>>,
) -> Seq<(Seq<char>, i64)>
    decreases ids.len(),
{
    if ids.len() == 0 {
        Seq::empty()
    } else {
        let rest = spec_targets(players, impact, radius, primary, ids.drop_last());
        let id = ids.last();
        match spec_find_player(players, id) {
            None => rest,
            Some(i) => {
                let distance_sq = clamp_i64(spec_distance_squared(players[i].position, impact));
                if (radius <= 0 && primary == Some(id)) || (radius > 0 && distance_sq <= radius
                    * radius) {
                    rest.push((id, distance_sq))
                } else {
                    rest
                }
            },
        }
    }
}

/// The world after the radial displacement of one target.
pub open spec fn spec_radial_one(
    terrain: TerrainMask,
    impact: FixedPoint,
    effect: SpecialEffect,
    world: World,
    target: (Seq<char>, i64),
) -> World {
    let (id, distance_sq) = target;
    if spec_immune(world.0, id) {
        world
    } else {
        match spec_falloff(effect.magnitude, distance_sq, effect.magnitude_secondary) {
            None => world,
            Some(distance) => if distance <= 0 {
                world
            } else {
                match spec_find_player(world.0, id) {
                    None => world,
                    Some(i) => {
                        let position = world.0[i].position;
                        match spec_step_toward(impact, position) {
                            None => world,
                            Some(step) => spec_displace(
                                terrain,
                                world,
                                i,
                                id,
                                step,
                                distance,
                                position,
                            ),
                        }
                    },
                }
            },
        }
    }
}

/// The world after the radial displacement of the first `n` targets, in order.
pub open spec fn spec_radial(
    terrain: TerrainMask,
    impact: FixedPoint,
    effect: SpecialEffect,
    world: World,
    targets: Seq<(Seq<char>, i64)>,
    n: int,
) -> World
    decreases n,
{
    if n <= 0 {
        world
    } else {
        spec_radial_one(
            terrain,
            impact,
            effect,
            spec_radial(terrain, impact, effect, world, targets, n - 1),
            targets[n - 1],
        )
    }
}

/// An optional target id viewed as its characters.
pub open spec fn spec_primary_view(id: Option<String>) -> Option<Seq<char>> {
    match id {
        Some(value) => Some(value@),
        None => None,
    }
}

/// The targets of a radial effect in `ctx`.
pub open spec fn spec_radial_targets(ctx: ResolveContext, radius: i32) -> Seq<(Seq<char>, i64)> {
    spec_targets(
        ctx.state.players@,
        ctx.impact_point,
        radius,
        spec_primary_view(ctx.primary_target_id),
        spec_sort_ids(spec_living_opponents(ctx.state.players@, ctx.actor_id@)),
    )
}

/// The outcome of `Pull`: nothing without a (known) primary target; an error without a
/// known actor or when the threshold overflows; otherwise a target at or below the health
/// threshold is dragged toward the actor, else the actor is pulled toward the target —
/// unless the one to move is locked down or the two coincide.
pub open spec fn spec_pull(ctx: ResolveContext, effect: SpecialEffect) -> (SimResult<()>, World) {
    let world = spec_world(ctx);
    let players = ctx.state.players@;
    match ctx.primary_target_id {
        None => (Ok(()), world),
        Some(target_id) => match spec_find_player(players, target_id@) {
            None => (Ok(()), world),
            Some(t) => match spec_find_player(players, ctx.actor_id@) {
                None => (Err(SimError::UnknownDefinition), world),
                Some(a) => {
                    let target = players[t];
                    let actor = players[a];
                    let threshold_bp = if effect.magnitude_secondary > 0 {
                        effect.magnitude_secondary
                    } else {
                        DEFAULT_PULL_THRESHOLD_BP
                    };
                    match spec_scale(target.max_health as int, threshold_bp as int, BASIS_POINTS as int) {
                        None => (Err(SimError::Overflow { context: "pull.threshold" }), world),
                        Some(threshold_hp) => if target.health <= threshold_hp {
                            if spec_player_locked(target) {
                                (Ok(()), world)
                            } else {
                                match spec_step_toward(target.position, actor.position) {
                                    None => (Ok(()), world),
                                    Some(step) => (
                                        Ok(()),
                                        spec_displace(
                                            ctx.state.terrain,
                                            world,
                                            t,
                                            target_id@,
                                            step,
                                            effect.magnitude,
                                            target.position,
                                        ),
                                    ),
                                }
                            }
                        } else {
                            if spec_player_locked(actor) {
                                (Ok(()), world)
                            } else {
                                match spec_step_toward(actor.position, target.position) {
                                    None => (Ok(()), world),
                                    Some(step) => (
                                        Ok(()),
                                        spec_displace(
                                            ctx.state.terrain,
                                            world,
                                            a,
                                            ctx.actor_id@,
                                            step,
                                            effect.magnitude,
                                            actor.position,
                                        ),
                                    ),
                                }
                            }
                        },
                    }
                },
            },
        },
    }
}

/// The outcome of `Recoil`: the actor is swept away from the impact point, unless locked
/// down or standing on it; an unknown actor is an error.
pub open spec fn spec_recoil(ctx: ResolveContext, effect: SpecialEffect) -> (SimResult<()>, World) {
    let world = spec_world(ctx);
    let players = ctx.state.players@;
    if spec_immune(players, ctx.actor_id@) {
        (Ok(()), world)
    } else {
        match spec_find_player(players, ctx.actor_id@) {
            None => (Err(SimError::UnknownDefinition), world),
            Some(a) => {
                let actor = players[a];
                match spec_step_toward(ctx.impact_point, actor.position) {
                    None => (Ok(()), world),
                    Some(step) => (
                        Ok(()),
                        spec_displace(
                            ctx.state.terrain,
                            world,
                            a,
                            ctx.actor_id@,
                            step,
                            effect.magnitude,
                            actor.position,
                        ),
                    ),
                }
            },
        }
    }
}

/// The ids whose damage entries among the first `n` record a non-zero displacement.
pub open spec fn spec_displaced_ids(views: Seq<DamageView>, n: int) -> Seq<Seq<char>>
    decreases n,
{
    if n <= 0 {
        Seq::empty()
    } else {
        let rest = spec_displaced_ids(views, n - 1);
        if views[n - 1].knockback != (FixedPoint { x: 0, y: 0 }) {
            rest.push(views[n - 1].player_id)
        } else {
            rest
        }
    }
}

/// The world after the wall-impact bonus is considered for one displaced player: when solid
/// terrain lies one step beyond them, outward from the impact, they take `bonus` (recorded,
/// saturating) and are marked eliminated if that empties their health.
pub open spec fn spec_wall_one(
    terrain: TerrainMask,
    impact: FixedPoint,
    bonus: u16,
    world: World,
    id: Seq<char>,
) -> World {
    match spec_find_player(world.0, id) {
        None => world,
        Some(i) => {
            let player = world.0[i];
            match spec_step_toward(impact, player.position) {
                None => world,
                Some(step) => if !terrain.spec_is_solid_at(spec_point_add(player.position, step)) {
                    world
                } else {
                    let (touched, k) = spec_touch_entry(world.1, id);
                    let wall = if touched[k].wall_impact + bonus > u16::MAX {
                        u16::MAX
                    } else {
                        (touched[k].wall_impact + bonus) as u16
                    };
                    let health: u16 = if player.health > bonus {
                        (player.health - bonus) as u16
                    } else {
                        0
                    };
                    let hit = touched.update(k, DamageView { wall_impact: wall, ..touched[k] });
                    (
                        world.0.update(i, PlayerState { health, ..player }),
                        if health == 0 {
                            hit.update(k, DamageView { eliminated: true, ..hit[k] })
                        } else {
                            hit
                        },
                    )
                },
            }
        },
    }
}

/// The world after the wall-impact bonus is considered for the first `n` of `ids`.
pub open spec fn spec_wall(
    terrain: TerrainMask,
    impact: FixedPoint,
    bonus: u16,
    world: World,
    ids: Seq<Seq<char>>,
    n: int,
) -> World
    decreases n,
{
    if n <= 0 {
        world
    } else {
        spec_wall_one(terrain, impact, bonus, spec_wall(terrain, impact, bonus, world, ids, n - 1), ids[n - 1])
    }
}

/// The outcome of `WallImpact`: an overflow error when the bonus cannot be computed,
/// nothing when it is not positive, otherwise the bonus for every player this action has
/// displaced so far (in damage-list order) who now rests against terrain.
pub open spec fn spec_wall_impact(ctx: ResolveContext, effect: SpecialEffect) -> (SimResult<()>, World) {
    let world = spec_world(ctx);
    match spec_scale(BASE_ATTACK as int, effect.magnitude as int, 100) {
        None => (Err(SimError::Overflow { context: "wall_impact.bonus" }), world),
        Some(bonus) => if bonus <= 0 {
            (Ok(()), world)
        } else {
            let bonus_hp: u16 = if bonus > u16::MAX {
                u16::MAX
            } else {
                bonus as u16
            };
            let ids = spec_displaced_ids(world.1, world.1.len() as int);
            (Ok(()), spec_wall(ctx.state.terrain, ctx.impact_point, bonus_hp, world, ids, ids.len() as int))
        },
    }
}

// ---------------------------------------------------------------------------------------
// Helpers
// ---------------------------------------------------------------------------------------

/// A direction from `from` toward `to` (see [`spec_step_toward`]).
fn step_toward(from: FixedPoint, to: FixedPoint) -> (step: Option<FixedPoint>)
    ensures
        step == spec_step_toward(from, to),
{
    let dx = crate::fixed::saturating_sub_i32(to.x, from.x);
    let dy = crate::fixed::saturating_sub_i32(to.y, from.y);
    if dx == 0 && dy == 0 {
        return None;
    }
    let abs_x = crate::fixed::saturating_abs_i32(dx);
    let abs_y = crate::fixed::saturating_abs_i32(dy);
    let dominant = if abs_x >= abs_y {
        abs_x
    } else {
        abs_y
    };
    let step_x = match scale(dx, SWEEP_STEP, dominant) {
        Some(value) => value,
        None => {
            return None;
        },
    };
    let step_y = match scale(dy, SWEEP_STEP, dominant) {
        Some(value) => value,
        None => {
            return None;
        },
    };
    if step_x == 0 && step_y == 0 {
        if abs_x >= abs_y {
            return Some(
                FixedPoint::new(
                    if dx < 0 {
                        -SWEEP_STEP
                    } else {
                        SWEEP_STEP
                    },
                    0,
                ),
            );
        } else {
            return Some(
                FixedPoint::new(
                    0,
                    if dy < 0 {
                        -SWEEP_STEP
                    } else {
                        SWEEP_STEP
                    },
                ),
            );
        }
    }
    Some(FixedPoint::new(step_x, step_y))
}

/// The number of sweep steps for `distance` along `step`.
fn sweep_steps(step: FixedPoint, distance: i32) -> (steps: u32)
    ensures
        steps as nat == spec_sweep_steps(step, distance),
{
    let abs_x = crate::fixed::saturating_abs_i32(step.x);
    let abs_y = crate::fixed::saturating_abs_i32(step.y);
    let length = if abs_x >= abs_y {
        abs_x
    } else {
        abs_y
    };
    let step_length: i64 = if length < 1 {
        1
    } else {
        length as i64
    };
    let numerator: i64 = crate::fixed::saturating_abs_i32(distance) as i64 + step_length - 1;
    let wanted: i64 = match round_divide(numerator, step_length) {
        Some(value) => value,
        None => 0,
    };
    proof {
        let n: int = numerator as int;
        let d: int = step_length as int;
        assert(spec_round_div(n, d) >= 0) by (nonlinear_arith)
            requires
                n >= 0,
                d >= 1,
                spec_round_div(n, d) == (n + d / 2) / d,
        ;
    }
    if wanted < MAX_SWEEP_STEPS as i64 {
        wanted as u32
    } else {
        MAX_SWEEP_STEPS
    }
}

/// Sweeps roster entry `index` by `distance` along `step` and returns where it stopped.
fn sweep(ctx: &mut ResolveContext, index: usize, step: FixedPoint, distance: i32) -> (end: FixedPoint)
    requires
        index < old(ctx).state.players@.len(),
    ensures
        end == spec_sweep(
            old(ctx).state.terrain,
            old(ctx).state.players@[index as int].position,
            step,
            spec_sweep_steps(step, distance),
        ),
        final(ctx).state.players@ == old(ctx).state.players@.update(
            index as int,
            PlayerState { position: end, ..old(ctx).state.players@[index as int] },
        ),
        *final(ctx) == (ResolveContext {
            state: SimulationState { players: final(ctx).state.players, ..old(ctx).state },
            ..*old(ctx)
        }),
{
    let steps = sweep_steps(step, distance);
    let start = ctx.state.players[index].position;
    let ghost goal = spec_sweep(ctx.state.terrain, start, step, steps as nat);
    let mut position = start;
    let mut done = false;
    let mut k: u32 = 0;
    while k < steps && !done
        invariant
            k <= steps,
            done ==> goal == position,
            !done ==> goal == spec_sweep(ctx.state.terrain, position, step, (steps - k) as nat),
        decreases steps - k,
    {
        let candidate = position.saturating_add(step);
        if terrain::is_solid_at(&ctx.state.terrain, candidate) {
            done = true;
        } else {
            position = candidate;
        }
        k = k + 1;
    }
    ctx.state.players[index].position = position;
    position
}

/// Displacement left after falloff (see [`spec_falloff`]).
fn falloff(magnitude: i32, distance_sq: i64, radius: i32) -> (distance: Option<i32>)
    ensures
        distance == spec_falloff(magnitude, distance_sq, radius),
{
    if radius <= 0 {
        return Some(magnitude);
    }
    let radius_wide: i64 = radius as i64;
    proof {
        assert(0 < radius_wide * radius_wide <= 2147483647 * 2147483647) by (nonlinear_arith)
            requires
                0 < radius_wide <= 2147483647,
        ;
    }
    let radius_sq: i64 = radius_wide * radius_wide;
    if distance_sq > radius_sq {
        return None;
    }
    let remaining: i64 = if distance_sq < 0 && radius_sq > i64::MAX + distance_sq {
        i64::MAX
    } else {
        radius_sq - distance_sq
    };
    let product = crate::fixed::saturating_mul_i64(remaining, BASIS_POINTS as i64);
    proof {
        assert(product >= 0) by (nonlinear_arith)
            requires
                remaining >= 0,
                product == clamp_i64(remaining * 10000),
        ;
    }
    let quotient: i64 = product / radius_sq;
    let ratio: i32 = if quotient <= i32::MAX as i64 {
        quotient as i32
    } else {
        BASIS_POINTS
    };
    apply_basis_points(magnitude, ratio)
}

/// The radial targets of `ctx` for `radius` (see [`spec_targets`]).
fn targets_in_radius(ctx: &ResolveContext, radius: i32) -> (found: Vec<(String, i64)>)
    ensures
        found@.map_values(|t: (String, i64)| (t.0@, t.1)) == spec_radial_targets(*ctx, radius),
{
    let ids = ctx.living_opponent_ids();
    let ghost views = spec_string_views(ids@);
    let mut found: Vec<(String, i64)> = Vec::new();
    let mut k: usize = 0;
    assert(views.subrange(0, 0) =~= Seq::<Seq<char>>::empty());
    while k < ids.len()
        invariant
            k <= ids@.len(),
            views == spec_string_views(ids@),
            views == spec_sort_ids(spec_living_opponents(ctx.state.players@, ctx.actor_id@)),
            found@.map_values(|t: (String, i64)| (t.0@, t.1)) == spec_targets(
                ctx.state.players@,
                ctx.impact_point,
                radius,
                spec_primary_view(ctx.primary_target_id),
                views.subrange(0, k as int),
            ),
        decreases ids@.len() - k,
    {
        let id = &ids[k];
        assert(views.subrange(0, k + 1).drop_last() =~= views.subrange(0, k as int));
        assert(views.subrange(0, k + 1).last() == id@);
        let ghost before = found@;
        match ctx.state.player(id.as_str()) {
            None => {},
            Some(player) => {
                let distance_sq = distance_squared(player.position, ctx.impact_point);
                let inside = if radius <= 0 {
                    match &ctx.primary_target_id {
                        Some(primary) => *primary == *id,
                        None => false,
                    }
                } else {
                    let radius_wide: i64 = radius as i64;
                    proof {
                        assert(0 < radius_wide * radius_wide <= 2147483647 * 2147483647)
                            by (nonlinear_arith)
                            requires
                                0 < radius_wide <= 2147483647,
                        ;
                    }
                    distance_sq <= radius_wide * radius_wide
                };
                if inside {
                    found.push((id.clone(), distance_sq));
                    assert(found@.map_values(|t: (String, i64)| (t.0@, t.1)) =~= before.map_values(
                        |t: (String, i64)| (t.0@, t.1),
                    ).push((id@, distance_sq)));
                }
            },
        }
        k = k + 1;
    }
    assert(views.subrange(0, ids@.len() as int) =~= views);
    found
}

/// What [`resolve`] does with `effect` in `before`: the context it leaves and the result.
pub open spec fn spec_resolve_outcome(
    before: ResolveContext,
    after: ResolveContext,
    effect: SpecialEffect,
    result: SimResult<()>,
) -> bool {
    &&& (spec_same_but_world(after, before))
    &&& ((effect.kind == EffectKind::Knockback || effect.kind == EffectKind::Push) ==> {
            let targets = spec_radial_targets(before, effect.magnitude_secondary);
            &&& result == Ok::<(), SimError>(())
            &&& spec_world(after) == spec_radial(
                before.state.terrain,
                before.impact_point,
                effect,
                spec_world(before),
                targets,
                targets.len() as int,
            )
        })
    &&& (effect.kind == EffectKind::Pull ==> (result, spec_world(after)) == spec_pull(
            before,
            effect
        ))
    &&& (effect.kind == EffectKind::Recoil ==> (result, spec_world(after)) == spec_recoil(
            before,
            effect
        ))
    &&& (effect.kind == EffectKind::WallImpact ==> (result, spec_world(after))
            == spec_wall_impact(before, effect))
    &&& (!(effect.kind == EffectKind::Knockback || effect.kind == EffectKind::Push || effect.kind
            == EffectKind::Pull || effect.kind == EffectKind::Recoil || effect.kind
            == EffectKind::WallImpact) ==> result == Err::<(), SimError>(SimError::UnknownDefinition)
            && after == before)
}

/// Resolves a displacement-family effect: Knockback and Push move every target in radius
/// (the primary target alone for a radius that is not positive) away from the impact, Pull moves the target or the actor, Recoil moves the actor, and
/// WallImpact adds bonus damage to displaced players resting against terrain. Any other
/// kind is refused.
pub fn resolve(ctx: &mut ResolveContext, effect: &SpecialEffect) -> (result: SimResult<()>)
    ensures
        spec_resolve_outcome(*old(ctx), *final(ctx), *effect, result),
{
    match effect.kind {
        EffectKind::Knockback | EffectKind::Push => resolve_radial_displacement(ctx, effect),
        EffectKind::Pull => resolve_pull(ctx, effect),
        EffectKind::Recoil => resolve_recoil(ctx, effect),
        EffectKind::WallImpact => resolve_wall_impact(ctx, effect),
        _ => Err(SimError::UnknownDefinition),
    }
}

/// Sweeps roster entry `index` (named `id`) and records its net displacement from `from`.
fn displace(
    ctx: &mut ResolveContext,
    index: usize,
    id: &str,
    step: FixedPoint,
    distance: i32,
    from: FixedPoint,
)
    requires
        index < old(ctx).state.players@.len(),
    ensures
        spec_world(*final(ctx)) == spec_displace(
            old(ctx).state.terrain,
            spec_world(*old(ctx)),
            index as int,
            id@,
            step,
            distance,
            from,
        ),
        spec_same_but_world(*final(ctx), *old(ctx)),
{
    let end = sweep(ctx, index, step, distance);
    ctx.add_knockback(id, end.saturating_sub(from));
}

/// Knockback and Push: every target in radius, in identifier order, is swept away from
/// the impact by the falloff-scaled magnitude.
fn resolve_radial_displacement(ctx: &mut ResolveContext, effect: &SpecialEffect) -> (result: SimResult<()>)
    ensures
        result == Ok::<(), SimError>(()),
        spec_same_but_world(*final(ctx), *old(ctx)),
        ({
            let targets = spec_radial_targets(*old(ctx), effect.magnitude_secondary);
            spec_world(*final(ctx)) == spec_radial(
                old(ctx).state.terrain,
                old(ctx).impact_point,
                *effect,
                spec_world(*old(ctx)),
                targets,
                targets.len() as int,
            )
        }),
{
    let radius = effect.magnitude_secondary;
    let targets = targets_in_radius(ctx, radius);
    let ghost before = *ctx;
    let ghost model = targets@.map_values(|t: (String, i64)| (t.0@, t.1));
    let mut k: usize = 0;
    while k < targets.len()
        invariant
            k <= targets@.len(),
            model == targets@.map_values(|t: (String, i64)| (t.0@, t.1)),
            model == spec_radial_targets(before, radius),
            radius == effect.magnitude_secondary,
            spec_same_but_world(*ctx, before),
            spec_world(*ctx) == spec_radial(
                before.state.terrain,
                before.impact_point,
                *effect,
                spec_world(before),
                model,
                k as int,
            ),
        decreases targets@.len() - k,
    {
        let id = targets[k].0.as_str();
        let distance_sq = targets[k].1;
        assert(model[k as int] == (id@, distance_sq));
        if !is_locked_down(&ctx.state, id) {
            match falloff(effect.magnitude, distance_sq, radius) {
                None => {},
                Some(distance) => {
                    if distance > 0 {
                        proof {
                            lemma_find_player(ctx.state.players@, id@);
                        }
                        match ctx.state.player_index(id) {
                            None => {},
                            Some(index) => {
                                let position = ctx.state.players[index].position;
                                match step_toward(ctx.impact_point, position) {
                                    None => {},
                                    Some(step) => {
                                        displace(ctx, index, id, step, distance, position);
                                    },
                                }
                            },
                        }
                    }
                },
            }
        }
        k = k + 1;
    }
    Ok(())
}

/// Pull: Numa's harpoon (see [`spec_pull`]).
fn resolve_pull(ctx: &mut ResolveContext, effect: &SpecialEffect) -> (result: SimResult<()>)
    ensures
        spec_same_but_world(*final(ctx), *old(ctx)),
        (result, spec_world(*final(ctx))) == spec_pull(*old(ctx), *effect),
{
    let target_id: String = match &ctx.primary_target_id {
        None => {
            return Ok(());
        },
        Some(id) => id.clone(),
    };
    let target_index = match ctx.state.player_index(target_id.as_str()) {
        None => {
            return Ok(());
        },
        Some(index) => index,
    };
    let actor_id: String = ctx.actor_id.clone();
    let actor_index = match ctx.state.player_index(actor_id.as_str()) {
        None => {
            return Err(SimError::UnknownDefinition);
        },
        Some(index) => index,
    };
    let target_position = ctx.state.players[target_index].position;
    let health = ctx.state.players[target_index].health;
    let max_health = ctx.state.players[target_index].max_health;
    let actor_position = ctx.state.players[actor_index].position;
    let threshold_bp = if effect.magnitude_secondary > 0 {
        effect.magnitude_secondary
    } else {
        DEFAULT_PULL_THRESHOLD_BP
    };
    let threshold_hp = match apply_basis_points(max_health as i32, threshold_bp) {
        None => {
            return Err(SimError::Overflow { context: "pull.threshold" });
        },
        Some(value) => value,
    };
    if (health as i32) <= threshold_hp {
        if is_locked_down(&ctx.state, target_id.as_str()) {
            return Ok(());
        }
        match step_toward(target_position, actor_position) {
            None => Ok(()),
            Some(step) => {
                displace(ctx, target_index, target_id.as_str(), step, effect.magnitude, target_position);
                Ok(())
            },
        }
    } else {
        if is_locked_down(&ctx.state, actor_id.as_str()) {
            return Ok(());
        }
        match step_toward(actor_position, target_position) {
            None => Ok(()),
            Some(step) => {
                displace(ctx, actor_index, actor_id.as_str(), step, effect.magnitude, actor_position);
                Ok(())
            },
        }
    }
}

/// Recoil: displaces the actor away from the impact point (see [`spec_recoil`]).
fn resolve_recoil(ctx: &mut ResolveContext, effect: &SpecialEffect) -> (result: SimResult<()>)
    ensures
        spec_same_but_world(*final(ctx), *old(ctx)),
        (result, spec_world(*final(ctx))) == spec_recoil(*old(ctx), *effect),
{
    let actor_id: String = ctx.actor_id.clone();
    if is_locked_down(&ctx.state, actor_id.as_str()) {
        return Ok(());
    }
    let actor_index = match ctx.state.player_index(actor_id.as_str()) {
        None => {
            return Err(SimError::UnknownDefinition);
        },
        Some(index) => index,
    };
    let actor_position = ctx.state.players[actor_index].position;
    match step_toward(ctx.impact_point, actor_position) {
        None => Ok(()),
        Some(step) => {
            displace(ctx, actor_index, actor_id.as_str(), step, effect.magnitude, actor_position);
            Ok(())
        },
    }
}

/// The ids of displaced players, in damage-list order (see [`spec_displaced_ids`]).
fn displaced_ids(ctx: &ResolveContext) -> (ids: Vec<String>)
    ensures
        spec_string_views(ids@) == spec_displaced_ids(
            spec_damage_views(ctx.damage@),
            ctx.damage@.len() as int,
        ),
{
    let ghost views = spec_damage_views(ctx.damage@);
    let mut ids: Vec<String> = Vec::new();
    let mut i: usize = 0;
    while i < ctx.damage.len()
        invariant
            i <= ctx.damage@.len(),
            views == spec_damage_views(ctx.damage@),
            spec_string_views(ids@) == spec_displaced_ids(views, i as int),
        decreases ctx.damage@.len() - i,
    {
        assert(views[i as int] == ctx.damage@[i as int]@);
        if ctx.damage[i].knockback != FixedPoint::zero() {
            let ghost before = ids@;
            ids.push(ctx.damage[i].player_id.clone());
            assert(spec_string_views(ids@) =~= spec_string_views(before).push(
                ctx.damage@[i as int].player_id@,
            ));
        }
        i = i + 1;
    }
    ids
}

/// WallImpact: bonus damage to displaced players resting against terrain (see
/// [`spec_wall_impact`]).
fn resolve_wall_impact(ctx: &mut ResolveContext, effect: &SpecialEffect) -> (result: SimResult<()>)
    ensures
        spec_same_but_world(*final(ctx), *old(ctx)),
        (result, spec_world(*final(ctx))) == spec_wall_impact(*old(ctx), *effect),
{
    let bonus = match scale(BASE_ATTACK, effect.magnitude, 100) {
        None => {
            return Err(SimError::Overflow { context: "wall_impact.bonus" });
        },
        Some(value) => value,
    };
    if bonus <= 0 {
        return Ok(());
    }
    let bonus_hp: u16 = if bonus > 65535 {
        65535
    } else {
        bonus as u16
    };
    let ids = displaced_ids(ctx);
    let ghost model = spec_string_views(ids@);
    let ghost before = *ctx;
    let mut k: usize = 0;
    while k < ids.len()
        invariant
            k <= ids@.len(),
            model == spec_string_views(ids@),
            model == spec_displaced_ids(spec_damage_views(before.damage@), before.damage@.len() as int),
            spec_same_but_world(*ctx, before),
            spec_world(*ctx) == spec_wall(
                before.state.terrain,
                before.impact_point,
                bonus_hp,
                spec_world(before),
                model,
                k as int,
            ),
        decreases ids@.len() - k,
    {
        let id = ids[k].as_str();
        assert(model[k as int] == id@);
        match ctx.state.player_index(id) {
            None => {},
            Some(index) => {
                let position = ctx.state.players[index].position;
                match step_toward(ctx.impact_point, position) {
                    None => {},
                    Some(step) => {
                        if terrain::is_solid_at(&ctx.state.terrain, position.saturating_add(step)) {
                            let ghost views = spec_damage_views(ctx.damage@);
                            let e = ctx.touch_entry(id);
                            let ghost touched = ctx.damage@;
                            let current: u32 = ctx.damage[e].wall_impact as u32;
                            let wall: u16 = if current + bonus_hp as u32 > 65535 {
                                65535
                            } else {
                                (current + bonus_hp as u32) as u16
                            };
                            ctx.damage[e].wall_impact = wall;
                            let ghost hit = ctx.damage@;
                            assert(spec_damage_views(hit) =~= spec_damage_views(touched).update(
                                e as int,
                                DamageView { wall_impact: wall, ..spec_damage_views(touched)[e as int] },
                            ));
                            let old_health = ctx.state.players[index].health;
                            let health: u16 = if old_health > bonus_hp {
                                old_health - bonus_hp
                            } else {
                                0
                            };
                            ctx.state.players[index].health = health;
                            if health == 0 {
                                ctx.damage[e].eliminated = true;
                                assert(spec_damage_views(ctx.damage@) =~= spec_damage_views(hit).update(
                                    e as int,
                                    DamageView { eliminated: true, ..spec_damage_views(hit)[e as int] },
                                ));
                            }
                        }
                    },
                }
            },
        }
        k = k + 1;
    }
    Ok(())
}

// ---------------------------------------------------------------------------------------
// Laws
// ---------------------------------------------------------------------------------------

/// A sweep ends where it started or in an open cell: it never stops inside terrain.
pub proof fn lemma_sweep_never_inside_terrain(
    terrain: TerrainMask,
    position: FixedPoint,
    step: FixedPoint,
    fuel: nat,
)
    ensures
        spec_sweep(terrain, position, step, fuel) == position || !terrain.spec_is_solid_at(
            spec_sweep(terrain, position, step, fuel),
        ),
    decreases fuel,
{
    if fuel > 0 {
        let candidate = spec_point_add(position, step);
        if !terrain.spec_is_solid_at(candidate) {
            lemma_sweep_never_inside_terrain(terrain, candidate, step, (fuel - 1) as nat);
        }
    }
}

/// Whether every roster entry of `after` is where it was in `before` or in an open cell.
pub open spec fn spec_moved_only_to_open(
    terrain: TerrainMask,
    before: Seq<PlayerState>,
    after: Seq<PlayerState>,
) -> bool {
    &&& after.len() == before.len()
    &&& forall|j: int|
        0 <= j < after.len() ==> (#[trigger] after[j]).position == before[j].position
            || !terrain.spec_is_solid_at(after[j].position)
}

/// One displacement only ever moves its player into an open cell.
proof fn lemma_displace_open(
    terrain: TerrainMask,
    world: World,
    index: int,
    id: Seq<char>,
    step: FixedPoint,
    distance: i32,
    from: FixedPoint,
)
    requires
        0 <= index < world.0.len(),
    ensures
        spec_moved_only_to_open(
            terrain,
            world.0,
            spec_displace(terrain, world, index, id, step, distance, from).0,
        ),
{
    lemma_sweep_never_inside_terrain(
        terrain,
        world.0[index].position,
        step,
        spec_sweep_steps(step, distance),
    );
}

/// A radial displacement never leaves a displaced character inside terrain: every player
/// ends where they started, or in an open cell.
pub proof fn lemma_radial_never_inside_terrain(
    terrain: TerrainMask,
    impact: FixedPoint,
    effect: SpecialEffect,
    world: World,
    targets: Seq<(Seq<char>, i64)>,
    n: int,
)
    ensures
        spec_moved_only_to_open(
            terrain,
            world.0,
            spec_radial(terrain, impact, effect, world, targets, n).0,
        ),
    decreases n,
{
    if n > 0 {
        lemma_radial_never_inside_terrain(terrain, impact, effect, world, targets, n - 1);
        let middle = spec_radial(terrain, impact, effect, world, targets, n - 1);
        let (id, distance_sq) = targets[n - 1];
        lemma_find_player(middle.0, id);
        match spec_find_player(middle.0, id) {
            Some(i) => {
                match spec_falloff(effect.magnitude, distance_sq, effect.magnitude_secondary) {
                    Some(distance) => {
                        match spec_step_toward(impact, middle.0[i].position) {
                            Some(step) => {
                                lemma_displace_open(
                                    terrain,
                                    middle,
                                    i,
                                    id,
                                    step,
                                    distance,
                                    middle.0[i].position,
                                );
                            },
                            None => {},
                        }
                    },
                    None => {},
                }
            },
            None => {},
        }
        let last = spec_radial(terrain, impact, effect, world, targets, n).0;
        assert forall|j: int| 0 <= j < last.len() implies (#[trigger] last[j]).position
            == world.0[j].position || !terrain.spec_is_solid_at(last[j].position) by {
            assert(middle.0[j].position == world.0[j].position || !terrain.spec_is_solid_at(
                middle.0[j].position,
            ));
        }
    }
}

/// Whether the targets carry pairwise distinct ids.
pub open spec fn spec_target_ids_distinct(targets: Seq<(Seq<char>, i64)>) -> bool {
    forall|a: int, b: int| 0 <= a < b < targets.len() ==> (#[trigger] targets[a]).0 != (
    #[trigger] targets[b]).0
}

/// Whether `id` is among the first `n` targets.
pub open spec fn spec_is_target(targets: Seq<(Seq<char>, i64)>, id: Seq<char>, n: int) -> bool {
    exists|k: int| 0 <= k < n && (#[trigger] targets[k]).0 == id
}

/// Whether some damage view of `views` belongs to `id` and records `knockback`.
pub open spec fn spec_records_knockback(views: Seq<DamageView>, id: Seq<char>, knockback: FixedPoint) -> bool {
    exists|d: int| 0 <= d < views.len() && (#[trigger] views[d]).player_id == id && views[d].knockback
        == knockback
}

/// Whether no damage view of `views` belongs to `id`.
pub open spec fn spec_no_record(views: Seq<DamageView>, id: Seq<char>) -> bool {
    forall|d: int| 0 <= d < views.len() ==> (#[trigger] views[d]).player_id != id
}

/// How `out` relates to `start` after the first `n` targets of a radial displacement that
/// began with no damage recorded: every roster entry differs from its start at most in its
/// position, and is either where it started with nothing recorded against it, or a target
/// that was not locked down whose recorded knockback is exactly its net move; the records
/// belong to distinct players.
pub open spec fn spec_knockback_tracks(
    start: World,
    out: World,
    targets: Seq<(Seq<char>, i64)>,
    n: int,
) -> bool {
    &&& out.0.len() == start.0.len()
    &&& forall|j: int|
        0 <= j < start.0.len() ==> (#[trigger] out.0[j]) == PlayerState {
            position: out.0[j].position,
            ..start.0[j]
        }
    &&& forall|j: int|
        0 <= j < start.0.len() ==> {
            ||| (#[trigger] out.0[j]).position == start.0[j].position && spec_no_record(
                out.1,
                start.0[j].id@,
            )
            ||| spec_is_target(targets, start.0[j].id@, n) && !spec_immune(start.0, start.0[j].id@)
                && spec_records_knockback(
                out.1,
                start.0[j].id@,
                spec_point_sub(out.0[j].position, start.0[j].position),
            )
        }
    &&& forall|a: int, b: int|
        0 <= a < b < out.1.len() ==> (#[trigger] out.1[a]).player_id != (
        #[trigger] out.1[b]).player_id
}

/// Rosters whose entries differ at most in position find every id at the same index.
proof fn lemma_find_same_ids(a: Seq<PlayerState>, b: Seq<PlayerState>, id: Seq<char>)
    requires
        a.len() == b.len(),
        forall|j: int| 0 <= j < a.len() ==> (#[trigger] a[j]).id@ == b[j].id@,
    ensures
        spec_find_player(a, id) == spec_find_player(b, id),
    decreases a.len(),
{
    if a.len() > 0 {
        lemma_find_same_ids(a.drop_last(), b.drop_last(), id);
        assert(a.drop_last().len() == b.drop_last().len());
        assert forall|j: int| 0 <= j < a.drop_last().len() implies (#[trigger] a.drop_last()[j]).id@
            == b.drop_last()[j].id@ by {
            assert(a.drop_last()[j] == a[j]);
            assert(b.drop_last()[j] == b[j]);
        }
        lemma_find_same_ids(a.drop_last(), b.drop_last(), id);
        assert(a.last() == a[a.len() - 1]);
    }
}

/// One more target keeps the tracking relation.
proof fn lemma_knockback_tracks_step(
    terrain: TerrainMask,
    impact: FixedPoint,
    effect: SpecialEffect,
    start: World,
    targets: Seq<(Seq<char>, i64)>,
    n: int,
)
    requires
        0 < n <= targets.len(),
        spec_target_ids_distinct(targets),
        forall|i: int, j: int|
            0 <= i < j < start.0.len() ==> (#[trigger] start.0[i]).id@ != (#[trigger] start.0[j]).id@,
        spec_knockback_tracks(start, spec_radial(terrain, impact, effect, start, targets, n - 1), targets, n - 1),
    ensures
        spec_knockback_tracks(start, spec_radial(terrain, impact, effect, start, targets, n), targets, n),
{
    let middle = spec_radial(terrain, impact, effect, start, targets, n - 1);
    let out = spec_radial(terrain, impact, effect, start, targets, n);
    let (t, distance_sq) = targets[n - 1];
    assert forall|j: int| 0 <= j < start.0.len() implies (#[trigger] middle.0[j]).id@
        == start.0[j].id@ by {
        assert(middle.0[j] == PlayerState { position: middle.0[j].position, ..start.0[j] });
    }
    lemma_find_same_ids(middle.0, start.0, t);
    lemma_find_player(start.0, t);
    // earlier targets stay targets
    assert forall|id: Seq<char>| spec_is_target(targets, id, n - 1) implies spec_is_target(
        targets,
        id,
        n,
    ) by {
        let k = choose|k: int| 0 <= k < n - 1 && (#[trigger] targets[k]).0 == id;
        assert(targets[k].0 == id);
    }
    if out != middle {
        let i = spec_find_player(middle.0, t).unwrap();
        assert(middle.0[i] == PlayerState { position: middle.0[i].position, ..start.0[i] });
        assert(spec_immune(middle.0, t) == spec_immune(start.0, t));
        // the target has not moved and has no record yet
        assert(!spec_is_target(targets, t, n - 1)) by {
            if spec_is_target(targets, t, n - 1) {
                let k = choose|k: int| 0 <= k < n - 1 && (#[trigger] targets[k]).0 == t;
                assert(targets[k].0 != targets[n - 1].0);
            }
        }
        assert(middle.0[i].position == start.0[i].position && spec_no_record(middle.1, t));
        lemma_view_index_facts(middle.1, t);
        let step = spec_step_toward(impact, middle.0[i].position).unwrap();
        let distance = spec_falloff(effect.magnitude, distance_sq, effect.magnitude_secondary).unwrap();
        let end = spec_sweep(
            terrain,
            middle.0[i].position,
            step,
            spec_sweep_steps(step, distance),
        );
        let record = DamageView {
            knockback: spec_point_add(spec_zero_view(t).knockback, spec_point_sub(end, start.0[i].position)),
            ..spec_zero_view(t)
        };
        assert(out.1 == middle.1.push(record));
        assert(record.knockback == spec_point_sub(end, start.0[i].position));
        assert(out.0 == middle.0.update(i, PlayerState { position: end, ..middle.0[i] }));
        assert forall|j: int| 0 <= j < start.0.len() implies {
            ||| (#[trigger] out.0[j]).position == start.0[j].position && spec_no_record(
                out.1,
                start.0[j].id@,
            )
            ||| spec_is_target(targets, start.0[j].id@, n) && !spec_immune(start.0, start.0[j].id@)
                && spec_records_knockback(
                out.1,
                start.0[j].id@,
                spec_point_sub(out.0[j].position, start.0[j].position),
            )
        } by {
            let id = start.0[j].id@;
            if j == i {
                assert(targets[n - 1].0 == id);
                assert(out.1[middle.1.len() as int] == record);
            } else {
                assert(out.0[j] == middle.0[j]);
                assert(id != t) by {
                    if j < i {
                        assert(start.0[j].id@ != start.0[i].id@);
                    } else {
                        assert(start.0[i].id@ != start.0[j].id@);
                    }
                }
                if middle.0[j].position == start.0[j].position && spec_no_record(middle.1, id) {
                    assert forall|d: int| 0 <= d < out.1.len() implies (#[trigger] out.1[d]).player_id
                        != id by {
                        if d < middle.1.len() {
                            assert(out.1[d] == middle.1[d]);
                        }
                    }
                } else {
                    let d = choose|d: int|
                        0 <= d < middle.1.len() && (#[trigger] middle.1[d]).player_id == id
                            && middle.1[d].knockback == spec_point_sub(
                            middle.0[j].position,
                            start.0[j].position,
                        );
                    assert(out.1[d] == middle.1[d]);
                }
            }
        }
        assert forall|j: int| 0 <= j < start.0.len() implies (#[trigger] out.0[j]) == PlayerState {
            position: out.0[j].position,
            ..start.0[j]
        } by {
            assert(middle.0[j] == PlayerState { position: middle.0[j].position, ..start.0[j] });
        }
        assert forall|a: int, b: int| 0 <= a < b < out.1.len() implies (#[trigger] out.1[a]).player_id
            != (#[trigger] out.1[b]).player_id by {
            assert(out.1[a] == middle.1[a]);
            if b < middle.1.len() {
                assert(out.1[b] == middle.1[b]);
            }
        }
    }
}

/// Radial displacement is swept, never teleported, and its record is exact: starting from no
/// damage records, with distinct roster and target ids, after the first `n` targets every
/// player differs from its start at most in position, and either has not moved and has no
/// record, or is a target that was not locked down whose recorded knockback is exactly its
/// net move (saturating); and every player ends where it started or in an open cell.
pub proof fn lemma_radial_knockback_is_net_move(
    terrain: TerrainMask,
    impact: FixedPoint,
    effect: SpecialEffect,
    players: Seq<PlayerState>,
    targets: Seq<(Seq<char>, i64)>,
    n: int,
)
    requires
        0 <= n <= targets.len(),
        spec_target_ids_distinct(targets),
        forall|i: int, j: int|
            0 <= i < j < players.len() ==> (#[trigger] players[i]).id@ != (#[trigger] players[j]).id@,
    ensures
        spec_knockback_tracks(
            (players, Seq::empty()),
            spec_radial(terrain, impact, effect, (players, Seq::empty()), targets, n),
            targets,
            n,
        ),
        spec_moved_only_to_open(
            terrain,
            players,
            spec_radial(terrain, impact, effect, (players, Seq::empty()), targets, n).0,
        ),
    decreases n,
{
    let start: World = (players, Seq::empty());
    lemma_radial_never_inside_terrain(terrain, impact, effect, start, targets, n);
    if n > 0 {
        lemma_radial_knockback_is_net_move(terrain, impact, effect, players, targets, n - 1);
        lemma_knockback_tracks_step(terrain, impact, effect, start, targets, n);
    }
}

/// With a radius that is not positive, every radial target is the primary target.
proof fn lemma_targets_primary_only(
    players: Seq<PlayerState>,
    impact: FixedPoint,
    radius: i32,
    primary: Option<Seq<char>>,
    ids: Seq<Seq<char>>,
)
    requires
        radius <= 0,
    ensures
        forall|k: int|
            0 <= k < spec_targets(players, impact, radius, primary, ids).len() ==> primary == Some(
                (#[trigger] spec_targets(players, impact, radius, primary, ids)[k]).0,
            ),
    decreases ids.len(),
{
    if ids.len() > 0 {
        lemma_targets_primary_only(players, impact, radius, primary, ids.drop_last());
        let rest = spec_targets(players, impact, radius, primary, ids.drop_last());
        let all = spec_targets(players, impact, radius, primary, ids);
        assert forall|k: int| 0 <= k < all.len() implies primary == Some((#[trigger] all[k]).0) by {
            if k < rest.len() {
                assert(all[k] == rest[k]);
            }
        }
    }
}

/// A radial displacement moves only targets: a player whose id no target carries keeps its
/// position (and everything else).
proof fn lemma_radial_only_targets_move(
    terrain: TerrainMask,
    impact: FixedPoint,
    effect: SpecialEffect,
    world: World,
    targets: Seq<(Seq<char>, i64)>,
    n: int,
)
    requires
        0 <= n <= targets.len(),
    ensures
        spec_radial(terrain, impact, effect, world, targets, n).0.len() == world.0.len(),
        forall|j: int|
            0 <= j < world.0.len() ==> (#[trigger] spec_radial(terrain, impact, effect, world, targets, n).0[j]).id
                == world.0[j].id,
        forall|j: int|
            0 <= j < world.0.len() && (forall|k: int| 0 <= k < n ==> targets[k].0 != world.0[j].id@)
                ==> (#[trigger] spec_radial(terrain, impact, effect, world, targets, n).0[j])
                == world.0[j],
    decreases n,
{
    if n > 0 {
        lemma_radial_only_targets_move(terrain, impact, effect, world, targets, n - 1);
        let middle = spec_radial(terrain, impact, effect, world, targets, n - 1);
        let out = spec_radial(terrain, impact, effect, world, targets, n);
        let t = targets[n - 1].0;
        lemma_find_player(middle.0, t);
        assert forall|j: int| 0 <= j < world.0.len() implies (#[trigger] out.0[j]).id == world.0[j].id
            && ((forall|k: int| 0 <= k < n ==> targets[k].0 != world.0[j].id@) ==> out.0[j]
            == world.0[j]) by {
            assert(middle.0[j].id == world.0[j].id);
            if (forall|k: int| 0 <= k < n ==> targets[k].0 != world.0[j].id@) {
                assert(forall|k: int| 0 <= k < n - 1 ==> targets[k].0 != world.0[j].id@);
                assert(targets[n - 1].0 != world.0[j].id@);
            }
        }
    }
}

/// A zero (or negative) radius Knockback or Push displaces the primary target only: every
/// other player keeps its position.
pub proof fn lemma_zero_radius_displaces_primary_only(
    before: ResolveContext,
    after: ResolveContext,
    effect: SpecialEffect,
    result: SimResult<()>,
)
    requires
        spec_resolve_outcome(before, after, effect, result),
        effect.kind == EffectKind::Knockback || effect.kind == EffectKind::Push,
        effect.magnitude_secondary <= 0,
    ensures
        result is Ok,
        after.state.players@.len() == before.state.players@.len(),
        forall|j: int|
            0 <= j < before.state.players@.len() && spec_primary_view(before.primary_target_id)
                != Some(before.state.players@[j].id@) ==> (#[trigger] after.state.players@[j]).position
                == before.state.players@[j].position,
{
    let targets = spec_radial_targets(before, effect.magnitude_secondary);
    lemma_targets_primary_only(
        before.state.players@,
        before.impact_point,
        effect.magnitude_secondary,
        spec_primary_view(before.primary_target_id),
        spec_sort_ids(spec_living_opponents(before.state.players@, before.actor_id@)),
    );
    lemma_radial_only_targets_move(
        before.state.terrain,
        before.impact_point,
        effect,
        spec_world(before),
        targets,
        targets.len() as int,
    );
    assert forall|j: int|
        0 <= j < before.state.players@.len() && spec_primary_view(before.primary_target_id)
            != Some(before.state.players@[j].id@) implies (#[trigger] after.state.players@[j]).position
        == before.state.players@[j].position by {
        assert forall|k: int| 0 <= k < targets.len() implies targets[k].0
            != before.state.players@[j].id@ by {
            assert(spec_primary_view(before.primary_target_id) == Some(targets[k].0));
        }
    }
}

/// Every radial target comes from `ids`, and distinct ids give distinct targets.
proof fn lemma_targets_from_ids(
    players: Seq<PlayerState>,
    impact: FixedPoint,
    radius: i32,
    primary: Option<Seq<char>>,
    ids: Seq<Seq<char>>,
)
    ensures
        forall|k: int|
            0 <= k < spec_targets(players, impact, radius, primary, ids).len() ==> ids.contains(
                (#[trigger] spec_targets(players, impact, radius, primary, ids)[k]).0,
            ),
        (forall|a: int, b: int| 0 <= a < b < ids.len() ==> (#[trigger] ids[a]) != (#[trigger] ids[b]))
            ==> spec_target_ids_distinct(spec_targets(players, impact, radius, primary, ids)),
    decreases ids.len(),
{
    if ids.len() > 0 {
        let prefix = ids.drop_last();
        lemma_targets_from_ids(players, impact, radius, primary, prefix);
        let rest = spec_targets(players, impact, radius, primary, prefix);
        let all = spec_targets(players, impact, radius, primary, ids);
        assert forall|k: int| 0 <= k < all.len() implies ids.contains((#[trigger] all[k]).0) by {
            if k < rest.len() {
                assert(all[k] == rest[k]);
                let m = choose|m: int| 0 <= m < prefix.len() && prefix[m] == rest[k].0;
                assert(ids[m] == prefix[m]);
            } else {
                assert(ids[ids.len() - 1] == all[k].0);
            }
        }
        if forall|a: int, b: int| 0 <= a < b < ids.len() ==> (#[trigger] ids[a]) != (#[trigger] ids[b]) {
            assert forall|a: int, b: int| 0 <= a < b < prefix.len() implies (#[trigger] prefix[a])
                != (#[trigger] prefix[b]) by {
                assert(prefix[a] == ids[a] && prefix[b] == ids[b]);
            }
            assert forall|a: int, b: int| 0 <= a < b < all.len() implies (#[trigger] all[a]).0 != (
            #[trigger] all[b]).0 by {
                assert(all[a] == rest[a]);
                if b < rest.len() {
                    assert(all[b] == rest[b]);
                } else {
                    let m = choose|m: int| 0 <= m < prefix.len() && prefix[m] == rest[a].0;
                    assert(ids[m] == prefix[m]);
                    assert(all[b].0 == ids[ids.len() - 1]);
                }
            }
        }
    }
}

/// Knockback and Push are swept, never teleported, and their records are exact: on a roster
/// with distinct ids and with no damage recorded yet, the effect succeeds, changes players
/// only in position, and leaves each player either where it was with nothing recorded
/// against it, or — a living player other than the actor without an active Lockdown — in
/// an open cell (or where it was) with its recorded knockback exactly its net move.
pub proof fn lemma_radial_resolve_is_swept(
    before: ResolveContext,
    after: ResolveContext,
    effect: SpecialEffect,
    result: SimResult<()>,
)
    requires
        spec_resolve_outcome(before, after, effect, result),
        effect.kind == EffectKind::Knockback || effect.kind == EffectKind::Push,
        before.damage@.len() == 0,
        forall|i: int, j: int|
            0 <= i < j < before.state.players@.len() ==> (#[trigger] before.state.players@[i]).id@
                != (#[trigger] before.state.players@[j]).id@,
    ensures
        result is Ok,
        after.state.terrain == before.state.terrain,
        spec_moved_only_to_open(before.state.terrain, before.state.players@, after.state.players@),
        forall|j: int|
            0 <= j < before.state.players@.len() ==> {
                let p = before.state.players@[j];
                let q = #[trigger] after.state.players@[j];
                &&& q == PlayerState { position: q.position, ..p }
                &&& {
                    ||| q.position == p.position && spec_no_record(
                        spec_damage_views(after.damage@),
                        p.id@,
                    )
                    ||| p.health != 0 && p.id@ != before.actor_id@ && !spec_player_locked(p)
                        && spec_records_knockback(
                        spec_damage_views(after.damage@),
                        p.id@,
                        spec_point_sub(q.position, p.position),
                    )
                }
            },
{
    let players = before.state.players@;
    let actor = before.actor_id@;
    let ids = spec_sort_ids(spec_living_opponents(players, actor));
    let targets = spec_radial_targets(before, effect.magnitude_secondary);
    lemma_living_opponents_strictly_ascending(players, actor);
    lemma_targets_from_ids(
        players,
        before.impact_point,
        effect.magnitude_secondary,
        spec_primary_view(before.primary_target_id),
        ids,
    );
    assert(spec_damage_views(before.damage@) =~= Seq::<DamageView>::empty());
    assert(spec_world(before) == (players, Seq::<DamageView>::empty()));
    lemma_radial_knockback_is_net_move(
        before.state.terrain,
        before.impact_point,
        effect,
        players,
        targets,
        targets.len() as int,
    );
    assert forall|j: int| 0 <= j < players.len() implies {
        let p = players[j];
        let q = #[trigger] after.state.players@[j];
        &&& q == PlayerState { position: q.position, ..p }
        &&& {
            ||| q.position == p.position && spec_no_record(spec_damage_views(after.damage@), p.id@)
            ||| p.health != 0 && p.id@ != actor && !spec_player_locked(p) && spec_records_knockback(
                spec_damage_views(after.damage@),
                p.id@,
                spec_point_sub(q.position, p.position),
            )
        }
    } by {
        let p = players[j];
        let q = after.state.players@[j];
        if !(q.position == p.position && spec_no_record(spec_damage_views(after.damage@), p.id@)) {
            let k = choose|k: int| 0 <= k < targets.len() && (#[trigger] targets[k]).0 == p.id@;
            assert(ids.contains(p.id@));
            let i = choose|i: int|
                0 <= i < players.len() && #[trigger] players[i].id@ == p.id@ && players[i].health != 0
                    && p.id@ != actor;
            if i != j {
                if i < j {
                    assert(players[i].id@ != players[j].id@);
                } else {
                    assert(players[j].id@ != players[i].id@);
                }
            }
            lemma_find_player(players, p.id@);
            match spec_find_player(players, p.id@) {
                Some(f) => {
                    if f != j {
                        if f < j {
                            assert(players[f].id@ != players[j].id@);
                        } else {
                            assert(players[j].id@ != players[f].id@);
                        }
                    }
                },
                None => {},
            }
        }
    }
}

/// The truncated basis-point share `(r² - d²) / r²` that falloff applies lies in
/// `0..=10000`, is monotone, full at the centre and zero at the edge.
proof fn lemma_falloff_share(distance_sq: i64, radius: i32)
    requires
        radius > 0,
        0 <= distance_sq <= radius * radius,
    ensures
        0 < radius * radius <= 2147483647 * 2147483647,
        ({
            let radius_sq = radius * radius;
            let product = clamp_i64(clamp_i64(radius_sq - distance_sq) * BASIS_POINTS);
            let quotient = product as int / radius_sq;
            &&& 0 <= quotient <= 10000
            &&& distance_sq == radius_sq ==> quotient == 0
            &&& radius <= 3_000_000 ==> quotient == (radius_sq - distance_sq) * 10000 / radius_sq
        }),
{
    let radius_sq = radius * radius;
    assert(0 < radius_sq <= 2147483647 * 2147483647) by (nonlinear_arith)
        requires
            0 < radius <= 2147483647,
            radius_sq == radius * radius,
    ;
    let remaining = radius_sq - distance_sq;
    assert(clamp_i64(remaining) == remaining);
    let product = clamp_i64(remaining * 10000);
    assert(0 <= product <= radius_sq * 10000);
    assert(0 <= product as int / radius_sq <= 10000) by (nonlinear_arith)
        requires
            0 <= product <= radius_sq * 10000,
            radius_sq > 0,
    ;
    if radius <= 3_000_000 {
        assert(radius_sq <= 9_000_000_000_000) by (nonlinear_arith)
            requires
                0 < radius <= 3_000_000,
                radius_sq == radius * radius,
        ;
        assert(product == remaining * 10000);
    }
}

/// The falloff law of radial displacement, for a positive radius and a genuine squared
/// distance: a target is reached exactly when it lies inside the radius (boundary
/// included); what reaches it is a share of the magnitude with the magnitude's sign and no
/// larger, nothing at the edge; and, wherever the share cannot saturate, it is the full
/// magnitude at the centre and exactly `magnitude · ⌊(r² − d²)·10000 / r²⌋ / 10000`,
/// rounded half away from zero, in between.
pub proof fn lemma_falloff_law(magnitude: i32, distance_sq: i64, radius: i32)
    requires
        radius > 0,
        distance_sq >= 0,
    ensures
        spec_falloff(magnitude, distance_sq, radius) is None <==> distance_sq > radius * radius,
        distance_sq <= radius * radius ==> ({
            &&& spec_falloff(magnitude, distance_sq, radius) is Some
            &&& magnitude >= 0 ==> 0 <= spec_falloff(magnitude, distance_sq, radius)->0 <= magnitude
            &&& magnitude <= 0 ==> magnitude <= spec_falloff(magnitude, distance_sq, radius)->0 <= 0
            &&& distance_sq == radius * radius ==> spec_falloff(magnitude, distance_sq, radius)->0
                == 0
            &&& radius <= 3_000_000 ==> spec_falloff(magnitude, distance_sq, radius)->0
                == spec_round_div(
                magnitude * ((radius * radius - distance_sq) * 10000 / (radius * radius)),
                10000,
            )
            &&& radius <= 3_000_000 && distance_sq == 0 ==> spec_falloff(
                magnitude,
                distance_sq,
                radius,
            )->0 == magnitude
        }),
{
    if distance_sq <= radius * radius {
        lemma_falloff_share(distance_sq, radius);
        let radius_sq = radius * radius;
        let product = clamp_i64(clamp_i64(radius_sq - distance_sq) * BASIS_POINTS);
        let quotient = product as int / radius_sq;
        let m = magnitude as int;
        if distance_sq == radius_sq {
            assert(quotient == 0);
            assert(m * quotient == 0) by (nonlinear_arith)
                requires
                    quotient == 0,
            ;
        }
        if m >= 0 {
            assert(0 <= m * quotient <= m * 10000) by (nonlinear_arith)
                requires
                    m >= 0,
                    0 <= quotient <= 10000,
            ;
            assert(0 <= (m * quotient + 5000) / 10000 <= m) by (nonlinear_arith)
                requires
                    0 <= m * quotient <= m * 10000,
                    m >= 0,
            ;
        } else {
            assert(m * 10000 <= m * quotient <= 0) by (nonlinear_arith)
                requires
                    m < 0,
                    0 <= quotient <= 10000,
            ;
            assert(0 <= (-(m * quotient) + 5000) / 10000 <= -m) by (nonlinear_arith)
                requires
                    m * 10000 <= m * quotient <= 0,
                    m < 0,
            ;
        }
        if distance_sq == 0 && radius <= 3_000_000 {
            assert((radius_sq - 0) * 10000 / radius_sq == 10000) by (nonlinear_arith)
                requires
                    radius_sq > 0,
            ;
            if m >= 0 {
                assert((m * 10000 + 5000) / 10000 == m) by (nonlinear_arith)
                    requires
                        m >= 0,
                ;
            } else {
                assert((-(m * 10000) + 5000) / 10000 == -m) by (nonlinear_arith)
                    requires
                        m < 0,
                ;
            }
        }
    }
}

/// Falloff never grows with distance: for a non-negative magnitude, a nearer target is
/// displaced at least as far as a farther one inside the same radius.
pub proof fn lemma_falloff_monotone(magnitude: i32, near: i64, far: i64, radius: i32)
    requires
        radius > 0,
        magnitude >= 0,
        0 <= near <= far <= radius * radius,
    ensures
        spec_falloff(magnitude, near, radius)->0 >= spec_falloff(magnitude, far, radius)->0,
{
    lemma_falloff_law(magnitude, near, radius);
    lemma_falloff_law(magnitude, far, radius);
    lemma_falloff_share(near, radius);
    lemma_falloff_share(far, radius);
    let radius_sq = radius * radius;
    let qn = clamp_i64(clamp_i64(radius_sq - near) * BASIS_POINTS) as int / radius_sq;
    let qf = clamp_i64(clamp_i64(radius_sq - far) * BASIS_POINTS) as int / radius_sq;
    let pn = clamp_i64(clamp_i64(radius_sq - near) * BASIS_POINTS);
    let pf = clamp_i64(clamp_i64(radius_sq - far) * BASIS_POINTS);
    assert(pf <= pn);
    assert(qf <= qn) by (nonlinear_arith)
        requires
            0 <= pf <= pn,
            radius_sq > 0,
            qn == pn as int / radius_sq,
            qf == pf as int / radius_sq,
    ;
    let m = magnitude as int;
    assert(m * qf <= m * qn) by (nonlinear_arith)
        requires
            m >= 0,
            qf <= qn,
    ;
    assert(0 <= m * qf);
    assert((m * qf + 5000) / 10000 <= (m * qn + 5000) / 10000) by (nonlinear_arith)
        requires
            0 <= m * qf <= m * qn,
    ;
}

/// Whether the roster player named `id` stands within `radius` of `impact` (squared
/// distance saturated as the targeting measures it).
pub open spec fn spec_within_blast(players: Seq<PlayerState>, impact: FixedPoint, radius: i32, id: Seq<char>) -> bool {
    spec_find_player(players, id) matches Some(i) && clamp_i64(
        spec_distance_squared(players[i].position, impact),
    ) <= radius * radius
}

proof fn lemma_targets_select(
    players: Seq<PlayerState>,
    impact: FixedPoint,
    radius: i32,
    primary: Option<Seq<char>>,
    ids: Seq<Seq<char>>,
)
    requires
        radius > 0,
    ensures
        forall|k: int|
            0 <= k < spec_targets(players, impact, radius, primary, ids).len() ==> {
                let target = #[trigger] spec_targets(players, impact, radius, primary, ids)[k];
                &&& spec_within_blast(players, impact, radius, target.0)
                &&& target.1 == clamp_i64(
                    spec_distance_squared(players[spec_find_player(players, target.0)->0].position, impact),
                )
            },
        forall|m: int|
            0 <= m < ids.len() && spec_within_blast(players, impact, radius, #[trigger] ids[m])
                ==> exists|k: int|
                0 <= k < spec_targets(players, impact, radius, primary, ids).len() && (
                #[trigger] spec_targets(players, impact, radius, primary, ids)[k]).0 == ids[m],
    decreases ids.len(),
{
    if ids.len() > 0 {
        let prefix = ids.drop_last();
        lemma_targets_select(players, impact, radius, primary, prefix);
        let rest = spec_targets(players, impact, radius, primary, prefix);
        let all = spec_targets(players, impact, radius, primary, ids);
        assert forall|k: int| 0 <= k < all.len() implies {
            let target = #[trigger] all[k];
            &&& spec_within_blast(players, impact, radius, target.0)
            &&& target.1 == clamp_i64(
                spec_distance_squared(players[spec_find_player(players, target.0)->0].position, impact),
            )
        } by {
            if k < rest.len() {
                assert(all[k] == rest[k]);
            }
        }
        assert forall|m: int|
            0 <= m < ids.len() && spec_within_blast(players, impact, radius, #[trigger] ids[m]) implies exists|
            k: int,
        | 0 <= k < all.len() && (#[trigger] all[k]).0 == ids[m] by {
            if m < ids.len() - 1 {
                assert(prefix[m] == ids[m]);
                assert(spec_within_blast(players, impact, radius, prefix[m]));
                let k = choose|k: int| 0 <= k < rest.len() && (#[trigger] rest[k]).0 == prefix[m];
                assert(all[k] == rest[k]);
            } else {
                assert(all[all.len() - 1].0 == ids[m]);
            }
        }
    }
}

/// The targeting law of Knockback and Push with a positive radius: the targets are exactly
/// the living players other than the actor standing within the radius of the impact, each
/// with its squared distance to the impact, each once.
pub proof fn lemma_radial_targets_law(ctx: ResolveContext, radius: i32)
    requires
        radius > 0,
        forall|i: int, j: int|
            0 <= i < j < ctx.state.players@.len() ==> (#[trigger] ctx.state.players@[i]).id@
                != (#[trigger] ctx.state.players@[j]).id@,
    ensures
        ({
            let players = ctx.state.players@;
            let targets = spec_radial_targets(ctx, radius);
            &&& spec_target_ids_distinct(targets)
            &&& forall|k: int|
                0 <= k < targets.len() ==> exists|j: int|
                    0 <= j < players.len() && (#[trigger] players[j]).id@ == (#[trigger] targets[k]).0
                        && players[j].health != 0 && players[j].id@ != ctx.actor_id@ && targets[k].1
                        == clamp_i64(spec_distance_squared(players[j].position, ctx.impact_point))
                        && targets[k].1 <= radius * radius
            &&& forall|j: int|
                0 <= j < players.len() && (#[trigger] players[j]).health != 0 && players[j].id@
                    != ctx.actor_id@ && clamp_i64(
                    spec_distance_squared(players[j].position, ctx.impact_point),
                ) <= radius * radius ==> exists|k: int|
                    0 <= k < targets.len() && targets[k].0 == players[j].id@
        }),
{
    let players = ctx.state.players@;
    let actor = ctx.actor_id@;
    let ids = spec_sort_ids(spec_living_opponents(players, actor));
    let targets = spec_radial_targets(ctx, radius);
    let primary = spec_primary_view(ctx.primary_target_id);
    lemma_living_opponents_strictly_ascending(players, actor);
    lemma_targets_from_ids(players, ctx.impact_point, radius, primary, ids);
    lemma_targets_select(players, ctx.impact_point, radius, primary, ids);
    assert forall|k: int| 0 <= k < targets.len() implies exists|j: int|
        0 <= j < players.len() && (#[trigger] players[j]).id@ == (#[trigger] targets[k]).0 && players[j].health
            != 0 && players[j].id@ != actor && targets[k].1 == clamp_i64(
            spec_distance_squared(players[j].position, ctx.impact_point),
        ) && targets[k].1 <= radius * radius by {
        let t = targets[k];
        assert(ids.contains(t.0));
        let j = choose|j: int|
            0 <= j < players.len() && #[trigger] players[j].id@ == t.0 && players[j].health != 0
                && t.0 != actor;
        lemma_find_player(players, t.0);
        let f = spec_find_player(players, t.0)->0;
        if f != j {
            if f < j {
                assert(players[f].id@ != players[j].id@);
            } else {
                assert(players[j].id@ != players[f].id@);
            }
        }
    }
    assert forall|j: int|
        0 <= j < players.len() && (#[trigger] players[j]).health != 0 && players[j].id@ != actor
            && clamp_i64(spec_distance_squared(players[j].position, ctx.impact_point)) <= radius
            * radius implies exists|k: int| 0 <= k < targets.len() && targets[k].0 == players[j].id@ by {
        let id = players[j].id@;
        assert(players[j].id@ == id);
        assert(ids.contains(id));
        let m = choose|m: int| 0 <= m < ids.len() && ids[m] == id;
        lemma_find_player(players, id);
        let f = spec_find_player(players, id)->0;
        if f != j {
            if f < j {
                assert(players[f].id@ != players[j].id@);
            } else {
                assert(players[j].id@ != players[f].id@);
            }
        }
        assert(spec_within_blast(players, ctx.impact_point, radius, ids[m]));
    }
}

proof fn lemma_scaled_step(v: i32, d: int)
    requires
        1 <= d <= i32::MAX,
        spec_abs(v) <= d,
    ensures
        ({
            let r = spec_round_div(v * SWEEP_STEP, d);
            &&& -256 <= r <= 256
            &&& v > 0 ==> r >= 0
            &&& v < 0 ==> r <= 0
            &&& v == 0 ==> r == 0
            &&& spec_abs(v) == d ==> (v > 0 ==> r == 256) && (v < 0 ==> r == -256)
        }),
{
    let a = abs_int(v * 256);
    if v == i32::MIN {
        assert(d == i32::MAX);
        assert(a == 2147483648 * 256);
        assert((a + d / 2) / d == 256) by (nonlinear_arith)
            requires
                a == 2147483648 * 256,
                d == 2147483647,
        ;
    } else {
        let m = abs_int(v as int);
        assert(m <= d);
        assert(a == m * 256) by (nonlinear_arith)
            requires
                a == abs_int(v * 256),
                m == abs_int(v as int),
        ;
        assert(0 <= (a + d / 2) / d <= 256) by (nonlinear_arith)
            requires
                a == m * 256,
                0 <= m <= d,
                d >= 1,
        ;
        if m == d {
            assert((a + d / 2) / d == 256) by (nonlinear_arith)
                requires
                    a == d * 256,
                    d >= 1,
            ;
        }
        if m == 0 {
            assert((a + d / 2) / d == 0) by (nonlinear_arith)
                requires
                    a == 0,
                    d >= 1,
            ;
        }
        assert(v > 0 ==> v * 256 > 0) by (nonlinear_arith);
        assert(v < 0 ==> v * 256 < 0) by (nonlinear_arith);
    }
}

/// The sweep direction law: the direction from `from` toward `to` exists exactly when the
/// points differ; it never points back on either axis (each component has the sign of the
/// offset, or is zero), no component exceeds one [`SWEEP_STEP`], and the dominant axis is a
/// full step. Knockback and Push sweep along the direction from the impact to the target,
/// so they always carry it away from the impact.
pub proof fn lemma_step_toward_law(from: FixedPoint, to: FixedPoint)
    ensures
        ({
            let dx = clamp_i32(to.x - from.x);
            let dy = clamp_i32(to.y - from.y);
            &&& spec_step_toward(from, to) is None <==> dx == 0 && dy == 0
            &&& spec_step_toward(from, to) matches Some(step) ==> {
                &&& -256 <= step.x <= 256 && -256 <= step.y <= 256
                &&& (dx > 0 ==> step.x >= 0) && (dx < 0 ==> step.x <= 0) && (dx == 0 ==> step.x == 0)
                &&& (dy > 0 ==> step.y >= 0) && (dy < 0 ==> step.y <= 0) && (dy == 0 ==> step.y == 0)
                &&& spec_abs(dx) >= spec_abs(dy) ==> (dx > 0 ==> step.x == 256) && (dx < 0 ==> step.x
                    == -256)
                &&& spec_abs(dx) < spec_abs(dy) ==> (dy > 0 ==> step.y == 256) && (dy < 0 ==> step.y
                    == -256)
            }
        }),
{
    let dx = clamp_i32(to.x - from.x);
    let dy = clamp_i32(to.y - from.y);
    if !(dx == 0 && dy == 0) {
        let dominant = if spec_abs(dx) >= spec_abs(dy) {
            spec_abs(dx)
        } else {
            spec_abs(dy)
        };
        assert(dominant >= 1);
        lemma_scaled_step(dx, dominant);
        lemma_scaled_step(dy, dominant);
    }
}

/// The point `k` steps of `step` from `position`.
pub open spec fn spec_along(position: FixedPoint, step: FixedPoint, k: int) -> FixedPoint {
    FixedPoint { x: (position.x + k * step.x) as i32, y: (position.y + k * step.y) as i32 }
}

/// A sweep of at most `fuel` steps of `step` (no component beyond [`SWEEP_STEP`]) from a
/// position far enough from the coordinate limits ends a whole number of steps along.
proof fn lemma_sweep_along(terrain: TerrainMask, position: FixedPoint, step: FixedPoint, fuel: nat)
    requires
        -256 <= step.x <= 256,
        -256 <= step.y <= 256,
        i32::MIN + 256 * fuel <= position.x <= i32::MAX - 256 * fuel,
        i32::MIN + 256 * fuel <= position.y <= i32::MAX - 256 * fuel,
    ensures
        exists|k: int|
            0 <= k <= fuel && spec_sweep(terrain, position, step, fuel) == #[trigger] spec_along(position, step, k),
    decreases fuel,
{
    if fuel == 0 {
        assert(spec_sweep(terrain, position, step, fuel) == spec_along(position, step, 0));
    } else {
        let candidate = spec_point_add(position, step);
        assert(candidate.x == position.x + step.x && candidate.y == position.y + step.y);
        if terrain.spec_is_solid_at(candidate) {
            assert(spec_sweep(terrain, position, step, fuel) == spec_along(position, step, 0));
        } else {
            lemma_sweep_along(terrain, candidate, step, (fuel - 1) as nat);
            let k = choose|k: int|
                0 <= k <= fuel - 1 && spec_sweep(terrain, candidate, step, (fuel - 1) as nat)
                    == #[trigger] spec_along(candidate, step, k);
            assert(candidate.x + k * step.x == position.x + (k + 1) * step.x) by (nonlinear_arith)
                requires
                    candidate.x == position.x + step.x,
            ;
            assert(candidate.y + k * step.y == position.y + (k + 1) * step.y) by (nonlinear_arith)
                requires
                    candidate.y == position.y + step.y,
            ;
            assert(spec_along(candidate, step, k) == spec_along(position, step, k + 1));
        }
    }
}

/// A sweep from `from` along the direction toward `to` ends on the segment's side: on each
/// axis the mover goes toward `to`'s side of `from`, or stays.
proof fn lemma_sweep_toward(terrain: TerrainMask, from: FixedPoint, to: FixedPoint, distance: i32)
    requires
        spec_step_toward(from, to) is Some,
        -0x4000_0000 <= from.x <= 0x4000_0000,
        -0x4000_0000 <= from.y <= 0x4000_0000,
    ensures
        ({
            let step = spec_step_toward(from, to)->0;
            let end = spec_sweep(terrain, from, step, spec_sweep_steps(step, distance));
            &&& (end.x - from.x) * (to.x - from.x) >= 0
            &&& (end.y - from.y) * (to.y - from.y) >= 0
        }),
{
    let step = spec_step_toward(from, to)->0;
    lemma_step_toward_law(from, to);
    let fuel = spec_sweep_steps(step, distance);
    assert(fuel <= 512);
    lemma_sweep_along(terrain, from, step, fuel);
    let k = choose|k: int|
        0 <= k <= fuel && spec_sweep(terrain, from, step, fuel) == #[trigger] spec_along(from, step, k);
    assert(-131072 <= k * step.x <= 131072) by (nonlinear_arith)
        requires
            0 <= k <= 512,
            -256 <= step.x <= 256,
    ;
    assert(-131072 <= k * step.y <= 131072) by (nonlinear_arith)
        requires
            0 <= k <= 512,
            -256 <= step.y <= 256,
    ;
    let dx = to.x - from.x;
    let dy = to.y - from.y;
    assert(clamp_i32(dx) > 0 <==> dx > 0);
    assert(clamp_i32(dx) < 0 <==> dx < 0);
    assert(clamp_i32(dy) > 0 <==> dy > 0);
    assert(clamp_i32(dy) < 0 <==> dy < 0);
    assert((k * step.x) * dx >= 0) by (nonlinear_arith)
        requires
            k >= 0,
            dx > 0 ==> step.x >= 0,
            dx < 0 ==> step.x <= 0,
    ;
    assert((k * step.y) * dy >= 0) by (nonlinear_arith)
        requires
            k >= 0,
            dy > 0 ==> step.y >= 0,
            dy < 0 ==> step.y <= 0,
    ;
}

/// The Recoil law: only the actor can move, and it moves away from the impact on each axis
/// (or stays) — never toward it. An unknown actor is an error.
pub proof fn lemma_recoil_law(ctx: ResolveContext, effect: SpecialEffect, a: int)
    requires
        spec_find_player(ctx.state.players@, ctx.actor_id@) == Some(a),
        -0x4000_0000 <= ctx.state.players@[a].position.x <= 0x4000_0000,
        -0x4000_0000 <= ctx.state.players@[a].position.y <= 0x4000_0000,
    ensures
        ({
            let (result, world) = spec_recoil(ctx, effect);
            let players = ctx.state.players@;
            let old = players[a].position;
            let new = world.0[a].position;
            &&& result is Ok
            &&& world.0.len() == players.len()
            &&& forall|j: int| 0 <= j < players.len() && j != a ==> #[trigger] world.0[j] == players[j]
            &&& world.0[a] == (PlayerState { position: new, ..players[a] })
            &&& (new.x - old.x) * (old.x - ctx.impact_point.x) >= 0
            &&& (new.y - old.y) * (old.y - ctx.impact_point.y) >= 0
        }),
{
    lemma_find_player(ctx.state.players@, ctx.actor_id@);
    let players = ctx.state.players@;
    if !spec_immune(players, ctx.actor_id@) {
        match spec_step_toward(ctx.impact_point, players[a].position) {
            Some(step) => {
                let from = players[a].position;
                lemma_step_toward_law(ctx.impact_point, from);
                let fuel = spec_sweep_steps(step, effect.magnitude);
                assert(fuel <= 512);
                lemma_sweep_along(ctx.state.terrain, from, step, fuel);
                let k = choose|k: int|
                    0 <= k <= fuel && spec_sweep(ctx.state.terrain, from, step, fuel) == #[trigger] spec_along(from, step, k);
                assert(-131072 <= k * step.x <= 131072) by (nonlinear_arith)
                    requires
                        0 <= k <= 512,
                        -256 <= step.x <= 256,
                ;
                assert(-131072 <= k * step.y <= 131072) by (nonlinear_arith)
                    requires
                        0 <= k <= 512,
                        -256 <= step.y <= 256,
                ;
                let dx = from.x - ctx.impact_point.x;
                let dy = from.y - ctx.impact_point.y;
                assert(clamp_i32(dx) > 0 <==> dx > 0);
                assert(clamp_i32(dx) < 0 <==> dx < 0);
                assert(clamp_i32(dy) > 0 <==> dy > 0);
                assert(clamp_i32(dy) < 0 <==> dy < 0);
                assert((k * step.x) * dx >= 0) by (nonlinear_arith)
                    requires
                        k >= 0,
                        dx > 0 ==> step.x >= 0,
                        dx < 0 ==> step.x <= 0,
                ;
                assert((k * step.y) * dy >= 0) by (nonlinear_arith)
                    requires
                        k >= 0,
                        dy > 0 ==> step.y >= 0,
                        dy < 0 ==> step.y <= 0,
                ;
            },
            None => {},
        }
    } else {
        assert((players[a].position.x - players[a].position.x) * (players[a].position.x
            - ctx.impact_point.x) == 0) by (nonlinear_arith);
        assert((players[a].position.y - players[a].position.y) * (players[a].position.y
            - ctx.impact_point.y) == 0) by (nonlinear_arith);
    }
}

/// The Pull law, for a known target other than the known actor: the pull fails only when
/// the health threshold (`magnitude_secondary` basis points of the target's maximum health,
/// half by default) cannot be computed. A target at or below the threshold is dragged toward
/// the actor and nobody else moves; otherwise the actor is pulled toward the target and
/// nobody else moves. The one who moves changes only position, and on each axis goes toward
/// the other (or stays).
pub proof fn lemma_pull_law(ctx: ResolveContext, effect: SpecialEffect, t: int, a: int)
    requires
        ctx.primary_target_id matches Some(target) && spec_find_player(ctx.state.players@, target@)
            == Some(t),
        spec_find_player(ctx.state.players@, ctx.actor_id@) == Some(a),
        t != a,
        -0x4000_0000 <= ctx.state.players@[t].position.x <= 0x4000_0000,
        -0x4000_0000 <= ctx.state.players@[t].position.y <= 0x4000_0000,
        -0x4000_0000 <= ctx.state.players@[a].position.x <= 0x4000_0000,
        -0x4000_0000 <= ctx.state.players@[a].position.y <= 0x4000_0000,
    ensures
        ({
            let (result, world) = spec_pull(ctx, effect);
            let players = ctx.state.players@;
            let target = players[t];
            let actor = players[a];
            let threshold_bp = if effect.magnitude_secondary > 0 {
                effect.magnitude_secondary
            } else {
                5000
            };
            let threshold = spec_scale(target.max_health as int, threshold_bp as int, 10000);
            &&& result is Ok <==> threshold is Some
            &&& world.0.len() == players.len()
            &&& (threshold is Some && target.health <= threshold->0) ==> {
                &&& forall|j: int| 0 <= j < players.len() && j != t ==> #[trigger] world.0[j] == players[j]
                &&& world.0[t] == (PlayerState { position: world.0[t].position, ..target })
                &&& (world.0[t].position.x - target.position.x) * (actor.position.x - target.position.x) >= 0
                &&& (world.0[t].position.y - target.position.y) * (actor.position.y - target.position.y) >= 0
            }
            &&& (threshold is Some && target.health > threshold->0) ==> {
                &&& forall|j: int| 0 <= j < players.len() && j != a ==> #[trigger] world.0[j] == players[j]
                &&& world.0[a] == (PlayerState { position: world.0[a].position, ..actor })
                &&& (world.0[a].position.x - actor.position.x) * (target.position.x - actor.position.x) >= 0
                &&& (world.0[a].position.y - actor.position.y) * (target.position.y - actor.position.y) >= 0
            }
        }),
{
    let players = ctx.state.players@;
    lemma_find_player(players, ctx.actor_id@);
    let target_id = ctx.primary_target_id->0;
    lemma_find_player(players, target_id@);
    let target = players[t];
    let actor = players[a];
    match spec_step_toward(target.position, actor.position) {
        Some(step) => {
            lemma_sweep_toward(ctx.state.terrain, target.position, actor.position, effect.magnitude);
        },
        None => {},
    }
    match spec_step_toward(actor.position, target.position) {
        Some(step) => {
            lemma_sweep_toward(ctx.state.terrain, actor.position, target.position, effect.magnitude);
        },
        None => {},
    }
    assert((target.position.x - target.position.x) * (actor.position.x - target.position.x) == 0)
        by (nonlinear_arith);
    assert((target.position.y - target.position.y) * (actor.position.y - target.position.y) == 0)
        by (nonlinear_arith);
    assert((actor.position.x - actor.position.x) * (target.position.x - actor.position.x) == 0)
        by (nonlinear_arith);
    assert((actor.position.y - actor.position.y) * (target.position.y - actor.position.y) == 0)
        by (nonlinear_arith);
}

/// Without a positive radius, falloff is no falloff: the full magnitude, whatever the
/// distance.
pub proof fn lemma_falloff_without_radius(magnitude: i32, distance_sq: i64, radius: i32)
    requires
        radius <= 0,
    ensures
        spec_falloff(magnitude, distance_sq, radius) == Some(magnitude),
{
}

/// The wall-impact law for one displaced player: when solid terrain lies one step beyond
/// them, outward from the impact, they lose `min(bonus, health)`, the bonus is added to
/// their wall-impact record (saturating), and they are marked eliminated when emptied;
/// otherwise — or when they stand on the impact point, or are absent — nothing changes.
/// Only their health changes on the roster.
pub proof fn lemma_wall_one_law(
    terrain: TerrainMask,
    impact: FixedPoint,
    bonus: u16,
    world: World,
    id: Seq<char>,
)
    ensures
        ({
            let after = spec_wall_one(terrain, impact, bonus, world, id);
            &&& after.0.len() == world.0.len()
            &&& match spec_find_player(world.0, id) {
                None => after == world,
                Some(i) => {
                    let player = world.0[i];
                    let against_wall = spec_step_toward(impact, player.position) matches Some(step)
                        && terrain.spec_is_solid_at(spec_point_add(player.position, step));
                    &&& !against_wall ==> after == world
                    &&& against_wall ==> {
                        &&& after.0[i].health == player.health - if bonus < player.health {
                            bonus as int
                        } else {
                            player.health as int
                        }
                        &&& after.0[i] == (PlayerState { health: after.0[i].health, ..player })
                        &&& forall|j: int| 0 <= j < world.0.len() && j != i ==> #[trigger] after.0[j] == world.0[j]
                    }
                },
            }
        }),
{
    lemma_find_player(world.0, id);
}

} // verus!

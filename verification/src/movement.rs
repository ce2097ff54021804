//! Locomotion: walking, jumping, slope climbing and falling.
//!
//! Every motion is swept: the character advances in [`MOVE_STEP`] increments and stops at
//! the first increment that would enter solid terrain, so a one-cell wall can never be
//! crossed by checking only an endpoint. Terrain is read-only here.

use crate::error::{SimError, SimResult};
use crate::fixed::{clamp_i32, spec_cell_of, FixedPoint, POSITION_SCALE};
use crate::terrain::{self, TerrainMask};
use crate::types::{
    lemma_find_player, lemma_find_player_at, spec_find_player, EffectKind, PlayerState, SimulationState,
};
use vstd::prelude::*;

verus! {

/// Step length of every swept motion, in fixed-point units (a quarter cell).
pub const MOVE_STEP: i32 = 256;

/// Maximum terrain height, in whole cells, that a walking step climbs automatically.
pub const STEP_LIMIT_CELLS: i32 = 1;

/// Iteration cap for one call to [`walk`] or [`jump`].
pub const MAX_WALK_STEPS: u32 = 2048;

/// Iteration cap for one player's fall inside [`settle`].
pub const MAX_FALL_STEPS: u32 = 4096;

/// Vertical rise of a jump, in fixed-point units (two cells).
pub const JUMP_HEIGHT: i32 = 2048;

// ---------------------------------------------------------------------------------------
// Model
// ---------------------------------------------------------------------------------------

/// Whether `player` carries an active Lockdown status.
pub open spec fn spec_player_locked(player: PlayerState) -> bool {
    exists|k: int|
        0 <= k < player.statuses@.len() && (#[trigger] player.statuses@[k]).kind
            == EffectKind::Lockdown && player.statuses@[k].turns_remaining > 0
}

/// Whether the player named `id` exists and carries an active Lockdown status.
pub open spec fn spec_locked_down(state: SimulationState, id: Seq<char>) -> bool {
    match spec_find_player(state.players@, id) {
        Some(i) => spec_player_locked(state.players@[i]),
        None => false,
    }
}

/// Number of `step_length` increments [`walk`] and [`jump`] budget for `distance`:
/// `|distance| + step - 1` divided by the step with the crate's rounding rule.
pub open spec fn spec_steps_needed(distance: int, step_length: int) -> int {
    let step = if step_length < 1 {
        1
    } else {
        step_length
    };
    let numerator = abs_i32_saturating(distance) + step - 1;
    (numerator + step / 2) / step
}

/// `|value|`, saturating at `i32::MAX`.
pub open spec fn abs_i32_saturating(value: int) -> int {
    if value == i32::MIN {
        i32::MAX as int
    } else if value < 0 {
        -value
    } else {
        value
    }
}

/// Where a standing character may be: the cell is open and the cell one below is solid.
pub open spec fn spec_can_stand_at(terrain: TerrainMask, position: FixedPoint) -> bool {
    !terrain.spec_is_solid_at(position) && terrain.spec_is_solid_at(
        FixedPoint { x: position.x, y: clamp_i32(position.y + POSITION_SCALE) },
    )
}

/// Whether `position` lies below the bottom row of `terrain`.
pub open spec fn spec_is_below_map(terrain: TerrainMask, position: FixedPoint) -> bool {
    spec_cell_of(position.y as int) >= terrain.height
}

/// The first open cell among the climbs of `climb..=STEP_LIMIT_CELLS` whole cells above
/// `(x, y)`.
pub open spec fn spec_climb(terrain: TerrainMask, x: i32, y: i32, climb: int) -> Option<FixedPoint>
    decreases STEP_LIMIT_CELLS + 1 - climb,
{
    if climb > STEP_LIMIT_CELLS || climb < 1 {
        None
    } else {
        let raised = FixedPoint { x, y: clamp_i32(y - climb * POSITION_SCALE) };
        if !terrain.spec_is_solid_at(raised) {
            Some(raised)
        } else {
            spec_climb(terrain, x, y, climb + 1)
        }
    }
}

/// One walking increment of `step` units in `direction`: the flat position when open,
/// otherwise the lowest climbable position, otherwise blocked.
pub open spec fn spec_walk_step(
    terrain: TerrainMask,
    position: FixedPoint,
    direction: int,
    step: int,
) -> Option<FixedPoint> {
    let candidate_x = clamp_i32(position.x + direction * step);
    let flat = FixedPoint { x: candidate_x, y: position.y };
    if !terrain.spec_is_solid_at(flat) {
        Some(flat)
    } else {
        spec_climb(terrain, candidate_x, position.y, 1)
    }
}

/// The swept walk: at most `fuel` increments, each covering what is left of `budget` up to
/// [`MOVE_STEP`]; stops at the first blocked increment. Returns the final position and the
/// distance covered.
pub open spec fn spec_walk(
    terrain: TerrainMask,
    position: FixedPoint,
    direction: int,
    budget: int,
    travelled: int,
    fuel: nat,
) -> (FixedPoint, int)
    decreases fuel,
{
    if fuel == 0 || budget - travelled <= 0 {
        (position, travelled)
    } else {
        let step = if budget - travelled < MOVE_STEP {
            budget - travelled
        } else {
            MOVE_STEP as int
        };
        match spec_walk_step(terrain, position, direction, step) {
            Some(next) => spec_walk(
                terrain,
                next,
                direction,
                budget,
                travelled + step,
                (fuel - 1) as nat,
            ),
            None => (position, travelled),
        }
    }
}

/// The swept jump: at most `fuel` upward increments until [`JUMP_HEIGHT`] is reached or a
/// ceiling blocks. Returns the final position and the rise.
pub open spec fn spec_jump(terrain: TerrainMask, position: FixedPoint, risen: int, fuel: nat) -> (
    FixedPoint,
    int,
)
    decreases fuel,
{
    if fuel == 0 || JUMP_HEIGHT - risen <= 0 {
        (position, risen)
    } else {
        let step = if JUMP_HEIGHT - risen < MOVE_STEP {
            JUMP_HEIGHT - risen
        } else {
            MOVE_STEP as int
        };
        let candidate = FixedPoint { x: position.x, y: clamp_i32(position.y - step) };
        if terrain.spec_is_solid_at(candidate) {
            (position, risen)
        } else {
            spec_jump(terrain, candidate, risen + step, (fuel - 1) as nat)
        }
    }
}

/// The swept fall: at most `fuel` downward increments until the next one would enter solid
/// ground, or one falls below the map. Returns the final position and whether it fell out.
pub open spec fn spec_fall(terrain: TerrainMask, position: FixedPoint, fuel: nat) -> (
    FixedPoint,
    bool,
)
    decreases fuel,
{
    if fuel == 0 {
        (position, false)
    } else {
        let candidate = FixedPoint { x: position.x, y: clamp_i32(position.y + MOVE_STEP) };
        if spec_is_below_map(terrain, candidate) {
            (candidate, true)
        } else if terrain.spec_is_solid_at(candidate) {
            (position, false)
        } else {
            spec_fall(terrain, candidate, (fuel - 1) as nat)
        }
    }
}

/// One player after gravity, and whether they moved.
pub open spec fn spec_settle_player(terrain: TerrainMask, player: PlayerState) -> (
    PlayerState,
    bool,
) {
    if player.health == 0 || spec_can_stand_at(terrain, player.position) {
        (player, false)
    } else {
        let (position, fell_out) = spec_fall(terrain, player.position, MAX_FALL_STEPS as nat);
        (
            PlayerState {
                position,
                health: if fell_out {
                    0
                } else {
                    player.health
                },
                ..player
            },
            position != player.position,
        )
    }
}

/// The roster after gravity has been applied, in roster order, for the first `n` roster
/// entries; each entry is looked up by its id (first match), as the players are visited.
pub open spec fn spec_settle_players(terrain: TerrainMask, players: Seq<PlayerState>, n: nat) -> (
    Seq<PlayerState>,
    int,
)
    decreases n,
{
    if n == 0 {
        (players, 0)
    } else {
        let (before, moved) = spec_settle_players(terrain, players, (n - 1) as nat);
        match spec_find_player(before, players[n - 1].id@) {
            Some(i) => {
                let (after, did_move) = spec_settle_player(terrain, before[i]);
                (
                    before.update(i, after),
                    if did_move && moved < u32::MAX {
                        moved + 1
                    } else {
                        moved
                    },
                )
            },
            None => (before, moved),
        }
    }
}

/// `a` and `b` agree on everything but the roster and the movement allowance.
pub open spec fn spec_same_but_players(a: SimulationState, b: SimulationState) -> bool {
    &&& a.simulation_version == b.simulation_version
    &&& a.content_version == b.content_version
    &&& a.tick == b.tick
    &&& a.turn_number == b.turn_number
    &&& a.phase == b.phase
    &&& a.active_player_id == b.active_player_id
    &&& a.wind_per_tick == b.wind_per_tick
    &&& a.has_attacked_this_turn == b.has_attacked_this_turn
    &&& a.terrain == b.terrain
    &&& a.objects == b.objects
    &&& a.processed_command_ids == b.processed_command_ids
    &&& a.next_terrain_sequence == b.next_terrain_sequence
    &&& a.next_object_sequence == b.next_object_sequence
    &&& a.rng_state == b.rng_state
    &&& a.pending_turn_end_reason == b.pending_turn_end_reason
    &&& a.last_turn_end_reason == b.last_turn_end_reason
}

/// The distance [`walk`] may cover: the request, capped by the non-negative allowance.
pub open spec fn spec_walk_budget(movement_remaining: int, dx: int) -> int {
    let requested = abs_i32_saturating(dx);
    let allowance = if movement_remaining > 0 {
        movement_remaining
    } else {
        0
    };
    if requested < allowance {
        requested
    } else {
        allowance
    }
}

/// The increments [`walk`] or [`jump`] may take to cover `distance`.
pub open spec fn spec_step_cap(distance: int) -> nat {
    let wanted = spec_steps_needed(distance, MOVE_STEP as int);
    if wanted < MAX_WALK_STEPS {
        wanted as nat
    } else {
        MAX_WALK_STEPS as nat
    }
}

/// The swept walk of [`walk`] for a player standing at `start` with `budget` to spend.
pub open spec fn spec_walk_from(terrain: TerrainMask, start: FixedPoint, dx: int, budget: int) -> (
    FixedPoint,
    int,
) {
    spec_walk(
        terrain,
        start,
        if dx > 0 {
            1
        } else {
            -1
        },
        budget,
        0,
        spec_step_cap(budget),
    )
}

/// `player` moved to `position`.
pub open spec fn spec_moved(player: PlayerState, position: FixedPoint) -> PlayerState {
    PlayerState { position, ..player }
}

// ---------------------------------------------------------------------------------------
// Helpers
// ---------------------------------------------------------------------------------------

/// Whether `player` carries an active Lockdown status.
fn player_locked(player: &PlayerState) -> (locked: bool)
    ensures
        locked == spec_player_locked(*player),
{
    let mut k: usize = 0;
    while k < player.statuses.len()
        invariant
            k <= player.statuses.len(),
            forall|j: int|
                0 <= j < k ==> !((#[trigger] player.statuses@[j]).kind == EffectKind::Lockdown
                    && player.statuses@[j].turns_remaining > 0),
        decreases player.statuses.len() - k,
    {
        let status = player.statuses[k];
        if status.kind == EffectKind::Lockdown && status.turns_remaining > 0 {
            assert(player.statuses@[k as int].kind == EffectKind::Lockdown);
            return true;
        }
        k = k + 1;
    }
    false
}

/// Whether `player_id` names a player under an active Lockdown.
pub(crate) fn is_locked_down(state: &SimulationState, player_id: &str) -> (locked: bool)
    ensures
        locked == spec_locked_down(*state, player_id@),
{
    match state.player(player_id) {
        None => false,
        Some(player) => player_locked(player),
    }
}

/// Increments needed to cover `distance` in `step_length` steps, rounded up.
fn steps_needed(distance: i32, step_length: i32) -> (steps: u32)
    ensures
        steps as int == spec_steps_needed(distance as int, step_length as int),
{
    let step: i64 = if step_length < 1 {
        1
    } else {
        step_length as i64
    };
    let magnitude: i64 = if distance == i32::MIN {
        i32::MAX as i64
    } else if distance < 0 {
        -(distance as i64)
    } else {
        distance as i64
    };
    let numerator: i64 = magnitude + step - 1;
    let quotient: i64 = (numerator + step / 2) / step;
    proof {
        let total: int = numerator + step / 2;
        let divisor: int = step as int;
        let m: int = magnitude as int;
        assert(0 <= total / divisor <= m + 2) by (nonlinear_arith)
            requires
                divisor >= 1,
                0 <= total <= m + 2 * divisor,
                0 <= m,
        ;
    }
    assert(quotient <= u32::MAX);
    quotient as u32
}

/// Whether `position` lies below the bottom of the map.
fn is_below_map(state: &SimulationState, position: FixedPoint) -> (below: bool)
    ensures
        below == spec_is_below_map(state.terrain, position),
{
    let (_, y_cell) = position.to_cells();
    y_cell as i64 >= state.terrain.height as i64
}

/// Whether a character could stand at `position`: the cell is open and the cell one full
/// cell below is solid.
pub fn can_stand_at(state: &SimulationState, position: FixedPoint) -> (standing: bool)
    ensures
        standing == spec_can_stand_at(state.terrain, position),
{
    if terrain::is_solid_at(&state.terrain, position) {
        return false;
    }
    let below = FixedPoint::new(
        position.x,
        crate::fixed::saturating_add_i32(position.y, POSITION_SCALE),
    );
    terrain::is_solid_at(&state.terrain, below)
}

/// The lowest open climb of at most [`STEP_LIMIT_CELLS`] cells above `(x, y)`.
fn climb(terrain: &TerrainMask, x: i32, y: i32) -> (raised: Option<FixedPoint>)
    ensures
        raised == spec_climb(*terrain, x, y, 1),
{
    let mut climb_cells: i32 = 1;
    while climb_cells <= STEP_LIMIT_CELLS
        invariant
            1 <= climb_cells <= STEP_LIMIT_CELLS + 1,
            spec_climb(*terrain, x, y, 1) == spec_climb(*terrain, x, y, climb_cells as int),
        decreases STEP_LIMIT_CELLS + 1 - climb_cells,
    {
        let raised_y = crate::fixed::saturating_sub_i32(y, climb_cells * POSITION_SCALE);
        let raised = FixedPoint::new(x, raised_y);
        if !terrain::is_solid_at(terrain, raised) {
            return Some(raised);
        }
        climb_cells = climb_cells + 1;
    }
    None
}

/// Walks `player_id` horizontally by up to `dx` units (positive is `+X`), climbing steps of
/// at most [`STEP_LIMIT_CELLS`] and stopping at the first wall.
///
/// Spends exactly the distance covered from the movement allowance and returns it. A
/// locked-down player does not move (`Ok(0)`); an unknown player is an error.
pub fn walk(state: &mut SimulationState, player_id: &str, dx: i32) -> (result: SimResult<i32>)
    ensures
        spec_find_player(old(state).players@, player_id@) is None ==> result == Err::<i32, SimError>(
            SimError::UnknownDefinition,
        ) && *final(state) == *old(state),
        spec_find_player(old(state).players@, player_id@) matches Some(i) ==> {
            let budget = spec_walk_budget(old(state).movement_remaining as int, dx as int);
            if spec_locked_down(*old(state), player_id@) || dx == 0 || budget <= 0 {
                result == Ok::<i32, SimError>(0) && *final(state) == *old(state)
            } else {
                let (position, travelled) = spec_walk_from(
                    old(state).terrain,
                    old(state).players@[i].position,
                    dx as int,
                    budget,
                );
                &&& result == Ok::<i32, SimError>(travelled as i32)
                &&& final(state).players@ == old(state).players@.update(
                    i,
                    spec_moved(old(state).players@[i], position),
                )
                &&& final(state).movement_remaining == old(state).movement_remaining - travelled
                &&& spec_same_but_players(*final(state), *old(state))
            }
        },
{
    let index = match state.player_index(player_id) {
        Some(index) => index,
        None => {
            return Err(SimError::UnknownDefinition);
        },
    };
    let start = state.players[index].position;
    if is_locked_down(state, player_id) {
        return Ok(0);
    }
    if dx == 0 {
        return Ok(0);
    }
    let direction: i32 = if dx > 0 {
        1
    } else {
        -1
    };
    let requested = crate::fixed::saturating_abs_i32(dx);
    let allowance: i32 = if state.movement_remaining > 0 {
        state.movement_remaining
    } else {
        0
    };
    let budget: i32 = if requested < allowance {
        requested
    } else {
        allowance
    };
    if budget <= 0 {
        return Ok(0);
    }
    let wanted = steps_needed(budget, MOVE_STEP);
    let steps: u32 = if wanted < MAX_WALK_STEPS {
        wanted
    } else {
        MAX_WALK_STEPS
    };
    let ghost goal = spec_walk_from(state.terrain, start, dx as int, budget as int);
    let mut position = start;
    let mut travelled: i32 = 0;
    let mut done = false;
    let mut k: u32 = 0;
    while k < steps && !done
        invariant
            k <= steps,
            steps as nat == spec_step_cap(budget as int),
            0 <= travelled <= budget,
            direction == (if dx > 0 {
                1int
            } else {
                -1int
            }),
            done ==> goal == (position, travelled as int),
            !done ==> goal == spec_walk(
                state.terrain,
                position,
                direction as int,
                budget as int,
                travelled as int,
                (steps - k) as nat,
            ),
        decreases steps - k,
    {
        let left = budget - travelled;
        if left <= 0 {
            done = true;
        } else {
            let step_len: i32 = if left < MOVE_STEP {
                left
            } else {
                MOVE_STEP
            };
            let candidate_x = crate::fixed::saturating_add_i32(position.x, direction * step_len);
            let flat = FixedPoint::new(candidate_x, position.y);
            if !terrain::is_solid_at(&state.terrain, flat) {
                position = flat;
                travelled = travelled + step_len;
            } else {
                match climb(&state.terrain, candidate_x, position.y) {
                    Some(raised) => {
                        position = raised;
                        travelled = travelled + step_len;
                    },
                    None => {
                        done = true;
                    },
                }
            }
        }
        k = k + 1;
    }
    state.players[index].position = position;
    state.movement_remaining = crate::fixed::saturating_sub_i32(state.movement_remaining, travelled);
    Ok(travelled)
}

/// Jumps `player_id` straight up by up to [`JUMP_HEIGHT`], stopping under the first
/// ceiling, and returns the rise. Spends no movement allowance. A locked-down player does
/// not move (`Ok(0)`); an unknown player is an error.
pub fn jump(state: &mut SimulationState, player_id: &str) -> (result: SimResult<i32>)
    ensures
        spec_find_player(old(state).players@, player_id@) is None ==> result == Err::<i32, SimError>(
            SimError::UnknownDefinition,
        ) && *final(state) == *old(state),
        spec_find_player(old(state).players@, player_id@) matches Some(i) ==> {
            if spec_locked_down(*old(state), player_id@) {
                result == Ok::<i32, SimError>(0) && *final(state) == *old(state)
            } else {
                let (position, risen) = spec_jump(
                    old(state).terrain,
                    old(state).players@[i].position,
                    0,
                    spec_step_cap(JUMP_HEIGHT as int),
                );
                &&& result == Ok::<i32, SimError>(risen as i32)
                &&& final(state).players@ == old(state).players@.update(
                    i,
                    spec_moved(old(state).players@[i], position),
                )
                &&& final(state).movement_remaining == old(state).movement_remaining
                &&& spec_same_but_players(*final(state), *old(state))
            }
        },
{
    let index = match state.player_index(player_id) {
        Some(index) => index,
        None => {
            return Err(SimError::UnknownDefinition);
        },
    };
    let start = state.players[index].position;
    if is_locked_down(state, player_id) {
        return Ok(0);
    }
    let wanted = steps_needed(JUMP_HEIGHT, MOVE_STEP);
    let steps: u32 = if wanted < MAX_WALK_STEPS {
        wanted
    } else {
        MAX_WALK_STEPS
    };
    let ghost goal = spec_jump(state.terrain, start, 0, spec_step_cap(JUMP_HEIGHT as int));
    let mut position = start;
    let mut risen: i32 = 0;
    let mut done = false;
    let mut k: u32 = 0;
    while k < steps && !done
        invariant
            k <= steps,
            steps as nat == spec_step_cap(JUMP_HEIGHT as int),
            0 <= risen <= JUMP_HEIGHT,
            done ==> goal == (position, risen as int),
            !done ==> goal == spec_jump(state.terrain, position, risen as int, (steps - k) as nat),
        decreases steps - k,
    {
        let left = JUMP_HEIGHT - risen;
        if left <= 0 {
            done = true;
        } else {
            let step_len: i32 = if left < MOVE_STEP {
                left
            } else {
                MOVE_STEP
            };
            let candidate = FixedPoint::new(
                position.x,
                crate::fixed::saturating_sub_i32(position.y, step_len),
            );
            if terrain::is_solid_at(&state.terrain, candidate) {
                done = true;
            } else {
                position = candidate;
                risen = risen + step_len;
            }
        }
        k = k + 1;
    }
    state.players[index].position = position;
    Ok(risen)
}

/// The swept fall of [`settle`] from `start`.
fn fall(state: &SimulationState, start: FixedPoint) -> (outcome: (FixedPoint, bool))
    ensures
        outcome == spec_fall(state.terrain, start, MAX_FALL_STEPS as nat),
{
    let mut position = start;
    let mut k: u32 = 0;
    while k < MAX_FALL_STEPS
        invariant
            k <= MAX_FALL_STEPS,
            spec_fall(state.terrain, start, MAX_FALL_STEPS as nat) == spec_fall(
                state.terrain,
                position,
                (MAX_FALL_STEPS - k) as nat,
            ),
        decreases MAX_FALL_STEPS - k,
    {
        let candidate = FixedPoint::new(
            position.x,
            crate::fixed::saturating_add_i32(position.y, MOVE_STEP),
        );
        if is_below_map(state, candidate) {
            return (candidate, true);
        }
        if terrain::is_solid_at(&state.terrain, candidate) {
            return (position, false);
        }
        position = candidate;
        k = k + 1;
    }
    (position, false)
}

/// Applies gravity once to every living player not supported by solid ground, in roster
/// order. A player who falls below the map is eliminated (health zero). Returns how many
/// players moved.
pub fn settle(state: &mut SimulationState) -> (result: SimResult<u32>)
    ensures
        ({
            let (players, moved) = spec_settle_players(
                old(state).terrain,
                old(state).players@,
                old(state).players@.len(),
            );
            &&& result == Ok::<u32, SimError>(moved as u32)
            &&& final(state).players@ == players
            &&& final(state).movement_remaining == old(state).movement_remaining
            &&& spec_same_but_players(*final(state), *old(state))
        }),
{
    let ghost initial = state.players@;
    let n = state.players.len();
    let mut moved: u32 = 0;
    let mut i: usize = 0;
    while i < n
        invariant
            i <= n,
            n == initial.len(),
            state.players@.len() == n,
            forall|j: int| 0 <= j < n ==> (#[trigger] state.players@[j]).id@ == initial[j].id@,
            (state.players@, moved as int) == spec_settle_players(state.terrain, initial, i as nat),
            state.movement_remaining == old(state).movement_remaining,
            spec_same_but_players(*state, *old(state)),
        decreases n - i,
    {
        proof {
            lemma_settle_ids(state.terrain, initial, i as nat);
        }
        let found = state.player_index(state.players[i].id.as_str());
        match found {
            None => {},
            Some(index) => {
                let player = &state.players[index];
                if !player.is_eliminated() {
                    let start = player.position;
                    if !can_stand_at(state, start) {
                        let (position, fell_out) = fall(state, start);
                        if position != start && moved < u32::MAX {
                            moved = moved + 1;
                        }
                        state.players[index].position = position;
                        if fell_out {
                            state.players[index].health = 0;
                        }
                    }
                }
            },
        }
        i = i + 1;
    }
    Ok(moved)
}

/// Settling keeps every id in place.
proof fn lemma_settle_ids(terrain: TerrainMask, players: Seq<PlayerState>, n: nat)
    ensures
        spec_settle_players(terrain, players, n).0.len() == players.len(),
        forall|j: int|
            0 <= j < players.len() ==> (#[trigger] spec_settle_players(terrain, players, n).0[j]).id
                == players[j].id,
    decreases n,
{
    if n > 0 {
        lemma_settle_ids(terrain, players, (n - 1) as nat);
        let before = spec_settle_players(terrain, players, (n - 1) as nat).0;
        lemma_find_player(before, players[n - 1].id@);
    }
}

/// Every climb result is an open cell.
proof fn lemma_climb_open(terrain: TerrainMask, x: i32, y: i32, climb: int)
    ensures
        spec_climb(terrain, x, y, climb) matches Some(p) ==> !terrain.spec_is_solid_at(p),
    decreases STEP_LIMIT_CELLS + 1 - climb,
{
    if 1 <= climb <= STEP_LIMIT_CELLS {
        lemma_climb_open(terrain, x, y, climb + 1);
    }
}

/// A swept walk never ends inside terrain: the walker either stays where it started or
/// stands in an open cell, and never covers more than its budget.
pub proof fn lemma_walk_never_inside_terrain(
    terrain: TerrainMask,
    position: FixedPoint,
    direction: int,
    budget: int,
    travelled: int,
    fuel: nat,
)
    requires
        travelled <= budget,
    ensures
        ({
            let (end, covered) = spec_walk(terrain, position, direction, budget, travelled, fuel);
            &&& end == position || !terrain.spec_is_solid_at(end)
            &&& travelled <= covered <= budget
        }),
    decreases fuel,
{
    if fuel > 0 && budget - travelled > 0 {
        let step = if budget - travelled < MOVE_STEP {
            budget - travelled
        } else {
            MOVE_STEP as int
        };
        let candidate_x = clamp_i32(position.x + direction * step);
        lemma_climb_open(terrain, candidate_x, position.y, 1);
        match spec_walk_step(terrain, position, direction, step) {
            Some(next) => {
                lemma_walk_never_inside_terrain(
                    terrain,
                    next,
                    direction,
                    budget,
                    travelled + step,
                    (fuel - 1) as nat,
                );
            },
            None => {},
        }
    }
}

/// A climb, when one is found and nothing saturates, raises the walker by exactly one whole
/// cell per climbed step and keeps its column.
proof fn lemma_climb_whole_cells(terrain: TerrainMask, x: i32, y: i32, climb: int)
    requires
        1 <= climb,
        y - STEP_LIMIT_CELLS * POSITION_SCALE >= i32::MIN,
    ensures
        spec_climb(terrain, x, y, climb) matches Some(raised) ==> raised.x == x && y - POSITION_SCALE
            * STEP_LIMIT_CELLS <= raised.y < y && (y - raised.y) % (POSITION_SCALE as int) == 0,
    decreases STEP_LIMIT_CELLS + 1 - climb,
{
    if climb <= STEP_LIMIT_CELLS {
        lemma_climb_whole_cells(terrain, x, y, climb + 1);
    }
}

/// Walking moves along its row by exactly the distance covered and only ever climbs whole
/// cells: where no coordinate saturates, the walker ends `covered - travelled` units further
/// in `direction`, level or a whole number of cells higher, never inside terrain, having
/// covered no more than its budget.
#[verifier::rlimit(40)]
#[verifier::spinoff_prover]
pub proof fn lemma_walk_climbs_whole_cells(
    terrain: TerrainMask,
    position: FixedPoint,
    direction: int,
    budget: int,
    travelled: int,
    fuel: nat,
)
    requires
        direction == 1 || direction == -1,
        0 <= travelled <= budget,
        direction == 1 ==> position.x + (budget - travelled) <= i32::MAX,
        direction == -1 ==> position.x - (budget - travelled) >= i32::MIN,
        position.y - fuel * POSITION_SCALE >= i32::MIN,
    ensures
        ({
            let (end, covered) = spec_walk(terrain, position, direction, budget, travelled, fuel);
            &&& travelled <= covered <= budget
            &&& end.x == if direction == 1 {
                position.x + (covered - travelled)
            } else {
                position.x - (covered - travelled)
            }
            &&& end.y <= position.y
            &&& (position.y - end.y) % (POSITION_SCALE as int) == 0
            &&& end == position || !terrain.spec_is_solid_at(end)
        }),
    decreases fuel,
{
    if fuel > 0 && budget - travelled > 0 {
        let step = if budget - travelled < MOVE_STEP {
            budget - travelled
        } else {
            MOVE_STEP as int
        };
        let candidate_x = clamp_i32(position.x + direction * step);
        assert(candidate_x == if direction == 1 {
            position.x + step
        } else {
            position.x - step
        });
        lemma_climb_open(terrain, candidate_x, position.y, 1);
        lemma_climb_whole_cells(terrain, candidate_x, position.y, 1);
        match spec_walk_step(terrain, position, direction, step) {
            Some(next) => {
                lemma_walk_climbs_whole_cells(
                    terrain,
                    next,
                    direction,
                    budget,
                    travelled + step,
                    (fuel - 1) as nat,
                );
                let (end, covered) = spec_walk(
                    terrain,
                    next,
                    direction,
                    budget,
                    travelled + step,
                    (fuel - 1) as nat,
                );
                assert((position.y - end.y) % (POSITION_SCALE as int) == 0) by {
                    assert((position.y - next.y) % 1024 == 0);
                    assert((next.y - end.y) % 1024 == 0);
                    assert(position.y - end.y == (position.y - next.y) + (next.y - end.y));
                }
            },
            None => {},
        }
    }
}

/// The walk law: a walk with `0 <= budget` along a nonzero `dx`, where neither the column nor
/// the row can saturate, covers `0 <= covered <= budget`, ends exactly `covered` units along
/// the sign of `dx`, level or whole cells higher, and never inside terrain. With [`walk`]'s
/// contract (`budget` is `min(|dx|, max(movement_remaining, 0))`, the allowance drops by
/// `covered`, nothing else moves) this is the whole walking rule.
pub proof fn lemma_walk_law(terrain: TerrainMask, start: FixedPoint, dx: int, budget: int)
    requires
        0 <= budget,
        dx != 0,
        dx > 0 ==> start.x + budget <= i32::MAX,
        dx < 0 ==> start.x - budget >= i32::MIN,
        start.y - MAX_WALK_STEPS * POSITION_SCALE >= i32::MIN,
    ensures
        ({
            let (end, covered) = spec_walk_from(terrain, start, dx, budget);
            &&& 0 <= covered <= budget
            &&& end.x == if dx > 0 {
                start.x + covered
            } else {
                start.x - covered
            }
            &&& end.y <= start.y
            &&& (start.y - end.y) % (POSITION_SCALE as int) == 0
            &&& end == start || !terrain.spec_is_solid_at(end)
        }),
{
    let fuel = spec_step_cap(budget);
    assert(fuel <= MAX_WALK_STEPS);
    assert(start.y - fuel * POSITION_SCALE >= i32::MIN) by (nonlinear_arith)
        requires
            fuel <= MAX_WALK_STEPS,
            start.y - MAX_WALK_STEPS * POSITION_SCALE >= i32::MIN,
    ;
    lemma_walk_climbs_whole_cells(
        terrain,
        start,
        if dx > 0 {
            1
        } else {
            -1
        },
        budget,
        0,
        fuel,
    );
}

/// The swept jump, with enough increments to reach [`JUMP_HEIGHT`] and no saturation: it
/// rises straight up by exactly the height it reports, never ends inside terrain, and stops
/// short of the full height only under a solid ceiling, the next increment up.
pub proof fn lemma_jump_stops_under_a_ceiling(
    terrain: TerrainMask,
    position: FixedPoint,
    risen: int,
    fuel: nat,
)
    requires
        0 <= risen <= JUMP_HEIGHT,
        fuel * MOVE_STEP >= JUMP_HEIGHT - risen,
        position.y - (JUMP_HEIGHT - risen) >= i32::MIN,
    ensures
        ({
            let (end, total) = spec_jump(terrain, position, risen, fuel);
            let step = if JUMP_HEIGHT - total < MOVE_STEP {
                JUMP_HEIGHT - total
            } else {
                MOVE_STEP as int
            };
            &&& risen <= total <= JUMP_HEIGHT
            &&& end.x == position.x
            &&& end.y == position.y - (total - risen)
            &&& end == position || !terrain.spec_is_solid_at(end)
            &&& total < JUMP_HEIGHT ==> terrain.spec_is_solid_at(
                FixedPoint { x: end.x, y: (end.y - step) as i32 },
            )
        }),
    decreases fuel,
{
    if fuel > 0 && JUMP_HEIGHT - risen > 0 {
        let step = if JUMP_HEIGHT - risen < MOVE_STEP {
            JUMP_HEIGHT - risen
        } else {
            MOVE_STEP as int
        };
        let candidate = FixedPoint { x: position.x, y: clamp_i32(position.y - step) };
        if !terrain.spec_is_solid_at(candidate) {
            lemma_jump_stops_under_a_ceiling(terrain, candidate, risen + step, (fuel - 1) as nat);
        }
    }
}

/// The jump law for [`jump`]'s own budget: from a start at least [`JUMP_HEIGHT`] above the
/// bottom of the coordinate range, the jumper rises straight up by `r <= JUMP_HEIGHT`, ends
/// where it started or in an open cell, and when `r < JUMP_HEIGHT` the next increment up is
/// solid.
pub proof fn lemma_jump_law(terrain: TerrainMask, start: FixedPoint)
    requires
        start.y - JUMP_HEIGHT >= i32::MIN,
    ensures
        ({
            let (end, total) = spec_jump(terrain, start, 0, spec_step_cap(JUMP_HEIGHT as int));
            let step = if JUMP_HEIGHT - total < MOVE_STEP {
                JUMP_HEIGHT - total
            } else {
                MOVE_STEP as int
            };
            &&& 0 <= total <= JUMP_HEIGHT
            &&& end.x == start.x
            &&& end.y == start.y - total
            &&& end == start || !terrain.spec_is_solid_at(end)
            &&& total < JUMP_HEIGHT ==> terrain.spec_is_solid_at(
                FixedPoint { x: end.x, y: (end.y - step) as i32 },
            )
        }),
{
    assert(abs_i32_saturating(JUMP_HEIGHT as int) == 2048);
    assert((2048int + 256 - 1 + 256int / 2) / 256int == 9) by (nonlinear_arith);
    assert(spec_steps_needed(JUMP_HEIGHT as int, MOVE_STEP as int) == 9);
    assert(spec_step_cap(JUMP_HEIGHT as int) == 9);
    lemma_jump_stops_under_a_ceiling(terrain, start, 0, spec_step_cap(JUMP_HEIGHT as int));
}

/// A swept jump never ends inside terrain and never rises past [`JUMP_HEIGHT`].
pub proof fn lemma_jump_never_inside_terrain(
    terrain: TerrainMask,
    position: FixedPoint,
    risen: int,
    fuel: nat,
)
    requires
        risen <= JUMP_HEIGHT,
    ensures
        ({
            let (end, total) = spec_jump(terrain, position, risen, fuel);
            &&& end == position || !terrain.spec_is_solid_at(end)
            &&& risen <= total <= JUMP_HEIGHT
            &&& end.x == position.x
        }),
    decreases fuel,
{
    if fuel > 0 && JUMP_HEIGHT - risen > 0 {
        let step = if JUMP_HEIGHT - risen < MOVE_STEP {
            JUMP_HEIGHT - risen
        } else {
            MOVE_STEP as int
        };
        let candidate = FixedPoint { x: position.x, y: clamp_i32(position.y - step) };
        if !terrain.spec_is_solid_at(candidate) {
            lemma_jump_never_inside_terrain(terrain, candidate, risen + step, (fuel - 1) as nat);
        }
    }
}

/// How many of the first `n` roster entries gravity moves to another position.
pub open spec fn spec_movers(terrain: TerrainMask, players: Seq<PlayerState>, n: int) -> nat
    decreases n,
{
    if n <= 0 {
        0
    } else {
        spec_movers(terrain, players, n - 1) + if spec_settle_player(terrain, players[n - 1]).0.position
            != players[n - 1].position {
            1nat
        } else {
            0nat
        }
    }
}

/// Whether no two roster entries share an id.
pub open spec fn spec_roster_ids_distinct(players: Seq<PlayerState>) -> bool {
    forall|i: int, j: int|
        0 <= i < j < players.len() ==> (#[trigger] players[i]).id@ != (#[trigger] players[j]).id@
}

/// With distinct ids, settling the first `n` entries settles each of them on its own and
/// leaves the rest, counting the movers (saturating at `u32::MAX`).
proof fn lemma_settle_prefix(terrain: TerrainMask, players: Seq<PlayerState>, n: nat)
    requires
        n <= players.len(),
        spec_roster_ids_distinct(players),
    ensures
        ({
            let (out, moved) = spec_settle_players(terrain, players, n);
            &&& out.len() == players.len()
            &&& forall|j: int|
                0 <= j < n ==> (#[trigger] out[j]) == spec_settle_player(terrain, players[j]).0
            &&& forall|j: int| n <= j < players.len() ==> (#[trigger] out[j]) == players[j]
            &&& moved == if spec_movers(terrain, players, n as int) < u32::MAX {
                spec_movers(terrain, players, n as int) as int
            } else {
                u32::MAX as int
            }
        }),
    decreases n,
{
    if n > 0 {
        lemma_settle_prefix(terrain, players, (n - 1) as nat);
        let before = spec_settle_players(terrain, players, (n - 1) as nat).0;
        let id = players[n - 1].id@;
        assert forall|j: int| 0 <= j < n - 1 implies before[j].id@ != id by {
            assert(before[j] == spec_settle_player(terrain, players[j]).0);
            assert(players[j].id@ != players[n - 1].id@);
        }
        lemma_find_player_at(before, id, n - 1);
    }
}

/// A fall never rises.
proof fn lemma_fall_descends(terrain: TerrainMask, position: FixedPoint, fuel: nat)
    ensures
        spec_fall(terrain, position, fuel).0.y >= position.y,
    decreases fuel,
{
    if fuel > 0 {
        let candidate = FixedPoint { x: position.x, y: clamp_i32(position.y + MOVE_STEP) };
        if !spec_is_below_map(terrain, candidate) && !terrain.spec_is_solid_at(candidate) {
            lemma_fall_descends(terrain, candidate, (fuel - 1) as nat);
        }
    }
}

/// How many of the first `n` players changed position between `before` and `after`.
pub open spec fn spec_position_changes(
    before: Seq<PlayerState>,
    after: Seq<PlayerState>,
    n: int,
) -> nat
    decreases n,
{
    if n <= 0 {
        0
    } else {
        spec_position_changes(before, after, n - 1) + if after[n - 1].position
            != before[n - 1].position {
            1nat
        } else {
            0nat
        }
    }
}

proof fn lemma_movers_are_position_changes(
    terrain: TerrainMask,
    players: Seq<PlayerState>,
    out: Seq<PlayerState>,
    n: int,
)
    requires
        0 <= n <= players.len(),
        forall|j: int| 0 <= j < n ==> (#[trigger] out[j]) == spec_settle_player(terrain, players[j]).0,
    ensures
        spec_movers(terrain, players, n) == spec_position_changes(players, out, n),
    decreases n,
{
    if n > 0 {
        lemma_movers_are_position_changes(terrain, players, out, n - 1);
        assert(out[n - 1] == spec_settle_player(terrain, players[n - 1]).0);
    }
}

/// On a map less than 1024 cells tall, a fall from an open cell at or below the top of the
/// map with enough steps to pass the bottom ends standing or below the map.
proof fn lemma_fall_lands(terrain: TerrainMask, position: FixedPoint, fuel: nat)
    requires
        terrain.height < 1024,
        0 <= position.y,
        !terrain.spec_is_solid_at(position),
        !spec_is_below_map(terrain, position),
        position.y + MOVE_STEP * fuel >= POSITION_SCALE * terrain.height,
    ensures
        ({
            let (end, fell_out) = spec_fall(terrain, position, fuel);
            fell_out || spec_can_stand_at(terrain, end)
        }),
    decreases fuel,
{
    assert(position.y < POSITION_SCALE * terrain.height);
    assert(fuel > 0) by (nonlinear_arith)
        requires
            position.y + MOVE_STEP * fuel >= POSITION_SCALE * terrain.height,
            position.y < POSITION_SCALE * terrain.height,
            MOVE_STEP == 256,
    ;
    let candidate = FixedPoint { x: position.x, y: clamp_i32(position.y + MOVE_STEP) };
    assert(candidate.y == position.y + MOVE_STEP);
    if spec_is_below_map(terrain, candidate) {
    } else if terrain.spec_is_solid_at(candidate) {
        let below = FixedPoint { x: position.x, y: clamp_i32(position.y + POSITION_SCALE) };
        assert(below.y == position.y + POSITION_SCALE);
        assert(spec_cell_of(candidate.y as int) == spec_cell_of(position.y as int) + 1);
        assert(spec_cell_of(below.y as int) == spec_cell_of(position.y as int) + 1);
    } else {
        assert(candidate.y + MOVE_STEP * ((fuel - 1) as nat) == position.y + MOVE_STEP * fuel)
            by (nonlinear_arith)
            requires
                candidate.y == position.y + MOVE_STEP,
                fuel >= 1,
        ;
        lemma_fall_lands(terrain, candidate, (fuel - 1) as nat);
    }
}

/// The settle law, for a roster with distinct ids: [`settle`] reports how many players
/// changed position (saturating at `u32::MAX`); on a map less than 1024 cells tall, every
/// living player that started in an open cell at or below the top of the map ends standing,
/// or below the map and eliminated; eliminated players and players already standing are
/// untouched; every other player keeps its column and everything but its position and
/// health, ends no higher than it started, and either keeps its health and ends where it
/// started or in an open cell, or fell below the map and was eliminated.
pub proof fn lemma_settle_law(terrain: TerrainMask, players: Seq<PlayerState>)
    requires
        spec_roster_ids_distinct(players),
    ensures
        ({
            let (out, moved) = spec_settle_players(terrain, players, players.len());
            &&& out.len() == players.len()
            &&& spec_movers(terrain, players, players.len() as int) == spec_position_changes(
                players,
                out,
                players.len() as int,
            )
            &&& forall|j: int|
                0 <= j < players.len() && terrain.height < 1024 && 0 <= (#[trigger] players[j]).position.y
                    && players[j].health > 0 && !terrain.spec_is_solid_at(players[j].position)
                    ==> spec_can_stand_at(terrain, out[j].position) || (out[j].health == 0
                    && spec_is_below_map(terrain, out[j].position))
            &&& moved == if spec_movers(terrain, players, players.len() as int) < u32::MAX {
                spec_movers(terrain, players, players.len() as int) as int
            } else {
                u32::MAX as int
            }
            &&& forall|j: int|
                0 <= j < players.len() ==> {
                    let p = players[j];
                    let q = #[trigger] out[j];
                    &&& (p.health == 0 || spec_can_stand_at(terrain, p.position)) ==> q == p
                    &&& q == PlayerState { position: q.position, health: q.health, ..p }
                    &&& q.position.x == p.position.x
                    &&& q.position.y >= p.position.y
                    &&& (q.health == 0 && spec_is_below_map(terrain, q.position)) || (q.health
                        == p.health && (q.position == p.position || !terrain.spec_is_solid_at(
                        q.position,
                    )))
                }
        }),
{
    lemma_settle_prefix(terrain, players, players.len());
    let out = spec_settle_players(terrain, players, players.len()).0;
    lemma_movers_are_position_changes(terrain, players, out, players.len() as int);
    assert forall|j: int|
        0 <= j < players.len() && terrain.height < 1024 && 0 <= (#[trigger] players[j]).position.y
            && players[j].health > 0 && !terrain.spec_is_solid_at(players[j].position) implies
        spec_can_stand_at(terrain, out[j].position) || (out[j].health == 0 && spec_is_below_map(
        terrain,
        out[j].position,
    )) by {
        if !spec_can_stand_at(terrain, players[j].position) && !spec_is_below_map(
            terrain,
            players[j].position,
        ) {
            lemma_fall_lands(terrain, players[j].position, MAX_FALL_STEPS as nat);
            lemma_fall_never_inside_terrain(terrain, players[j].position, MAX_FALL_STEPS as nat);
        }
    }
    assert forall|j: int| 0 <= j < players.len() implies {
        let p = players[j];
        let q = #[trigger] out[j];
        &&& (p.health == 0 || spec_can_stand_at(terrain, p.position)) ==> q == p
        &&& q == PlayerState { position: q.position, health: q.health, ..p }
        &&& q.position.x == p.position.x
        &&& q.position.y >= p.position.y
        &&& (q.health == 0 && spec_is_below_map(terrain, q.position)) || (q.health == p.health && (
        q.position == p.position || !terrain.spec_is_solid_at(q.position)))
    } by {
        lemma_fall_never_inside_terrain(terrain, players[j].position, MAX_FALL_STEPS as nat);
        lemma_fall_descends(terrain, players[j].position, MAX_FALL_STEPS as nat);
    }
}

/// A fall ends where it started, in an open cell, or below the map; it never moves sideways.
pub proof fn lemma_fall_never_inside_terrain(terrain: TerrainMask, position: FixedPoint, fuel: nat)
    ensures
        ({
            let (end, fell_out) = spec_fall(terrain, position, fuel);
            &&& fell_out || end == position || !terrain.spec_is_solid_at(end)
            &&& fell_out ==> spec_is_below_map(terrain, end)
            &&& end.x == position.x
        }),
    decreases fuel,
{
    if fuel > 0 {
        let candidate = FixedPoint { x: position.x, y: clamp_i32(position.y + MOVE_STEP) };
        if !spec_is_below_map(terrain, candidate) && !terrain.spec_is_solid_at(candidate) {
            lemma_fall_never_inside_terrain(terrain, candidate, (fuel - 1) as nat);
        }
    }
}

/// The point `climb` whole cells above `(x, y)` (saturating).
pub open spec fn spec_raised(x: i32, y: i32, climb: int) -> FixedPoint {
    FixedPoint { x, y: clamp_i32(y - climb * POSITION_SCALE) }
}

/// Whether a walker at `position` moving `step` units in `direction` meets a wall: the flat
/// cell ahead is solid, and so is every cell of a climb of `1..=STEP_LIMIT_CELLS` above it.
pub open spec fn spec_walled(terrain: TerrainMask, position: FixedPoint, direction: int, step: int) -> bool {
    let ahead = clamp_i32(position.x + direction * step);
    &&& terrain.spec_is_solid_at(FixedPoint { x: ahead, y: position.y })
    &&& forall|c: int|
        1 <= c <= STEP_LIMIT_CELLS ==> terrain.spec_is_solid_at(#[trigger] spec_raised(ahead, position.y, c))
}

proof fn lemma_climb_none_is_wall(terrain: TerrainMask, x: i32, y: i32, climb: int)
    requires
        1 <= climb,
        spec_climb(terrain, x, y, climb) is None,
    ensures
        forall|c: int|
            climb <= c <= STEP_LIMIT_CELLS ==> terrain.spec_is_solid_at(#[trigger] spec_raised(x, y, c)),
    decreases STEP_LIMIT_CELLS + 1 - climb,
{
    if climb <= STEP_LIMIT_CELLS {
        lemma_climb_none_is_wall(terrain, x, y, climb + 1);
    }
}

proof fn lemma_walk_ends_at_wall(
    terrain: TerrainMask,
    position: FixedPoint,
    direction: int,
    budget: int,
    travelled: int,
    fuel: nat,
)
    requires
        0 <= travelled <= budget,
    ensures
        ({
            let (end, covered) = spec_walk(terrain, position, direction, budget, travelled, fuel);
            &&& travelled <= covered <= budget
            &&& covered < budget ==> covered == travelled + fuel * MOVE_STEP || spec_walled(
                terrain,
                end,
                direction,
                if budget - covered < MOVE_STEP {
                    budget - covered
                } else {
                    MOVE_STEP as int
                },
            )
        }),
    decreases fuel,
{
    if fuel > 0 && budget - travelled > 0 {
        let step = if budget - travelled < MOVE_STEP {
            budget - travelled
        } else {
            MOVE_STEP as int
        };
        match spec_walk_step(terrain, position, direction, step) {
            Some(next) => {
                lemma_walk_ends_at_wall(terrain, next, direction, budget, travelled + step, (fuel - 1) as nat);
                assert(travelled + step + (fuel - 1) * MOVE_STEP == travelled + step - MOVE_STEP + fuel
                    * MOVE_STEP) by (nonlinear_arith);
            },
            None => {
                let ahead = clamp_i32(position.x + direction * step);
                lemma_climb_none_is_wall(terrain, ahead, position.y, 1);
            },
        }
    }
}

/// The walk law, in either direction: a walk stops short of its budget only at a wall —
/// the flat cell of the next increment is solid and so is every climb of up to
/// `STEP_LIMIT_CELLS` cells above it — or after the iteration cap's worth of full steps.
pub proof fn lemma_walk_stops_only_at_wall(terrain: TerrainMask, start: FixedPoint, dx: int, budget: int)
    requires
        0 <= budget <= i32::MAX,
    ensures
        ({
            let (end, covered) = spec_walk_from(terrain, start, dx, budget);
            &&& 0 <= covered <= budget
            &&& covered < budget ==> covered == MAX_WALK_STEPS * MOVE_STEP || spec_walled(
                terrain,
                end,
                if dx > 0 {
                    1
                } else {
                    -1
                },
                if budget - covered < MOVE_STEP {
                    budget - covered
                } else {
                    MOVE_STEP as int
                },
            )
        }),
{
    let direction: int = if dx > 0 {
        1
    } else {
        -1
    };
    let fuel = spec_step_cap(budget);
    lemma_walk_ends_at_wall(terrain, start, direction, budget, 0, fuel);
    assert(abs_i32_saturating(budget) == budget);
    let wanted = spec_steps_needed(budget, MOVE_STEP as int);
    assert(wanted == (budget + 255 + 128) / 256);
    if wanted < MAX_WALK_STEPS {
        assert(wanted * 256 >= budget) by (nonlinear_arith)
            requires
                wanted == (budget + 383) / 256,
                budget >= 0,
        ;
    }
}

/// The direction a walk of `dx` takes: right for a positive `dx`, left otherwise.
pub open spec fn spec_walk_direction(dx: int) -> int {
    if dx > 0 {
        1
    } else {
        -1
    }
}

/// The point `distance` units from `origin` along its row in `direction`.
pub open spec fn spec_row_point(origin: FixedPoint, direction: int, distance: int) -> FixedPoint {
    FixedPoint { x: (origin.x + direction * distance) as i32, y: origin.y }
}

proof fn lemma_walk_level(
    terrain: TerrainMask,
    origin: FixedPoint,
    position: FixedPoint,
    direction: int,
    budget: int,
    travelled: int,
    fuel: nat,
)
    requires
        direction == 1 || direction == -1,
        0 <= travelled <= budget,
        position == spec_row_point(origin, direction, travelled),
        i32::MIN <= origin.x + direction * budget <= i32::MAX,
        forall|d: int| travelled < d <= budget ==> !terrain.spec_is_solid_at(#[trigger] spec_row_point(origin, direction, d)),
    ensures
        ({
            let (end, covered) = spec_walk(terrain, position, direction, budget, travelled, fuel);
            &&& covered == if budget < travelled + fuel * MOVE_STEP {
                budget
            } else {
                travelled + fuel * MOVE_STEP
            }
            &&& end == spec_row_point(origin, direction, covered)
        }),
    decreases fuel,
{
    if fuel > 0 && budget - travelled > 0 {
        let step = if budget - travelled < MOVE_STEP {
            budget - travelled
        } else {
            MOVE_STEP as int
        };
        let next = spec_row_point(origin, direction, travelled + step);
        assert(i32::MIN <= origin.x + direction * travelled <= i32::MAX) by (nonlinear_arith)
            requires
                direction == 1 || direction == -1,
                0 <= travelled <= budget,
                i32::MIN <= origin.x + direction * budget <= i32::MAX,
                i32::MIN <= origin.x <= i32::MAX,
        ;
        assert(position.x == origin.x + direction * travelled);
        assert(position.x + direction * step == origin.x + direction * (travelled + step)) by (nonlinear_arith)
            requires
                position.x == origin.x + direction * travelled,
        ;
        assert(i32::MIN <= origin.x + direction * (travelled + step) <= i32::MAX) by (nonlinear_arith)
            requires
                direction == 1 || direction == -1,
                0 <= travelled + step <= budget,
                i32::MIN <= origin.x + direction * budget <= i32::MAX,
                i32::MIN <= origin.x <= i32::MAX,
        ;
        assert(!terrain.spec_is_solid_at(next));
        assert(spec_walk_step(terrain, position, direction, step) == Some(next));
        lemma_walk_level(terrain, origin, next, direction, budget, travelled + step, (fuel - 1) as nat);
        assert(travelled + step + (fuel - 1) * MOVE_STEP == travelled + step - MOVE_STEP + fuel * MOVE_STEP)
            by (nonlinear_arith);
    } else {
        if fuel == 0 {
            assert(travelled + fuel * MOVE_STEP == travelled) by (nonlinear_arith)
                requires
                    fuel == 0,
            ;
        } else {
            assert(fuel * MOVE_STEP >= 0) by (nonlinear_arith);
        }
    }
}

/// The level-walk law, in either direction: over a row that is open for the whole budget,
/// a walk never climbs — it stays on its row and covers the whole budget (or the iteration
/// cap's worth of full steps).
pub proof fn lemma_walk_level_on_open_row(terrain: TerrainMask, start: FixedPoint, dx: int, budget: int)
    requires
        0 <= budget <= i32::MAX,
        dx > 0 ==> start.x + budget <= i32::MAX,
        dx <= 0 ==> start.x - budget >= i32::MIN,
        forall|d: int|
            0 < d <= budget ==> !terrain.spec_is_solid_at(
                #[trigger] spec_row_point(start, spec_walk_direction(dx), d),
            ),
    ensures
        ({
            let (end, covered) = spec_walk_from(terrain, start, dx, budget);
            &&& covered == budget || covered == MAX_WALK_STEPS * MOVE_STEP
            &&& end.y == start.y
            &&& end.x == if dx > 0 {
                start.x + covered
            } else {
                start.x - covered
            }
        }),
{
    let direction: int = spec_walk_direction(dx);
    let fuel = spec_step_cap(budget);
    assert(start == spec_row_point(start, direction, 0));
    lemma_walk_level(terrain, start, start, direction, budget, 0, fuel);
    assert(abs_i32_saturating(budget) == budget);
    let wanted = spec_steps_needed(budget, MOVE_STEP as int);
    assert(wanted == (budget + 255 + 128) / 256);
    if wanted < MAX_WALK_STEPS {
        assert(wanted * 256 >= budget) by (nonlinear_arith)
            requires
                wanted == (budget + 383) / 256,
                budget >= 0,
        ;
    }
    let covered = spec_walk_from(terrain, start, dx, budget).1;
    assert(0 <= covered <= budget);
}

} // verus!

use db_sim_core::error::SimError;
use db_sim_core::fixed::{FixedPoint, POSITION_SCALE};
use db_sim_core::movement::{can_stand_at, jump, settle, walk, JUMP_HEIGHT};
use db_sim_core::terrain::{self, Material, TerrainMask};
use db_sim_core::types::{
    EffectKind, MatchPhase, PlayerState, SimulationState, StatusEffect, TurnEndReason,
};

fn empty_terrain(width: u32, height: u32) -> TerrainMask {
    match terrain::create_mask(width, height, Material::Empty) {
        Ok(mask) => mask,
        Err(_) => panic!("fixture invariant: an empty mask must be constructible"),
    }
}

fn player(id: &str, position: FixedPoint) -> PlayerState {
    PlayerState {
        id: id.to_owned(),
        team: 0,
        health: 200,
        max_health: 200,
        position,
        character_id: "hero".to_owned(),
        statuses: Vec::new(),
    }
}

fn state_with(players: Vec<PlayerState>, terrain: TerrainMask, movement_remaining: i32) -> SimulationState {
    let mut players = players;
    players.sort_by(|a, b| a.id.cmp(&b.id));
    SimulationState {
        pending_turn_end_reason: TurnEndReason::Passed,
        last_turn_end_reason: TurnEndReason::Passed,
        simulation_version: 2,
        content_version: 1,
        tick: 0,
        turn_number: 1,
        phase: MatchPhase::Movement,
        active_player_id: "hero".to_owned(),
        wind_per_tick: 0,
        movement_remaining,
        has_attacked_this_turn: false,
        terrain,
        players,
        objects: Vec::new(),
        processed_command_ids: Vec::new(),
        next_terrain_sequence: 0,
        next_object_sequence: 0,
        rng_state: 1,
    }
}

fn cells(x: i32, y: i32) -> FixedPoint {
    match FixedPoint::from_cells(x, y) {
        Some(point) => point,
        None => panic!("fixture invariant: from_cells must succeed"),
    }
}

fn position_of(state: &SimulationState, id: &str) -> FixedPoint {
    match state.player(id) {
        Some(player) => player.position,
        None => panic!("fixture invariant: player {id} must exist"),
    }
}

#[test]
fn walk_moves_position_and_deducts_the_allowance() {
    let mut state = state_with(vec![player("hero", cells(5, 5))], empty_terrain(64, 64), 16_384);
    let result = walk(&mut state, "hero", 3 * POSITION_SCALE);
    assert_eq!(result, Ok(3 * POSITION_SCALE));
    assert_eq!(position_of(&state, "hero"), cells(8, 5));
    assert_eq!(state.movement_remaining, 16_384 - 3 * POSITION_SCALE);
}

#[test]
fn walk_leftward_moves_position_negative() {
    let mut state = state_with(vec![player("hero", cells(10, 5))], empty_terrain(64, 64), 16_384);
    let result = walk(&mut state, "hero", -2 * POSITION_SCALE);
    assert_eq!(result, Ok(2 * POSITION_SCALE));
    assert_eq!(position_of(&state, "hero"), cells(8, 5));
}

#[test]
fn walk_is_capped_by_movement_remaining_and_travels_only_what_remains() {
    let mut state = state_with(vec![player("hero", cells(5, 5))], empty_terrain(64, 64), 500);
    let before = position_of(&state, "hero");
    let result = walk(&mut state, "hero", 2_000);
    assert_eq!(result, Ok(500), "must travel only the remaining allowance");
    assert_eq!(state.movement_remaining, 0);
    assert_eq!(position_of(&state, "hero").x, before.x + 500);
}

#[test]
fn walk_at_zero_remaining_moves_nothing() {
    let mut state = state_with(vec![player("hero", cells(5, 5))], empty_terrain(64, 64), 0);
    let before = position_of(&state, "hero");
    let result = walk(&mut state, "hero", 100);
    assert_eq!(result, Ok(0));
    assert_eq!(position_of(&state, "hero"), before);
    assert_eq!(state.movement_remaining, 0);
}

#[test]
fn walk_rejects_an_unknown_player() {
    let mut state = state_with(vec![player("hero", cells(5, 5))], empty_terrain(64, 64), 1_000);
    assert_eq!(walk(&mut state, "ghost", 100), Err(SimError::UnknownDefinition));
}

#[test]
fn walk_stops_at_a_wall_and_the_character_never_ends_up_inside_it() {
    let mut terrain = empty_terrain(64, 64);
    for y in 0..64i32 {
        terrain::set_material(&mut terrain, 15, y, Material::ReinforcedStone);
    }
    let mut state = state_with(vec![player("hero", cells(5, 10))], terrain, 30 * POSITION_SCALE);
    let result = walk(&mut state, "hero", 20 * POSITION_SCALE);
    let Ok(travelled) = result else {
        panic!("walk must succeed against a wall, not error");
    };
    assert!(travelled < 20 * POSITION_SCALE, "the wall must stop the walk short of what was requested");
    let after = position_of(&state, "hero");
    assert!(after.to_cells().0 < 15, "must stop before cell 15");
    assert!(
        !terrain::is_solid_at(&state.terrain, after),
        "a walked character must never end up inside terrain"
    );
}

#[test]
fn walk_climbs_a_one_cell_step_instead_of_stopping_dead() {
    let mut terrain = empty_terrain(64, 64);
    for x in 10..30i32 {
        terrain::set_material(&mut terrain, x, 10, Material::Soil);
    }
    let mut state = state_with(vec![player("hero", cells(5, 10))], terrain, 15 * POSITION_SCALE);
    let result = walk(&mut state, "hero", 15 * POSITION_SCALE);
    assert_eq!(
        result,
        Ok(15 * POSITION_SCALE),
        "a one-cell step must not cost any of the allowance beyond the horizontal distance"
    );
    let after = position_of(&state, "hero");
    assert_eq!(after, cells(20, 9), "climbed exactly one cell up, x unobstructed");
    assert!(!terrain::is_solid_at(&state.terrain, after));
}

#[test]
fn walk_does_not_climb_a_wall_taller_than_the_step_limit() {
    let mut terrain = empty_terrain(64, 64);
    for x in 10..30i32 {
        for y in 8..=10i32 {
            terrain::set_material(&mut terrain, x, y, Material::Soil);
        }
    }
    let mut state = state_with(vec![player("hero", cells(5, 10))], terrain, 15 * POSITION_SCALE);
    let result = walk(&mut state, "hero", 15 * POSITION_SCALE);
    let Ok(travelled) = result else {
        panic!("walk must succeed against a tall wall, not error");
    };
    assert!(travelled < 15 * POSITION_SCALE, "a three-cell wall must not be climbed");
    let after = position_of(&state, "hero");
    assert!(after.to_cells().0 < 10, "must stop before the wall");
    assert_eq!(after.to_cells().1, 10, "height must be unchanged — no climb happened");
    assert!(!terrain::is_solid_at(&state.terrain, after));
}

#[test]
fn a_locked_down_character_cannot_walk() {
    let mut hero = player("hero", cells(5, 5));
    hero.statuses.push(StatusEffect { kind: EffectKind::Lockdown, magnitude: 0, turns_remaining: 2 });
    let mut state = state_with(vec![hero], empty_terrain(64, 64), 10_000);
    let before = position_of(&state, "hero");
    let result = walk(&mut state, "hero", 5 * POSITION_SCALE);
    assert_eq!(result, Ok(0), "Numa's Pin prevents movement, not only displacement");
    assert_eq!(position_of(&state, "hero"), before);
    assert_eq!(state.movement_remaining, 10_000);
}

#[test]
fn can_stand_at_is_true_directly_above_solid_ground() {
    let mut terrain = empty_terrain(20, 20);
    terrain::set_material(&mut terrain, 5, 12, Material::Soil);
    let state = state_with(Vec::new(), terrain, 0);
    assert!(can_stand_at(&state, cells(5, 11)));
}

#[test]
fn can_stand_at_is_false_in_open_air() {
    let state = state_with(Vec::new(), empty_terrain(20, 20), 0);
    assert!(!can_stand_at(&state, cells(5, 5)));
}

#[test]
fn can_stand_at_is_false_when_embedded_in_terrain() {
    let mut terrain = empty_terrain(20, 20);
    terrain::set_material(&mut terrain, 5, 5, Material::Soil);
    let state = state_with(Vec::new(), terrain, 0);
    assert!(!can_stand_at(&state, cells(5, 5)));
}

#[test]
fn settle_drops_a_mid_air_character_onto_the_surface_below() {
    let mut terrain = empty_terrain(20, 20);
    for x in 0..20i32 {
        terrain::set_material(&mut terrain, x, 12, Material::Soil);
    }
    let mut state = state_with(vec![player("hero", cells(5, 3))], terrain, 0);
    let moved = settle(&mut state);
    assert_eq!(moved, Ok(1));
    let after = position_of(&state, "hero");
    assert_eq!(after.to_cells().1, 11, "must land on the cell directly above the floor");
    assert!(can_stand_at(&state, after), "must be supported after landing");
    assert!(!terrain::is_solid_at(&state.terrain, after));
}

#[test]
fn settle_leaves_a_grounded_character_untouched() {
    let mut terrain = empty_terrain(20, 20);
    for x in 0..20i32 {
        terrain::set_material(&mut terrain, x, 12, Material::Soil);
    }
    let mut state = state_with(vec![player("hero", cells(5, 11))], terrain, 0);
    let before = position_of(&state, "hero");
    let moved = settle(&mut state);
    assert_eq!(moved, Ok(0));
    assert_eq!(position_of(&state, "hero"), before);
}

#[test]
fn settle_eliminates_a_character_that_falls_out_of_bounds() {
    let mut state = state_with(vec![player("hero", cells(5, 3))], empty_terrain(10, 20), 0);
    let moved = settle(&mut state);
    assert_eq!(moved, Ok(1));
    let after = match state.player("hero") {
        Some(player) => player,
        None => panic!("fixture invariant: hero must still exist"),
    };
    assert_eq!(after.health, 0, "an unrecoverable fall must eliminate the character");
}

#[test]
fn settle_skips_an_already_eliminated_character() {
    let mut hero = player("hero", cells(5, 3));
    hero.health = 0;
    let mut state = state_with(vec![hero], empty_terrain(10, 20), 0);
    let moved = settle(&mut state);
    assert_eq!(moved, Ok(0), "an eliminated character is not settled again");
}

#[test]
fn jump_rises_by_the_full_height_when_there_is_headroom() {
    let mut state = state_with(vec![player("hero", cells(10, 10))], empty_terrain(64, 64), 0);
    let before = position_of(&state, "hero");
    let result = jump(&mut state, "hero");
    assert_eq!(result, Ok(JUMP_HEIGHT));
    let after = position_of(&state, "hero");
    assert_eq!(after.x, before.x);
    assert_eq!(after.y, before.y - JUMP_HEIGHT);
}

#[test]
fn jump_is_blocked_immediately_by_a_ceiling() {
    let mut terrain = empty_terrain(64, 64);
    terrain::set_material(&mut terrain, 10, 9, Material::ReinforcedStone);
    let mut state = state_with(vec![player("hero", cells(10, 10))], terrain, 0);
    let before = position_of(&state, "hero");
    let result = jump(&mut state, "hero");
    assert_eq!(result, Ok(0));
    assert_eq!(position_of(&state, "hero"), before);
}

#[test]
fn a_locked_down_character_cannot_jump() {
    let mut hero = player("hero", cells(10, 10));
    hero.statuses.push(StatusEffect { kind: EffectKind::Lockdown, magnitude: 0, turns_remaining: 1 });
    let mut state = state_with(vec![hero], empty_terrain(64, 64), 0);
    let before = position_of(&state, "hero");
    let result = jump(&mut state, "hero");
    assert_eq!(result, Ok(0));
    assert_eq!(position_of(&state, "hero"), before);
}

#[test]
fn jump_rejects_an_unknown_player() {
    let mut state = state_with(vec![player("hero", cells(5, 5))], empty_terrain(64, 64), 0);
    assert_eq!(jump(&mut state, "ghost"), Err(SimError::UnknownDefinition));
}

#[test]
fn settle_counts_exactly_the_players_it_moved_and_keeps_their_columns() {
    let mut terrain = empty_terrain(20, 20);
    for x in 0..20i32 {
        terrain::set_material(&mut terrain, x, 12, Material::Soil);
    }
    let mut state = state_with(
        vec![player("a", cells(2, 3)), player("b", cells(5, 11)), player("c", cells(9, 6))],
        terrain,
        0,
    );
    let before_a = position_of(&state, "a");
    let before_c = position_of(&state, "c");
    assert_eq!(settle(&mut state), Ok(2));
    assert_eq!(position_of(&state, "b"), cells(5, 11));
    let after_a = position_of(&state, "a");
    let after_c = position_of(&state, "c");
    assert_eq!(after_a.x, before_a.x);
    assert_eq!(after_c.x, before_c.x);
    assert!(after_a.y > before_a.y && after_c.y > before_c.y);
}

#[test]
fn a_climbing_walk_rises_by_exactly_one_whole_cell() {
    let mut terrain = empty_terrain(20, 20);
    for x in 0..20i32 {
        terrain::set_material(&mut terrain, x, 12, Material::Soil);
    }
    terrain::set_material(&mut terrain, 6, 11, Material::Soil);
    let mut state = state_with(vec![player("hero", cells(5, 11))], terrain, 4 * POSITION_SCALE);
    let start = position_of(&state, "hero");
    let travelled = match walk(&mut state, "hero", 2 * POSITION_SCALE) {
        Ok(distance) => distance,
        Err(error) => panic!("walk must succeed: {error:?}"),
    };
    let end = position_of(&state, "hero");
    assert_eq!(end.x, start.x + travelled);
    assert_eq!((start.y - end.y) % POSITION_SCALE, 0);
    assert!(end.y < start.y, "the step must have been climbed");
}

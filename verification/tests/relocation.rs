use db_sim_core::fixed::{self, FixedPoint, BODY_WIDTH};
use db_sim_core::resolve::relocation::{
    draw_arzum_chain_strike_target, draw_point_in_radius, nearest_legal_position, resolve,
    CHAIN_STRIKE_SEARCH_RADIUS,
};
use db_sim_core::resolve::ResolveContext;
use db_sim_core::rng::Rng;
use db_sim_core::terrain::{self, Material, TerrainMask};
use db_sim_core::types::{
    EffectKind, EffectTrigger, MatchPhase, PersistentObjectKind, PersistentObjectTransition,
    PlayerState, RandomOutcome, SimulationState, SpecialEffect, StatusEffect, TurnEndReason,
};

fn empty_terrain(width: u32, height: u32) -> TerrainMask {
    let Ok(mask) = terrain::create_mask(width, height, Material::Empty) else {
        panic!("create_mask failed");
    };
    mask
}

fn make_player(id: &str, character_id: &str, position: FixedPoint) -> PlayerState {
    PlayerState {
        id: id.to_string(),
        team: 0,
        health: 300,
        max_health: 300,
        position,
        character_id: character_id.to_string(),
        statuses: Vec::new(),
    }
}

fn make_state(terrain: TerrainMask, players: Vec<PlayerState>) -> SimulationState {
    SimulationState {
        pending_turn_end_reason: TurnEndReason::Passed,
        last_turn_end_reason: TurnEndReason::Passed,
        simulation_version: 1,
        content_version: 1,
        tick: 0,
        turn_number: 0,
        phase: MatchPhase::Resolution,
        active_player_id: String::new(),
        wind_per_tick: 0,
        movement_remaining: 0,
        has_attacked_this_turn: false,
        terrain,
        players,
        objects: Vec::new(),
        processed_command_ids: Vec::new(),
        next_terrain_sequence: 0,
        next_object_sequence: 0,
        rng_state: 0,
    }
}

fn context(
    state: SimulationState,
    actor_id: &str,
    primary_target_id: Option<&str>,
    secondary_target_id: Option<&str>,
) -> ResolveContext {
    ResolveContext {
        state,
        rng: Rng::from_state(1),
        actor_id: actor_id.to_string(),
        primary_target_id: primary_target_id.map(str::to_string),
        secondary_target_id: secondary_target_id.map(str::to_string),
        impact_point: FixedPoint::zero(),
        damage: Vec::new(),
        terrain_ops: Vec::new(),
        object_changes: Vec::new(),
        random_outcomes: Vec::new(),
        terrain_cells_removed: 0,
        status_changes: Vec::new(),
    }
}

fn relocate_effect(magnitude: i32) -> SpecialEffect {
    SpecialEffect {
        trigger: EffectTrigger::OnFire,
        kind: EffectKind::Relocate,
        magnitude,
        magnitude_secondary: 0,
        duration_turns: 0,
    }
}

fn obscure_effect(magnitude: i32, duration_turns: u8) -> SpecialEffect {
    SpecialEffect {
        trigger: EffectTrigger::OnFire,
        kind: EffectKind::Obscure,
        magnitude,
        magnitude_secondary: 0,
        duration_turns,
    }
}

fn find_position(state: &SimulationState, id: &str) -> FixedPoint {
    let Some(player) = state.player(id) else {
        panic!("player {id} must exist");
    };
    player.position
}

fn find_health(state: &SimulationState, id: &str) -> u16 {
    let Some(player) = state.player(id) else {
        panic!("player {id} must exist");
    };
    player.health
}

fn throw_scene(thrown: PlayerState, destination_pos: FixedPoint) -> ResolveContext {
    let state = make_state(
        empty_terrain(20, 20),
        vec![
            make_player("huck", "huck", FixedPoint::zero()),
            thrown,
            make_player("destination", "aleph", destination_pos),
        ],
    );
    context(state, "huck", Some("thrown"), Some("destination"))
}

#[test]
fn relocate_moves_thrown_character_and_damages_both() {
    let thrown_pos = FixedPoint::from_cells(1, 1).unwrap_or(FixedPoint::zero());
    let destination_pos = FixedPoint::from_cells(9, 9).unwrap_or(FixedPoint::zero());

    let mut ctx = throw_scene(make_player("thrown", "aleph", thrown_pos), destination_pos);
    let result = resolve(&mut ctx, &relocate_effect(25));
    assert!(result.is_ok(), "resolve must succeed: {result:?}");

    assert_eq!(find_position(&ctx.state, "thrown"), destination_pos);
    assert_eq!(find_position(&ctx.state, "destination"), destination_pos);
    assert_eq!(find_health(&ctx.state, "thrown"), 300 - 40);
    assert_eq!(find_health(&ctx.state, "destination"), 300 - 25);

    let Some(thrown_entry) = ctx.damage_for("thrown") else {
        panic!("thrown must have a damage entry");
    };
    assert_eq!(thrown_entry.direct, 40);
    let Some(destination_entry) = ctx.damage_for("destination") else {
        panic!("destination must have a damage entry");
    };
    assert_eq!(destination_entry.direct, 25);
}

#[test]
fn relocate_does_not_move_a_locked_down_thrown_character() {
    let thrown_pos = FixedPoint::from_cells(1, 1).unwrap_or(FixedPoint::zero());
    let destination_pos = FixedPoint::from_cells(9, 9).unwrap_or(FixedPoint::zero());

    let mut thrown = make_player("thrown", "aleph", thrown_pos);
    thrown.statuses.push(StatusEffect { kind: EffectKind::Lockdown, magnitude: 0, turns_remaining: 2 });

    let mut ctx = throw_scene(thrown, destination_pos);
    let result = resolve(&mut ctx, &relocate_effect(25));
    assert!(result.is_ok(), "resolve must succeed: {result:?}");

    assert_eq!(
        find_position(&ctx.state, "thrown"),
        thrown_pos,
        "a locked-down character must not be relocated"
    );
}

#[test]
fn relocate_damage_caps_at_available_health_and_marks_eliminated() {
    let thrown_pos = FixedPoint::from_cells(1, 1).unwrap_or(FixedPoint::zero());
    let destination_pos = FixedPoint::from_cells(9, 9).unwrap_or(FixedPoint::zero());

    let mut thrown = make_player("thrown", "aleph", thrown_pos);
    thrown.health = 10;
    thrown.max_health = 10;

    let mut ctx = throw_scene(thrown, destination_pos);
    let result = resolve(&mut ctx, &relocate_effect(25));
    assert!(result.is_ok(), "resolve must succeed: {result:?}");

    assert_eq!(find_health(&ctx.state, "thrown"), 0);
    let Some(thrown_entry) = ctx.damage_for("thrown") else {
        panic!("thrown must have a damage entry");
    };
    assert_eq!(thrown_entry.direct, 10);
    assert!(thrown_entry.eliminated);
}

#[test]
fn obscure_creates_a_gas_cloud_object_with_the_stated_duration() {
    let actor_pos = FixedPoint::from_cells(3, 3).unwrap_or(FixedPoint::zero());
    let radius = 8 * BODY_WIDTH;

    let state = make_state(empty_terrain(20, 20), vec![make_player("aleph", "aleph", actor_pos)]);
    let mut ctx = context(state, "aleph", None, None);
    let result = resolve(&mut ctx, &obscure_effect(radius, 2));
    assert!(result.is_ok(), "resolve must succeed: {result:?}");

    assert_eq!(ctx.object_changes.len(), 1);
    let Some(created) = ctx.object_changes.first() else {
        panic!("must have created exactly one object");
    };
    assert_eq!(created.transition, PersistentObjectTransition::Spawned);
    assert_eq!(created.object.kind, PersistentObjectKind::GasCloud);
    assert_eq!(created.object.owner_id, "aleph");
    assert_eq!(created.object.position, actor_pos);
    assert_eq!(created.object.turns_remaining, 2);
    assert!(created.object.health > 0);

    assert_eq!(ctx.state.objects.len(), 1);
    let Some(in_state) = ctx.state.objects.first() else {
        panic!("the object must also be present in the authoritative state");
    };
    assert_eq!(in_state, &created.object);
}

#[test]
fn resolve_rejects_an_effect_kind_outside_this_family() {
    let state = make_state(empty_terrain(10, 10), vec![make_player("aleph", "aleph", FixedPoint::zero())]);
    let mut ctx = context(state, "aleph", None, None);
    let effect = SpecialEffect {
        trigger: EffectTrigger::OnImpact,
        kind: EffectKind::Knockback,
        magnitude: 0,
        magnitude_secondary: 0,
        duration_turns: 0,
    };
    assert!(resolve(&mut ctx, &effect).is_err());
}

#[test]
fn nearest_legal_position_returns_input_unchanged_when_already_legal() {
    let mask = empty_terrain(10, 10);
    let desired = FixedPoint::new(2500, 2500);
    assert_eq!(nearest_legal_position(&mask, desired), Ok(desired));
}

#[test]
fn nearest_legal_position_finds_the_nearest_legal_cell_in_documented_order() {
    // 5x5, all solid except (2, 4); ring 1 is fully solid, ring 2's south edge finds (2, 4).
    let mut mask = empty_terrain(5, 5);
    for y in 0..5i32 {
        for x in 0..5i32 {
            let _ = terrain::set_material(&mut mask, x, y, Material::Soil);
        }
    }
    let _ = terrain::set_material(&mut mask, 2, 4, Material::Empty);

    let Some(desired) = FixedPoint::from_cells(2, 2) else {
        panic!("from_cells failed");
    };
    let Some(expected) = FixedPoint::from_cells(2, 4) else {
        panic!("from_cells failed");
    };
    assert_eq!(nearest_legal_position(&mask, desired), Ok(expected));
}

#[test]
fn nearest_legal_position_treats_out_of_bounds_as_illegal_and_searches_inward() {
    // 5x5, entirely open; desired cell (6, 2) is out of bounds, ring 2's north edge finds (4, 0).
    let mask = empty_terrain(5, 5);
    let Some(desired) = FixedPoint::from_cells(6, 2) else {
        panic!("from_cells failed");
    };
    let Some(expected) = FixedPoint::from_cells(4, 0) else {
        panic!("from_cells failed");
    };
    assert_eq!(nearest_legal_position(&mask, desired), Ok(expected));
}

#[test]
fn draw_point_in_radius_is_deterministic_and_stays_within_radius() {
    let center = FixedPoint::from_cells(10, 10).unwrap_or(FixedPoint::zero());
    let radius = 5 * BODY_WIDTH;

    for seed in 0..10u64 {
        let mut rng_a = Rng::from_state(seed);
        let mut rng_b = Rng::from_state(seed);
        let a = draw_point_in_radius(&mut rng_a, center, radius);
        let b = draw_point_in_radius(&mut rng_b, center, radius);
        assert_eq!(a, b, "same seed must draw the same point (seed {seed})");

        let Ok(point) = a else {
            panic!("draw_point_in_radius failed for seed {seed}");
        };
        assert!(
            fixed::within_radius(point.drawn_point, center, radius),
            "seed {seed} drew {point:?}, outside radius {radius} of {center:?}"
        );
    }
}

fn chain_scene(players: Vec<PlayerState>) -> SimulationState {
    make_state(empty_terrain(300, 20), players)
}

fn chain_target(outcome: &RandomOutcome) -> (u32, u32, String, FixedPoint) {
    match outcome {
        RandomOutcome::ArzumChainStrikeTeleportTarget {
            candidate_count,
            selected_index,
            target_player_id,
            destination,
        } => (*candidate_count, *selected_index, target_player_id.clone(), *destination),
        other => panic!("expected a chain-strike record, got {other:?}"),
    }
}

#[test]
fn chain_strike_draws_only_living_enemies_near_the_first_target() {
    let first = FixedPoint::from_cells(5, 5).unwrap_or(FixedPoint::zero());
    let near = FixedPoint::from_cells(6, 5).unwrap_or(FixedPoint::zero());
    let far = FixedPoint::from_cells(200, 5).unwrap_or(FixedPoint::zero());
    let mut fallen = make_player("b-fallen", "aleph", near);
    fallen.health = 0;
    let state = chain_scene(vec![
        make_player("arzum", "arzum", near),
        make_player("z-target", "aleph", first),
        make_player("e-near", "aleph", near),
        fallen,
        make_player("q-far", "aleph", far),
    ]);

    for seed in 0..40u64 {
        let mut rng = Rng::from_state(seed);
        let drawn = draw_arzum_chain_strike_target(&mut rng, &state, "arzum", "z-target");
        let Ok(Some(outcome)) = drawn else { panic!("seed {seed}: a candidate must be drawn") };
        let (count, index, target, destination) = chain_target(&outcome);
        assert_eq!(count, 2, "only e-near and z-target qualify");
        assert!(index < count);
        let expected = ["e-near", "z-target"][index as usize];
        assert_eq!(target, expected, "candidates are drawn from identifier order");
        assert_eq!(destination, find_position(&state, expected));
        assert_ne!(rng.state(), seed, "a draw consumes the generator");
    }
}

#[test]
fn chain_strike_finds_nothing_without_a_nearby_enemy() {
    let far = FixedPoint::from_cells(200, 5).unwrap_or(FixedPoint::zero());
    let state = chain_scene(vec![
        make_player("arzum", "arzum", FixedPoint::zero()),
        make_player("q-far", "aleph", far),
    ]);
    let mut rng = Rng::from_state(9);
    // The first target is the actor's own id: the actor is never a candidate.
    assert_eq!(draw_arzum_chain_strike_target(&mut rng, &state, "arzum", "arzum"), Ok(None));
    assert_eq!(rng.state(), 9, "no candidate means no draw");
    assert_eq!(draw_arzum_chain_strike_target(&mut rng, &state, "arzum", "missing"), Ok(None));
    assert_eq!(rng.state(), 9);
}

#[test]
fn chain_strike_may_chain_back_onto_the_first_target() {
    let first = FixedPoint::from_cells(5, 5).unwrap_or(FixedPoint::zero());
    let state = chain_scene(vec![
        make_player("arzum", "arzum", FixedPoint::zero()),
        make_player("only", "aleph", first),
    ]);
    let mut rng = Rng::from_state(3);
    let Ok(Some(outcome)) = draw_arzum_chain_strike_target(&mut rng, &state, "arzum", "only") else {
        panic!("the first target itself qualifies");
    };
    assert_eq!(chain_target(&outcome), (1, 0, "only".to_string(), first));
}

#[test]
fn chain_strike_search_radius_is_inclusive() {
    let first = FixedPoint::zero();
    let edge = FixedPoint::new(CHAIN_STRIKE_SEARCH_RADIUS, 0);
    let beyond = FixedPoint::new(CHAIN_STRIKE_SEARCH_RADIUS + 1, 0);
    let state = chain_scene(vec![
        make_player("arzum", "arzum", FixedPoint::zero()),
        make_player("first", "aleph", first),
        make_player("edge", "aleph", edge),
        make_player("beyond", "aleph", beyond),
    ]);
    let mut rng = Rng::from_state(11);
    let Ok(Some(outcome)) = draw_arzum_chain_strike_target(&mut rng, &state, "arzum", "first") else {
        panic!("a candidate must be drawn");
    };
    assert_eq!(chain_target(&outcome).0, 2, "the edge player counts, the one beyond does not");
}

#[test]
fn teleport_lands_within_reach_and_on_open_ground() {
    let actor_pos = FixedPoint::from_cells(20, 10).unwrap_or(FixedPoint::zero());
    let mut terrain = empty_terrain(40, 20);
    for x in 0..40 {
        assert!(terrain::set_material(&mut terrain, x, 15, Material::ReinforcedStone));
    }
    for seed in 0..20u64 {
        let state = make_state(terrain.clone(), vec![make_player("aleph", "aleph", actor_pos)]);
        let mut ctx = context(state, "aleph", None, None);
        ctx.rng = Rng::from_state(seed);
        let effect = SpecialEffect {
            trigger: EffectTrigger::OnFire,
            kind: EffectKind::Teleport,
            magnitude: 6 * BODY_WIDTH,
            magnitude_secondary: 0,
            duration_turns: 0,
        };
        assert_eq!(resolve(&mut ctx, &effect), Ok(()));
        let landed = find_position(&ctx.state, "aleph");
        assert!(!terrain::is_solid_at(&ctx.state.terrain, landed), "seed {seed} landed in terrain");
        assert_eq!(ctx.random_outcomes.len(), 1);
    }
}

#[test]
fn teleport_refuses_a_non_positive_radius() {
    let state = make_state(empty_terrain(10, 10), vec![make_player("aleph", "aleph", FixedPoint::zero())]);
    let mut ctx = context(state, "aleph", None, None);
    let before = ctx.state.clone();
    let effect = SpecialEffect {
        trigger: EffectTrigger::OnFire,
        kind: EffectKind::Teleport,
        magnitude: 0,
        magnitude_secondary: 0,
        duration_turns: 0,
    };
    assert_eq!(
        resolve(&mut ctx, &effect),
        Err(db_sim_core::error::SimError::OutOfRange { field: "relocation::teleport_radius" })
    );
    assert_eq!(ctx.state, before);
}

#[test]
fn nearest_legal_position_fails_on_a_fully_solid_board() {
    let Ok(mask) = terrain::create_mask(4, 4, Material::Soil) else { panic!("mask must build") };
    assert_eq!(
        nearest_legal_position(&mask, FixedPoint::zero()),
        Err(db_sim_core::error::SimError::OutOfRange { field: "relocation::teleport_destination" })
    );
}

#[test]
fn chain_strike_draw_ignores_roster_order() {
    let spot = |x: i32| FixedPoint::from_cells(x, 5).unwrap_or(FixedPoint::zero());
    let roster = vec![
        make_player("arzum", "arzum", spot(0)),
        make_player("m-mid", "aleph", spot(4)),
        make_player("a-first", "aleph", spot(5)),
        make_player("z-last", "aleph", spot(6)),
    ];
    let mut reversed = roster.clone();
    reversed.reverse();
    let forward = chain_scene(roster);
    let backward = chain_scene(reversed);
    for seed in 0..25u64 {
        let mut rng_forward = Rng::from_state(seed);
        let mut rng_backward = Rng::from_state(seed);
        assert_eq!(
            draw_arzum_chain_strike_target(&mut rng_forward, &forward, "arzum", "a-first"),
            draw_arzum_chain_strike_target(&mut rng_backward, &backward, "arzum", "a-first"),
        );
        assert_eq!(rng_forward, rng_backward);
    }
}

#[test]
fn living_opponents_ignore_roster_order() {
    let mut fallen = make_player("c-fallen", "aleph", FixedPoint::zero());
    fallen.health = 0;
    let roster = vec![
        make_player("zed", "aleph", FixedPoint::zero()),
        make_player("actor", "huck", FixedPoint::zero()),
        fallen,
        make_player("Bravo", "aleph", FixedPoint::zero()),
        make_player("alpha", "aleph", FixedPoint::zero()),
    ];
    let mut shuffled = roster.clone();
    shuffled.rotate_left(2);
    let first = context(make_state(empty_terrain(4, 4), roster), "actor", None, None);
    let second = context(make_state(empty_terrain(4, 4), shuffled), "actor", None, None);
    let expected = vec!["Bravo".to_string(), "alpha".to_string(), "zed".to_string()];
    assert_eq!(first.living_opponent_ids(), expected, "byte order puts upper case first");
    assert_eq!(second.living_opponent_ids(), expected);
}

use db_sim_core::error::{SimError, SimResult};
use db_sim_core::fixed::{FixedPoint, BODY_WIDTH};
use db_sim_core::resolve::status::{resolve, tick_statuses};
use db_sim_core::resolve::ResolveContext;
use db_sim_core::rng::Rng;
use db_sim_core::terrain::TerrainMask;
use db_sim_core::types::{
    EffectKind, EffectTrigger, MatchPhase, PlayerState, SimulationState, SpecialEffect,
    StatusEffect, StatusTransition, TurnEndReason,
};

fn make_player(id: &str, position: FixedPoint) -> PlayerState {
    PlayerState {
        id: id.to_string(),
        team: 0,
        health: 100,
        max_health: 100,
        position,
        character_id: "test-character".to_string(),
        statuses: Vec::new(),
    }
}

fn test_state(players: Vec<PlayerState>) -> SimulationState {
    SimulationState {
        pending_turn_end_reason: TurnEndReason::Passed,
        last_turn_end_reason: TurnEndReason::Passed,
        simulation_version: 2,
        content_version: 1,
        tick: 0,
        turn_number: 1,
        phase: MatchPhase::Resolution,
        active_player_id: "actor".to_string(),
        wind_per_tick: 0,
        movement_remaining: 0,
        has_attacked_this_turn: false,
        terrain: TerrainMask { width: 1, height: 1, cells: vec![0u8] },
        players,
        objects: Vec::new(),
        processed_command_ids: Vec::new(),
        next_terrain_sequence: 0,
        next_object_sequence: 0,
        rng_state: 1,
    }
}

fn lockdown_effect(magnitude: i32, duration_turns: u8) -> SpecialEffect {
    SpecialEffect {
        trigger: EffectTrigger::OnFire,
        kind: EffectKind::Lockdown,
        magnitude,
        magnitude_secondary: 0,
        duration_turns,
    }
}

fn chill_effect(magnitude: i32, duration_turns: u8) -> SpecialEffect {
    SpecialEffect {
        trigger: EffectTrigger::OnImpact,
        kind: EffectKind::Chill,
        magnitude,
        magnitude_secondary: 0,
        duration_turns,
    }
}

fn embers_effect(magnitude: i32, radius: i32, duration_turns: u8) -> SpecialEffect {
    SpecialEffect {
        trigger: EffectTrigger::OnImpact,
        kind: EffectKind::Embers,
        magnitude,
        magnitude_secondary: radius,
        duration_turns,
    }
}

/// One resolve context reused across actions, so each test can resolve several effects.
struct Harness {
    ctx: ResolveContext,
}

impl Harness {
    fn new(players: Vec<PlayerState>) -> Self {
        Self {
            ctx: ResolveContext {
                state: test_state(players),
                rng: Rng::from_state(1),
                actor_id: "actor".to_string(),
                primary_target_id: None,
                secondary_target_id: None,
                impact_point: FixedPoint::zero(),
                damage: Vec::new(),
                terrain_ops: Vec::new(),
                object_changes: Vec::new(),
                random_outcomes: Vec::new(),
                terrain_cells_removed: 0,
                status_changes: Vec::new(),
            },
        }
    }

    fn resolve(
        &mut self,
        actor_id: &str,
        primary_target_id: Option<&str>,
        impact_point: FixedPoint,
        effect: &SpecialEffect,
    ) -> SimResult<()> {
        self.ctx.actor_id = actor_id.to_string();
        self.ctx.primary_target_id = primary_target_id.map(str::to_string);
        self.ctx.impact_point = impact_point;
        resolve(&mut self.ctx, effect)
    }
}

fn statuses_of<'a>(state: &'a SimulationState, player_id: &str) -> &'a [StatusEffect] {
    let Some(player) = state.player(player_id) else {
        panic!("fixture invariant: player `{player_id}` must exist");
    };
    &player.statuses
}

fn seeded(kind: EffectKind, magnitude: i32, turns_remaining: u8) -> StatusEffect {
    StatusEffect { kind, magnitude, turns_remaining }
}

#[test]
fn lockdown_applies_status_with_duration_from_effect() {
    let mut harness = Harness::new(vec![
        make_player("actor", FixedPoint::zero()),
        make_player("target", FixedPoint::zero()),
    ]);
    let effect = lockdown_effect(2, 2);
    assert_eq!(harness.resolve("actor", Some("target"), FixedPoint::zero(), &effect), Ok(()));
    let statuses = statuses_of(&harness.ctx.state, "target");
    assert_eq!(statuses.len(), 1);
    let Some(status) = statuses.first() else {
        panic!("status must be present after application");
    };
    assert_eq!(status.kind, EffectKind::Lockdown);
    assert_eq!(status.magnitude, 2);
    assert_eq!(status.turns_remaining, 2);
}

#[test]
fn lockdown_reapplication_refreshes_rather_than_stacks_or_sums() {
    let mut harness = Harness::new(vec![
        make_player("actor", FixedPoint::zero()),
        make_player("target", FixedPoint::zero()),
    ]);
    assert_eq!(harness.resolve("actor", Some("target"), FixedPoint::zero(), &lockdown_effect(2, 2)), Ok(()));
    assert_eq!(harness.resolve("actor", Some("target"), FixedPoint::zero(), &lockdown_effect(2, 3)), Ok(()));
    let statuses = statuses_of(&harness.ctx.state, "target");
    assert_eq!(statuses.len(), 1);
    let Some(status) = statuses.first() else {
        panic!("status must be present after application");
    };
    assert_eq!(status.turns_remaining, 3);
    assert_eq!(status.magnitude, 2);
}

#[test]
fn lockdown_without_primary_target_is_an_error() {
    let mut harness = Harness::new(vec![make_player("actor", FixedPoint::zero())]);
    assert_eq!(
        harness.resolve("actor", None, FixedPoint::zero(), &lockdown_effect(2, 2)),
        Err(SimError::OutOfRange { field: "lockdown.primary_target_id" })
    );
}

#[test]
fn lockdown_against_unknown_target_is_an_error() {
    let mut harness = Harness::new(vec![make_player("actor", FixedPoint::zero())]);
    assert_eq!(
        harness.resolve("actor", Some("ghost"), FixedPoint::zero(), &lockdown_effect(2, 2)),
        Err(SimError::UnknownDefinition)
    );
}

#[test]
fn chill_applies_movement_cap_reduction_with_magnitude_and_duration_from_effect() {
    let mut harness = Harness::new(vec![
        make_player("actor", FixedPoint::zero()),
        make_player("target", FixedPoint::zero()),
    ]);
    let effect = chill_effect(2 * BODY_WIDTH, 1);
    assert_eq!(harness.resolve("actor", Some("target"), FixedPoint::zero(), &effect), Ok(()));
    let statuses = statuses_of(&harness.ctx.state, "target");
    assert_eq!(statuses.len(), 1);
    let Some(status) = statuses.first() else {
        panic!("status must be present after application");
    };
    assert_eq!(status.kind, EffectKind::Chill);
    assert_eq!(status.magnitude, 2 * BODY_WIDTH);
    assert_eq!(status.turns_remaining, 1);
}

#[test]
fn chill_without_primary_target_is_an_error() {
    let mut harness = Harness::new(vec![make_player("actor", FixedPoint::zero())]);
    assert_eq!(
        harness.resolve("actor", None, FixedPoint::zero(), &chill_effect(2, 1)),
        Err(SimError::OutOfRange { field: "chill.primary_target_id" })
    );
}

#[test]
fn embers_marks_units_within_radius_of_the_impact_point() {
    let radius = 4 * BODY_WIDTH;
    let inside = make_player("inside", FixedPoint::new(radius, 0));
    let outside = make_player("outside", FixedPoint::new(radius + 1, 0));
    let mut harness = Harness::new(vec![make_player("actor", FixedPoint::zero()), inside, outside]);
    let effect = embers_effect(5, radius, 2);
    assert_eq!(harness.resolve("actor", None, FixedPoint::zero(), &effect), Ok(()));
    let inside_statuses = statuses_of(&harness.ctx.state, "inside");
    assert_eq!(inside_statuses.len(), 1);
    let Some(inside_status) = inside_statuses.first() else {
        panic!("status must be present for the player inside the zone");
    };
    assert_eq!(inside_status.kind, EffectKind::Embers);
    assert_eq!(inside_status.magnitude, 5);
    assert_eq!(inside_status.turns_remaining, 2);
    assert!(statuses_of(&harness.ctx.state, "outside").is_empty());
}

#[test]
fn embers_skips_eliminated_players() {
    let mut dead = make_player("dead", FixedPoint::zero());
    dead.health = 0;
    let mut harness = Harness::new(vec![make_player("actor", FixedPoint::zero()), dead]);
    let effect = embers_effect(5, BODY_WIDTH, 2);
    assert_eq!(harness.resolve("actor", None, FixedPoint::zero(), &effect), Ok(()));
    assert!(statuses_of(&harness.ctx.state, "dead").is_empty());
}

#[test]
fn embers_reapplication_refreshes_rather_than_stacking_damage() {
    let victim = make_player("victim", FixedPoint::zero());
    let mut harness = Harness::new(vec![make_player("actor", FixedPoint::zero()), victim]);
    let first = embers_effect(5, BODY_WIDTH, 2);
    let second = embers_effect(5, BODY_WIDTH, 2);
    assert_eq!(harness.resolve("actor", None, FixedPoint::zero(), &first), Ok(()));
    assert_eq!(harness.resolve("actor", None, FixedPoint::zero(), &second), Ok(()));
    let statuses = statuses_of(&harness.ctx.state, "victim");
    assert_eq!(statuses.len(), 1);
    let Some(status) = statuses.first() else {
        panic!("status must be present after application");
    };
    assert_eq!(status.magnitude, 5);
}

#[test]
fn statuses_stay_sorted_by_kind_regardless_of_application_order() {
    let mut harness = Harness::new(vec![
        make_player("actor", FixedPoint::zero()),
        make_player("target", FixedPoint::zero()),
    ]);
    assert_eq!(harness.resolve("actor", Some("target"), FixedPoint::zero(), &lockdown_effect(1, 2)), Ok(()));
    assert_eq!(harness.resolve("actor", None, FixedPoint::zero(), &embers_effect(5, BODY_WIDTH, 2)), Ok(()));
    assert_eq!(harness.resolve("actor", Some("target"), FixedPoint::zero(), &chill_effect(1, 1)), Ok(()));
    let statuses = statuses_of(&harness.ctx.state, "target");
    let kinds: Vec<EffectKind> = statuses.iter().map(|s| s.kind).collect();
    assert_eq!(kinds, vec![EffectKind::Chill, EffectKind::Embers, EffectKind::Lockdown]);
    assert!(kinds.is_sorted());
}

#[test]
fn tick_statuses_decrements_and_removes_at_zero() {
    let mut player = make_player("target", FixedPoint::zero());
    player.statuses.push(StatusEffect { kind: EffectKind::Chill, magnitude: 1, turns_remaining: 1 });
    let mut state = test_state(vec![player]);
    let _expired = tick_statuses(&mut state, "target");
    assert!(statuses_of(&state, "target").is_empty());
}

#[test]
fn a_status_survives_exactly_its_stated_number_of_turns() {
    let mut harness = Harness::new(vec![
        make_player("actor", FixedPoint::zero()),
        make_player("target", FixedPoint::zero()),
    ]);
    assert_eq!(harness.resolve("actor", Some("target"), FixedPoint::zero(), &lockdown_effect(2, 2)), Ok(()));
    assert_eq!(statuses_of(&harness.ctx.state, "target").len(), 1);
    let _expired = tick_statuses(&mut harness.ctx.state, "target");
    let statuses = statuses_of(&harness.ctx.state, "target");
    assert_eq!(statuses.len(), 1, "must still be present after one tick");
    let Some(status) = statuses.first() else {
        panic!("status must be present after one tick");
    };
    assert_eq!(status.turns_remaining, 1);
    let _expired = tick_statuses(&mut harness.ctx.state, "target");
    assert!(statuses_of(&harness.ctx.state, "target").is_empty(), "must be gone after the second tick");
}

#[test]
fn tick_statuses_leaves_survivors_sorted_by_kind() {
    let mut player = make_player("target", FixedPoint::zero());
    player.statuses = vec![
        StatusEffect { kind: EffectKind::Chill, magnitude: 1, turns_remaining: 3 },
        StatusEffect { kind: EffectKind::Lockdown, magnitude: 1, turns_remaining: 1 },
    ];
    let mut state = test_state(vec![player]);
    let _expired = tick_statuses(&mut state, "target");
    let statuses = statuses_of(&state, "target");
    assert_eq!(statuses.len(), 1);
    let Some(status) = statuses.first() else {
        panic!("Chill must survive the tick");
    };
    assert_eq!(status.kind, EffectKind::Chill);
    assert_eq!(status.turns_remaining, 2);
}

#[test]
fn tick_statuses_decrements_only_the_affected_player() {
    let mut a = make_player("a", FixedPoint::zero());
    a.statuses.push(StatusEffect { kind: EffectKind::Chill, magnitude: 1, turns_remaining: 2 });
    let mut b = make_player("b", FixedPoint::zero());
    b.statuses.push(StatusEffect { kind: EffectKind::Embers, magnitude: 5, turns_remaining: 1 });
    let mut state = test_state(vec![a, b]);
    let changes = tick_statuses(&mut state, "a");
    let [a_status] = statuses_of(&state, "a") else {
        panic!("a must retain exactly one status")
    };
    let [b_status] = statuses_of(&state, "b") else {
        panic!("b must retain exactly one status")
    };
    let [change] = changes.as_slice() else {
        panic!("only a's status must report")
    };
    assert_eq!(a_status.turns_remaining, 1);
    assert_eq!(b_status.turns_remaining, 1, "another player's duration must not advance on a's status boundary");
    assert_eq!(change.player_id, "a");
}

#[test]
fn applying_a_new_status_records_it_as_applied() {
    let mut harness = Harness::new(vec![make_player("target", FixedPoint::zero())]);
    assert_eq!(harness.resolve("actor", Some("target"), FixedPoint::zero(), &lockdown_effect(2, 2)), Ok(()));
    let [change] = harness.ctx.status_changes.as_slice() else {
        panic!("expected exactly one record, got {}", harness.ctx.status_changes.len())
    };
    assert_eq!(change.player_id, "target");
    assert_eq!(change.kind, EffectKind::Lockdown);
    assert_eq!(change.transition, StatusTransition::Applied { magnitude: 2, turns_remaining: 2 });
    assert!(!change.transition.removes_status());
}

#[test]
fn reapplying_a_status_records_what_it_replaced() {
    let mut player_state = make_player("target", FixedPoint::zero());
    player_state.statuses.push(seeded(EffectKind::Lockdown, 9, 7));
    let mut harness = Harness::new(vec![player_state]);
    assert_eq!(harness.resolve("actor", Some("target"), FixedPoint::zero(), &lockdown_effect(2, 2)), Ok(()));
    let [change] = harness.ctx.status_changes.as_slice() else {
        panic!("expected exactly one record")
    };
    assert_eq!(
        change.transition,
        StatusTransition::Refreshed {
            magnitude: 2,
            turns_remaining: 2,
            replaced_magnitude: 9,
            replaced_turns_remaining: 7,
        },
    );
}

#[test]
fn the_status_tick_records_survivors_and_expiries_separately() {
    let mut player_state = make_player("target", FixedPoint::zero());
    player_state.statuses.push(seeded(EffectKind::Chill, 1, 1));
    player_state.statuses.push(seeded(EffectKind::Lockdown, 2, 3));
    player_state.statuses.sort_by_key(|s| s.kind);
    let mut state = test_state(vec![player_state]);
    let changes = tick_statuses(&mut state, "target");
    assert_eq!(changes.len(), 2, "both statuses must report");
    let Some(chill) = changes.iter().find(|c| c.kind == EffectKind::Chill) else {
        panic!("chill must report")
    };
    let Some(lockdown) = changes.iter().find(|c| c.kind == EffectKind::Lockdown) else {
        panic!("lockdown must report")
    };
    assert_eq!(chill.transition, StatusTransition::Expired);
    assert!(chill.transition.removes_status());
    assert_eq!(lockdown.transition, StatusTransition::Ticked { turns_remaining: 2 });
    assert!(!lockdown.transition.removes_status());
    assert_eq!(statuses_of(&state, "target").len(), 1);
}

#[test]
fn a_status_applied_and_expired_in_one_call_is_invisible_to_a_diff_but_fully_recorded() {
    let mut harness = Harness::new(vec![make_player("target", FixedPoint::zero())]);
    let before: Vec<StatusEffect> = statuses_of(&harness.ctx.state, "target").to_vec();
    assert_eq!(harness.resolve("actor", Some("target"), FixedPoint::zero(), &lockdown_effect(2, 1)), Ok(()));
    let expiries = tick_statuses(&mut harness.ctx.state, "target");
    harness.ctx.status_changes.extend(expiries);
    let after: Vec<StatusEffect> = statuses_of(&harness.ctx.state, "target").to_vec();
    assert_eq!(before, after, "fixture must produce no observable difference, or it is not testing the gap");
    assert!(before.is_empty());
    let kinds: Vec<&StatusTransition> =
        harness.ctx.status_changes.iter().map(|change| &change.transition).collect();
    assert_eq!(
        kinds,
        vec![&StatusTransition::Applied { magnitude: 2, turns_remaining: 1 }, &StatusTransition::Expired],
        "the applied-then-expired pair must both be reported, in that order",
    );
}

#[test]
fn the_tick_reports_only_the_affected_player() {
    let mut a = make_player("a", FixedPoint::zero());
    a.statuses.push(seeded(EffectKind::Lockdown, 1, 1));
    let mut b = make_player("b", FixedPoint::new(1024, 0));
    b.statuses.push(seeded(EffectKind::Lockdown, 1, 5));
    let mut state = test_state(vec![a, b]);
    let changes = tick_statuses(&mut state, "a");
    let [for_a] = changes.as_slice() else {
        panic!("only a's status must report")
    };
    assert_eq!(for_a.player_id, "a");
    assert_eq!(for_a.transition, StatusTransition::Expired);
    let [b_status] = statuses_of(&state, "b") else {
        panic!("b must retain exactly one status")
    };
    assert_eq!(b_status.turns_remaining, 5, "b must not tick or report while a is affected");
}

#[test]
fn guarantee_crit_is_count_based_and_does_not_duration_tick() {
    let mut player = make_player("target", FixedPoint::zero());
    player.statuses.push(seeded(EffectKind::GuaranteeCrit, 3, u8::MAX));
    player.statuses.push(seeded(EffectKind::Lockdown, 2, 2));
    player.statuses.sort_by_key(|status| status.kind);
    let mut state = test_state(vec![player]);
    let changes = tick_statuses(&mut state, "target");
    let statuses = statuses_of(&state, "target");
    let Some(guarantee_crit) = statuses.iter().find(|status| status.kind == EffectKind::GuaranteeCrit) else {
        panic!("GuaranteeCrit must remain until an attack consumes its charges")
    };
    assert_eq!(guarantee_crit.magnitude, 3);
    assert_eq!(guarantee_crit.turns_remaining, u8::MAX);
    assert!(
        changes.iter().all(|change| change.kind != EffectKind::GuaranteeCrit),
        "count-based charge state must not emit a duration transition",
    );
    let Some(lockdown) = statuses.iter().find(|status| status.kind == EffectKind::Lockdown) else {
        panic!("the duration status must survive its first tick")
    };
    assert_eq!(lockdown.turns_remaining, 1);
    let [change] = changes.as_slice() else {
        panic!("only Lockdown must emit a duration transition")
    };
    assert_eq!(change.transition, StatusTransition::Ticked { turns_remaining: 1 });
}

#[test]
fn ticking_an_unknown_player_is_a_non_mutating_no_op() {
    let mut player = make_player("target", FixedPoint::zero());
    player.statuses.push(seeded(EffectKind::Lockdown, 2, 2));
    let mut state = test_state(vec![player]);
    let before = state.clone();
    let changes = tick_statuses(&mut state, "missing");
    assert!(changes.is_empty());
    assert_eq!(state, before);
}

#[test]
fn each_status_expires_on_its_own_schedule_and_forced_crits_persist() {
    let mut player = make_player("target", FixedPoint::zero());
    player.statuses.push(StatusEffect { kind: EffectKind::Chill, magnitude: 1, turns_remaining: 1 });
    player.statuses.push(StatusEffect { kind: EffectKind::Lockdown, magnitude: 0, turns_remaining: 2 });
    player.statuses.push(StatusEffect { kind: EffectKind::GuaranteeCrit, magnitude: 2, turns_remaining: 0 });
    let mut state = test_state(vec![player]);

    let first = tick_statuses(&mut state, "target");
    assert_eq!(first.len(), 2, "one record per duration status");
    assert_eq!(
        statuses_of(&state, "target"),
        &[
            StatusEffect { kind: EffectKind::Lockdown, magnitude: 0, turns_remaining: 1 },
            StatusEffect { kind: EffectKind::GuaranteeCrit, magnitude: 2, turns_remaining: 0 },
        ]
    );

    let _second = tick_statuses(&mut state, "target");
    assert_eq!(
        statuses_of(&state, "target"),
        &[StatusEffect { kind: EffectKind::GuaranteeCrit, magnitude: 2, turns_remaining: 0 }]
    );

    let third = tick_statuses(&mut state, "target");
    assert!(third.is_empty(), "count-based statuses produce no tick records");
    assert_eq!(statuses_of(&state, "target").len(), 1);
}

#[test]
fn ticking_an_unknown_player_changes_nothing() {
    let mut state = test_state(vec![make_player("target", FixedPoint::zero())]);
    let before = state.clone();
    assert!(tick_statuses(&mut state, "nobody").is_empty());
    assert_eq!(state, before);
}

#[test]
fn chill_and_lockdown_against_an_eliminated_target_are_errors_and_change_nothing() {
    let mut fallen = make_player("target", FixedPoint::zero());
    fallen.health = 0;
    let mut harness = Harness::new(vec![make_player("actor", FixedPoint::zero()), fallen]);
    assert_eq!(
        harness.resolve("actor", Some("target"), FixedPoint::zero(), &lockdown_effect(2, 2)),
        Err(SimError::UnknownDefinition)
    );
    assert_eq!(
        harness.resolve("actor", Some("target"), FixedPoint::zero(), &chill_effect(3, 2)),
        Err(SimError::UnknownDefinition)
    );
    assert!(statuses_of(&harness.ctx.state, "target").is_empty());
    assert!(harness.ctx.status_changes.is_empty());
}

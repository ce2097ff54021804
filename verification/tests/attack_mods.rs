use db_sim_core::fixed::{FixedPoint, POSITION_SCALE};
use db_sim_core::resolve::attack_mods::{
    cluster_submunition_landing, resolve, CLUSTER_RING_STEP, CRIT_ROLL_BOUND,
    MULTI_STRIKE_CRIT_PERCENT_SCALE,
};
use db_sim_core::resolve::ResolveContext;
use db_sim_core::rng::Rng;
use db_sim_core::terrain::{self, Material, TerrainMask};
use db_sim_core::types::{
    DamageEvent, EffectKind, EffectTrigger, MatchPhase, PlayerState, SimulationState,
    SpecialEffect, StatusEffect, TurnEndReason,
};

fn make_player(id: &str, position: FixedPoint, health: u16) -> PlayerState {
    PlayerState {
        id: id.to_string(),
        team: 0,
        health,
        max_health: health,
        position,
        character_id: "test-character".to_string(),
        statuses: Vec::new(),
    }
}

fn test_state(players: Vec<PlayerState>) -> SimulationState {
    SimulationState {
        pending_turn_end_reason: TurnEndReason::Passed,
        last_turn_end_reason: TurnEndReason::Passed,
        simulation_version: 2,
        content_version: 1,
        tick: 0,
        turn_number: 1,
        phase: MatchPhase::Resolution,
        active_player_id: "actor".to_string(),
        wind_per_tick: 0,
        movement_remaining: 0,
        has_attacked_this_turn: false,
        terrain: TerrainMask { width: 40, height: 40, cells: vec![0u8; 1600] },
        players,
        objects: Vec::new(),
        processed_command_ids: Vec::new(),
        next_terrain_sequence: 0,
        next_object_sequence: 0,
        rng_state: 1,
    }
}

/// One resolve context reused across actions.
struct Harness {
    ctx: ResolveContext,
}

impl Harness {
    fn new(players: Vec<PlayerState>, seed: u64) -> Self {
        Self {
            ctx: ResolveContext {
                state: test_state(players),
                rng: Rng::from_state(seed),
                actor_id: String::new(),
                primary_target_id: None,
                secondary_target_id: None,
                impact_point: FixedPoint::zero(),
                damage: Vec::new(),
                terrain_ops: Vec::new(),
                object_changes: Vec::new(),
                random_outcomes: Vec::new(),
                terrain_cells_removed: 0,
                status_changes: Vec::new(),
            },
        }
    }

    fn resolve(
        &mut self,
        actor_id: &str,
        primary_target_id: Option<&str>,
        secondary_target_id: Option<&str>,
        impact_point: FixedPoint,
        effect: &SpecialEffect,
    ) -> db_sim_core::error::SimResult<()> {
        self.ctx.actor_id = actor_id.to_string();
        self.ctx.primary_target_id = primary_target_id.map(str::to_string);
        self.ctx.secondary_target_id = secondary_target_id.map(str::to_string);
        self.ctx.impact_point = impact_point;
        resolve(&mut self.ctx, effect)
    }
}

fn multi_strike_effect(
    strike_count: i32,
    uncrit_percent: i32,
    crit_percent: i32,
    crit_chance_percent: u8,
) -> SpecialEffect {
    SpecialEffect {
        trigger: EffectTrigger::OnImpact,
        kind: EffectKind::MultiStrike,
        magnitude: strike_count,
        magnitude_secondary: uncrit_percent
            .saturating_add(crit_percent.saturating_mul(MULTI_STRIKE_CRIT_PERCENT_SCALE)),
        duration_turns: crit_chance_percent,
    }
}

fn guarantee_crit_effect(magnitude: i32) -> SpecialEffect {
    SpecialEffect {
        trigger: EffectTrigger::OnFire,
        kind: EffectKind::GuaranteeCrit,
        magnitude,
        magnitude_secondary: 0,
        duration_turns: 0,
    }
}

fn cluster_effect(submunition_count: i32, per_submunition_percent: i32, cap_percent: u8) -> SpecialEffect {
    SpecialEffect {
        trigger: EffectTrigger::OnImpact,
        kind: EffectKind::Cluster,
        magnitude: submunition_count,
        magnitude_secondary: per_submunition_percent,
        duration_turns: cap_percent,
    }
}

fn return_effect(per_pass_percent: i32, cap_percent: i32) -> SpecialEffect {
    SpecialEffect {
        trigger: EffectTrigger::OnImpact,
        kind: EffectKind::Return,
        magnitude: per_pass_percent,
        magnitude_secondary: cap_percent,
        duration_turns: 0,
    }
}

fn tunnel_effect(max_bore_cells: i32, detonation_percent: i32) -> SpecialEffect {
    SpecialEffect {
        trigger: EffectTrigger::OnFire,
        kind: EffectKind::Tunnel,
        magnitude: max_bore_cells,
        magnitude_secondary: detonation_percent,
        duration_turns: 0,
    }
}

fn damage_of<'a>(harness: &'a Harness, player_id: &str) -> Option<&'a DamageEvent> {
    harness.ctx.damage_for(player_id)
}

fn statuses_of<'a>(state: &'a SimulationState, player_id: &str) -> &'a [StatusEffect] {
    let Some(player) = state.player(player_id) else {
        panic!("fixture invariant: player `{player_id}` must exist");
    };
    &player.statuses
}

fn actor_and_target(seed: u64) -> Harness {
    Harness::new(
        vec![
            make_player("actor", FixedPoint::zero(), 100),
            make_player("target", FixedPoint::zero(), 400),
        ],
        seed,
    )
}

fn soil_row_with_stone(harness: &mut Harness) {
    for x in 0..10 {
        let material = if x == 5 { Material::ReinforcedStone } else { Material::Soil };
        terrain::set_material(&mut harness.ctx.state.terrain, x, 0, material);
    }
}

#[test]
fn multi_strike_three_uncrit_strikes_total_karls_72_percent() {
    let mut harness = actor_and_target(1);
    let effect = multi_strike_effect(3, 24, 74, 0);

    assert_eq!(harness.resolve("actor", Some("target"), None, FixedPoint::zero(), &effect), Ok(()));

    let Some(event) = damage_of(&harness, "target") else {
        panic!("target must have taken damage");
    };
    assert_eq!(event.direct, 72, "three strikes at 24% uncrit must total 72, not one strike's 24");
    assert!(!event.was_critical);
}

#[test]
fn multi_strike_each_strike_rolls_crit_independently() {
    let mut found_seed = None;
    for candidate in 0u64..500 {
        let mut probe = Rng::from_state(candidate);
        let crit_count = (0..3).filter(|_| probe.bounded(CRIT_ROLL_BOUND) < 2_000).count();
        if crit_count == 1 {
            found_seed = Some(candidate);
            break;
        }
    }
    let Some(seed) = found_seed else {
        panic!("fixture invariant: at least one seed under 500 must produce exactly one crit in three 20% rolls");
    };

    let mut harness = actor_and_target(seed);
    let effect = multi_strike_effect(3, 24, 74, 20);

    assert_eq!(harness.resolve("actor", Some("target"), None, FixedPoint::zero(), &effect), Ok(()));

    let Some(event) = damage_of(&harness, "target") else {
        panic!("target must have taken damage");
    };
    assert_eq!(event.direct, 122);
    assert!(event.was_critical);
}

#[test]
fn multi_strike_honours_guarantee_crit_and_consumes_it() {
    let mut harness = actor_and_target(7);

    let mark = guarantee_crit_effect(2);
    assert_eq!(harness.resolve("actor", Some("target"), None, FixedPoint::zero(), &mark), Ok(()));
    let statuses = statuses_of(&harness.ctx.state, "target");
    assert_eq!(statuses.len(), 1);
    let Some(status) = statuses.first() else {
        panic!("fixture invariant: exactly one status must be present");
    };
    assert_eq!(status.kind, EffectKind::GuaranteeCrit);
    assert_eq!(status.magnitude, 2);

    let strikes = multi_strike_effect(3, 24, 74, 0);
    assert_eq!(harness.resolve("actor", Some("target"), None, FixedPoint::zero(), &strikes), Ok(()));

    let Some(event) = damage_of(&harness, "target") else {
        panic!("target must have taken damage");
    };
    assert_eq!(event.direct, 74 + 74 + 24);
    assert!(event.was_critical);

    let statuses_after = statuses_of(&harness.ctx.state, "target");
    assert!(
        statuses_after.is_empty(),
        "GuaranteeCrit must be removed once its forced-crit count reaches zero"
    );
}

#[test]
fn guarantee_crit_reapplication_refreshes_rather_than_stacks() {
    let mut harness = actor_and_target(3);

    let first = guarantee_crit_effect(3);
    assert_eq!(harness.resolve("actor", Some("target"), None, FixedPoint::zero(), &first), Ok(()));
    let second = guarantee_crit_effect(1);
    assert_eq!(harness.resolve("actor", Some("target"), None, FixedPoint::zero(), &second), Ok(()));

    let statuses = statuses_of(&harness.ctx.state, "target");
    assert_eq!(statuses.len(), 1, "reapplication must replace, never duplicate");
    let Some(status) = statuses.first() else {
        panic!("fixture invariant: exactly one status must be present");
    };
    assert_eq!(
        status.magnitude, 1,
        "reapplication must refresh to the new count, not sum with the old one",
    );
}

#[test]
fn cluster_per_target_cap_holds_when_all_submunitions_hit_one_target() {
    let mut harness = actor_and_target(11);
    let effect = cluster_effect(5, 16, 56);

    assert_eq!(harness.resolve("actor", None, None, FixedPoint::zero(), &effect), Ok(()));

    let Some(event) = damage_of(&harness, "target") else {
        panic!("target must have taken damage from at least one submunition");
    };
    assert_eq!(event.direct, 56, "five 16% submunitions on one target must cap at 56, not sum to 80");
    assert_eq!(harness.ctx.terrain_ops.len(), 5, "each submunition must leave its own crater");
}

#[test]
fn cluster_uncapped_total_when_below_the_cap() {
    let mut harness = actor_and_target(11);
    let effect = cluster_effect(1, 16, 56);

    assert_eq!(harness.resolve("actor", None, None, FixedPoint::zero(), &effect), Ok(()));

    let Some(event) = damage_of(&harness, "target") else {
        panic!("target must have taken damage");
    };
    assert_eq!(event.direct, 16);
}

#[test]
fn cluster_submunition_landing_spreads_around_impact_deterministically() {
    let impact = FixedPoint::new(10_000, 20_000);
    let first = cluster_submunition_landing(impact, 0);
    let second = cluster_submunition_landing(impact, 1);

    assert_ne!(first, second, "distinct submunitions must land at distinct points");
    assert_eq!(
        first,
        cluster_submunition_landing(impact, 0),
        "landing points are a pure function of impact and index"
    );
    assert_eq!(first, FixedPoint::new(impact.x + CLUSTER_RING_STEP, impact.y));
}

#[test]
fn return_per_target_cap_holds_when_both_passes_hit_the_same_target() {
    let mut harness = actor_and_target(5);
    let effect = return_effect(18, 32);

    assert_eq!(harness.resolve("actor", Some("target"), None, FixedPoint::zero(), &effect), Ok(()));

    let Some(event) = damage_of(&harness, "target") else {
        panic!("target must have taken damage");
    };
    assert_eq!(event.direct, 32, "two 18% passes on one target must cap at 32, not sum to 36");
}

#[test]
fn return_with_distinct_targets_caps_each_independently() {
    let mut harness = Harness::new(
        vec![
            make_player("actor", FixedPoint::zero(), 100),
            make_player("outbound", FixedPoint::zero(), 400),
            make_player("inbound", FixedPoint::zero(), 400),
        ],
        5,
    );
    let effect = return_effect(18, 32);

    assert_eq!(
        harness.resolve("actor", Some("outbound"), Some("inbound"), FixedPoint::zero(), &effect),
        Ok(())
    );

    let Some(outbound_event) = damage_of(&harness, "outbound") else {
        panic!("outbound target must have taken damage");
    };
    let Some(inbound_event) = damage_of(&harness, "inbound") else {
        panic!("inbound target must have taken damage");
    };
    assert_eq!(outbound_event.direct, 18, "a single pass is well under the cap");
    assert_eq!(inbound_event.direct, 18);
}

#[test]
fn tunnel_stops_at_reinforced_stone() {
    let mut harness = Harness::new(vec![make_player("actor", FixedPoint::zero(), 100)], 2);
    soil_row_with_stone(&mut harness);
    let Some(impact) = FixedPoint::from_cells(0, 0) else {
        panic!("fixture invariant: from_cells(0, 0) must succeed");
    };
    let effect = tunnel_effect(20, 30);

    assert_eq!(harness.resolve("actor", None, None, impact, &effect), Ok(()));

    assert_eq!(terrain::material_at(&harness.ctx.state.terrain, 4, 0), Material::Empty);
    assert_eq!(terrain::material_at(&harness.ctx.state.terrain, 5, 0), Material::ReinforcedStone);
    assert_eq!(terrain::material_at(&harness.ctx.state.terrain, 7, 0), Material::Soil);
}

#[test]
fn tunnel_detonation_is_radial_and_does_not_treat_stone_as_cover() {
    let mut harness = Harness::new(vec![make_player("actor", FixedPoint::zero(), 100)], 2);
    soil_row_with_stone(&mut harness);
    let Some(impact) = FixedPoint::from_cells(0, 0) else {
        panic!("fixture invariant: from_cells(0, 0) must succeed");
    };
    let effect = tunnel_effect(20, 30);

    assert_eq!(harness.resolve("actor", None, None, impact, &effect), Ok(()));

    assert_eq!(
        terrain::material_at(&harness.ctx.state.terrain, 6, 0),
        Material::Empty,
        "craters are radial; stone is not cover against the blast itself",
    );
}

#[test]
fn tunnel_deals_detonation_damage_to_primary_target() {
    let mut harness = Harness::new(
        vec![
            make_player("actor", FixedPoint::zero(), 100),
            make_player("target", FixedPoint::new(3 * POSITION_SCALE, 0), 400),
        ],
        2,
    );
    let Some(impact) = FixedPoint::from_cells(0, 0) else {
        panic!("fixture invariant: from_cells(0, 0) must succeed");
    };
    let effect = tunnel_effect(5, 30);

    assert_eq!(harness.resolve("actor", Some("target"), None, impact, &effect), Ok(()));

    let Some(event) = damage_of(&harness, "target") else {
        panic!("target must have taken detonation damage");
    };
    assert_eq!(event.direct, 30);
}

#[test]
fn determinism_two_identical_runs_produce_identical_results() {
    let effect = multi_strike_effect(3, 24, 74, 20);

    let mut first = actor_and_target(42);
    assert_eq!(first.resolve("actor", Some("target"), None, FixedPoint::zero(), &effect), Ok(()));

    let mut second = actor_and_target(42);
    assert_eq!(second.resolve("actor", Some("target"), None, FixedPoint::zero(), &effect), Ok(()));

    assert_eq!(damage_of(&first, "target"), damage_of(&second, "target"));
    assert_eq!(first.ctx.rng.state(), second.ctx.rng.state());
    assert_eq!(first.ctx.state.terrain, second.ctx.state.terrain);
}

use db_sim_core::fixed::FixedPoint;
use db_sim_core::presentation::{
    AppearanceSnapshot, BallisticImpact, BallisticSample, ClientMatchOutcome, ClientMatchPhase,
    CritRoll, ImpactCause, MatchSnapshot, PlayerSnapshot, PositionSnapshot, PresentationEvent,
    PresentationEventKind, ProjectileTrace, StrikeDelivery, StrikeResolution,
};
use db_sim_core::terrain::{self, Material};
use db_sim_core::transition_events::derive_events;
use db_sim_core::types::{DamageEvent, MatchPhase, SimulationState, TurnEndReason};

fn state() -> SimulationState {
    let Ok(mask) = terrain::create_mask(20, 10, Material::Empty) else {
        panic!("fixture mask must build");
    };
    SimulationState {
        pending_turn_end_reason: TurnEndReason::Attacked,
        last_turn_end_reason: TurnEndReason::Passed,
        simulation_version: 1,
        content_version: 1,
        tick: 0,
        turn_number: 1,
        phase: MatchPhase::Resolution,
        active_player_id: "a".to_owned(),
        wind_per_tick: 0,
        movement_remaining: 0,
        has_attacked_this_turn: true,
        terrain: mask,
        players: Vec::new(),
        objects: Vec::new(),
        processed_command_ids: Vec::new(),
        next_terrain_sequence: 0,
        next_object_sequence: 0,
        rng_state: 1,
    }
}

fn player(id: &str, health: u16) -> PlayerSnapshot {
    PlayerSnapshot {
        id: id.to_owned(),
        team: 0,
        health,
        is_eliminated: health == 0,
        max_health: 100,
        position: PositionSnapshot { x: 0, y: 0 },
        character_id: "hero".to_owned(),
        passive_id: None,
        special_gauge: 0,
        has_chosen_passive: false,
        statuses: Vec::new(),
        appearance: AppearanceSnapshot {
            skin_id: "default".to_owned(),
            ability_skin_ids: Vec::new(),
            victory_pose_id: "default".to_owned(),
        },
    }
}

fn snapshot(players: Vec<PlayerSnapshot>) -> MatchSnapshot {
    MatchSnapshot {
        client_contract_version: 1,
        simulation_version: 1,
        content_version: 1,
        generation: 0,
        tick: 0,
        turn_number: 1,
        phase: ClientMatchPhase::Resolution,
        active_player_id: None,
        current_and_upcoming_player_ids: Vec::new(),
        wind_per_tick: 0,
        movement_remaining: 0,
        has_attacked_this_turn: false,
        outcome: ClientMatchOutcome::InProgress,
        terrain_width: 20,
        terrain_height: 10,
        terrain_generation: 0,
        blocks: Vec::new(),
        players,
        persistent_objects: Vec::new(),
        authoritative_state_hash: "h".to_owned(),
    }
}

fn label(event: &PresentationEvent) -> &'static str {
    match &event.kind {
        PresentationEventKind::ProjectileTrace(_) => "trace",
        PresentationEventKind::Impact { .. } => "impact",
        PresentationEventKind::StrikeResolved { .. } => "strike",
        PresentationEventKind::HealthChanged { .. } => "health",
        PresentationEventKind::TurnEnded { .. } => "turn ended",
        PresentationEventKind::TurnOpened { .. } => "turn opened",
        _ => "other",
    }
}

#[test]
fn a_projectile_ability_transition_presents_its_strike_when_the_projectile_lands() {
    let pre_state = state();
    let mut post_state = state();
    post_state.active_player_id = "b".to_owned();
    post_state.turn_number = 2;
    post_state.phase = MatchPhase::TurnStart;
    post_state.last_turn_end_reason = TurnEndReason::Attacked;
    let pre = snapshot(vec![player("a", 100), player("b", 100)]);
    let post = snapshot(vec![player("a", 100), player("b", 70)]);
    let traces = vec![ProjectileTrace {
        sequence: 0,
        samples: vec![
            BallisticSample { tick: 0, position: FixedPoint { x: 0, y: 0 } },
            BallisticSample { tick: 12, position: FixedPoint { x: 900, y: 0 } },
        ],
        impact: BallisticImpact {
            position: FixedPoint { x: 1000, y: 0 },
            tick: 14,
            cause: ImpactCause::Character,
        },
    }];
    let strikes = vec![StrikeResolution {
        strike_index: 0,
        target_player_id: "b".to_owned(),
        impact_point: FixedPoint { x: 1000, y: 0 },
        delivery: StrikeDelivery::Projectile { trace_sequence: 0 },
        crit: CritRoll::Missed,
        damage_applied: 30,
        eliminated_target: false,
    }];
    let damage = vec![DamageEvent {
        player_id: "b".to_owned(),
        direct: 30,
        splash: 0,
        backlash: 0,
        hazard: 0,
        wall_impact: 0,
        healed: 0,
        was_critical: false,
        knockback: FixedPoint { x: 0, y: 0 },
        eliminated: false,
    }];
    let random = Vec::new();
    let events = derive_events(
        &pre_state,
        &post_state,
        &pre,
        &post,
        &"a".to_owned(),
        &Some("bolt".to_owned()),
        Some((&traces, &strikes, &random, &damage)),
        &Vec::new(),
        None,
    )
    .expect("a coherent transition derives its events");
    let seen: Vec<(u32, u32, &str)> =
        events.iter().map(|event| (event.presentation_tick, event.sequence, label(event))).collect();
    assert_eq!(
        seen,
        vec![
            (0, 0, "trace"),
            (14, 1, "impact"),
            (14, 2, "strike"),
            (14, 3, "health"),
            (14, 4, "turn ended"),
            (14, 5, "turn opened"),
        ]
    );
}

#[test]
fn an_outcome_without_a_known_ability_is_a_contract_fault() {
    let pre = snapshot(vec![player("a", 100)]);
    let empty_traces = Vec::new();
    let empty_strikes = Vec::new();
    let empty_random = Vec::new();
    let empty_damage = Vec::new();
    assert!(derive_events(
        &state(),
        &state(),
        &pre,
        &pre,
        &"a".to_owned(),
        &None,
        Some((&empty_traces, &empty_strikes, &empty_random, &empty_damage)),
        &Vec::new(),
        None,
    )
    .is_err());
    let quiet = derive_events(&state(), &state(), &pre, &pre, &"a".to_owned(), &None, None, &Vec::new(), None)
        .expect("a quiet transition derives nothing");
    assert!(quiet.is_empty());
}

use db_sim_core::presentation::{
    retained_presentation_bytes, ClientMatchOutcome, ClientMatchPhase, MatchSnapshot,
    PendingEvents, PositionSnapshot, Presentation, PresentationEvent, PresentationEventKind,
    EntityMovementCause,
};

fn snapshot() -> MatchSnapshot {
    MatchSnapshot {
        client_contract_version: 1,
        simulation_version: 2,
        content_version: 1,
        generation: 0,
        tick: 0,
        turn_number: 1,
        phase: ClientMatchPhase::Resolution,
        active_player_id: Some("a".to_owned()),
        current_and_upcoming_player_ids: vec!["a".to_owned(), "bb".to_owned()],
        wind_per_tick: 0,
        movement_remaining: 0,
        has_attacked_this_turn: false,
        outcome: ClientMatchOutcome::Victory { team: 1 },
        terrain_width: 10,
        terrain_height: 10,
        terrain_generation: 0,
        blocks: Vec::new(),
        players: Vec::new(),
        persistent_objects: Vec::new(),
        authoritative_state_hash: "h".to_owned(),
    }
}

fn opened(player_id: &str) -> PresentationEventKind {
    PresentationEventKind::TurnOpened { player_id: player_id.to_owned(), turn_number: 2 }
}

fn ids(events: &[PresentationEvent]) -> Vec<(u32, u32, String)> {
    events
        .iter()
        .map(|event| match &event.kind {
            PresentationEventKind::TurnOpened { player_id, .. } => {
                (event.presentation_tick, event.sequence, player_id.clone())
            }
            _ => (event.presentation_tick, event.sequence, String::new()),
        })
        .collect()
}

#[test]
fn events_are_presented_by_tick_then_rank_then_derivation_order_and_numbered() {
    let mut pending = PendingEvents::new();
    assert_eq!(pending.push(5, 3, opened("late-high")), Ok(()));
    assert_eq!(pending.push(0, 19, opened("early-first")), Ok(()));
    assert_eq!(pending.push(5, 1, opened("late-low")), Ok(()));
    assert_eq!(pending.push(0, 19, opened("early-second")), Ok(()));
    let events = pending.into_events();
    assert_eq!(
        ids(&events),
        vec![
            (0, 0, "early-first".to_owned()),
            (0, 1, "early-second".to_owned()),
            (5, 2, "late-low".to_owned()),
            (5, 3, "late-high".to_owned()),
        ]
    );
}

#[test]
fn presentation_bytes_count_every_event_and_snapshot_field() {
    let empty = Presentation { events: Vec::new(), post_snapshot: snapshot() };
    // 4 (event list) + 33 + active id (1 + 4 + 1) + turn order (4 + 5 + 6) + 9 + outcome 2
    // + 12 + three empty lists (12) + hash 5
    assert_eq!(retained_presentation_bytes(&empty), Some(4 + 33 + 6 + 15 + 9 + 2 + 12 + 12 + 5));
    let moved = Presentation {
        events: vec![PresentationEvent {
            presentation_tick: 3,
            sequence: 0,
            kind: PresentationEventKind::EntityMoved {
                player_id: "a".to_owned(),
                start: PositionSnapshot { x: 0, y: 0 },
                end: PositionSnapshot { x: 1, y: 0 },
                cause: EntityMovementCause::RequestedMove,
            },
        }],
        post_snapshot: snapshot(),
    };
    // one event: tick and sequence (8), tag (1), player id (5), two positions and a cause (17)
    assert_eq!(retained_presentation_bytes(&moved), Some(4 + 31 + 33 + 6 + 15 + 9 + 2 + 12 + 12 + 5));
}

use db_sim_core::fixed::FixedPoint;
use db_sim_core::match_session::SessionFault;
use db_sim_core::presentation::{
    derive_record_events, BallisticImpact, BallisticSample, ClientImpactCause, CritRoll,
    ImpactCause, ProjectileTrace, StrikeDelivery, StrikeResolution,
};
use db_sim_core::types::EffectKind;

fn trace(sequence: u32, impact_tick: u32, sample_ticks: &[u32]) -> ProjectileTrace {
    ProjectileTrace {
        sequence,
        samples: sample_ticks
            .iter()
            .map(|tick| BallisticSample { tick: *tick, position: FixedPoint { x: 1, y: 2 } })
            .collect(),
        impact: BallisticImpact {
            position: FixedPoint { x: 7, y: 9 },
            tick: impact_tick,
            cause: ImpactCause::Character,
        },
    }
}

fn strike(strike_index: u16, delivery: StrikeDelivery) -> StrikeResolution {
    StrikeResolution {
        strike_index,
        target_player_id: "target".to_owned(),
        impact_point: FixedPoint { x: 7, y: 9 },
        delivery,
        crit: CritRoll::NotEligible,
        damage_applied: 10,
        eliminated_target: false,
    }
}

fn slots(events: &[PresentationEvent]) -> Vec<(u32, u32, &'static str)> {
    events
        .iter()
        .map(|event| {
            let label = match &event.kind {
                PresentationEventKind::ProjectileTrace(_) => "trace",
                PresentationEventKind::Impact { .. } => "impact",
                PresentationEventKind::StrikeResolved { strike, .. } => match strike.delivery {
                    StrikeDelivery::Projectile { .. } => "projectile strike",
                    StrikeDelivery::Melee => "melee strike",
                    StrikeDelivery::Effect { .. } => "effect strike",
                },
                _ => "other",
            };
            (event.presentation_tick, event.sequence, label)
        })
        .collect()
}

#[test]
fn projectile_strikes_are_presented_at_their_own_impact_ticks() {
    let owner = "actor".to_owned();
    let ability = "volley".to_owned();
    let traces = vec![trace(4, 30, &[0, 10, 20]), trace(9, 12, &[0, 6])];
    let strikes = vec![
        strike(0, StrikeDelivery::Projectile { trace_sequence: 9 }),
        strike(1, StrikeDelivery::Projectile { trace_sequence: 4 }),
        strike(2, StrikeDelivery::Effect { kind: EffectKind::MultiStrike }),
        strike(3, StrikeDelivery::Melee),
    ];
    let mut pending = PendingEvents::new();
    let resolution =
        derive_record_events(&mut pending, &owner, &ability, &traces, &strikes, &Vec::new());
    assert_eq!(resolution, Ok(30));
    assert_eq!(pending.len(), 8);
    let events = pending.into_events();
    assert_eq!(
        slots(&events),
        vec![
            (0, 0, "trace"),
            (0, 1, "trace"),
            (0, 2, "melee strike"),
            (12, 3, "impact"),
            (12, 4, "projectile strike"),
            (30, 5, "impact"),
            (30, 6, "projectile strike"),
            (30, 7, "effect strike"),
        ]
    );
    match &events[0].kind {
        PresentationEventKind::ProjectileTrace(trace_event) => {
            assert_eq!(trace_event.trace_id, 4);
            assert_eq!(trace_event.owner_id, "actor");
            assert_eq!(trace_event.ability_id, "volley");
            assert_eq!(trace_event.samples.len(), 3);
            assert_eq!(trace_event.samples[2].tick, 20);
            assert_eq!(trace_event.samples[2].position, PositionSnapshot { x: 1, y: 2 });
            assert_eq!(trace_event.terminal_impact.tick, 30);
            assert_eq!(trace_event.terminal_impact.position, PositionSnapshot { x: 7, y: 9 });
            assert_eq!(trace_event.terminal_impact.cause, ClientImpactCause::Character);
        }
        _ => panic!("the first event must be the first trace"),
    }
    match &events[4].kind {
        PresentationEventKind::StrikeResolved { owner_id, ability_id, strike } => {
            assert_eq!(owner_id, "actor");
            assert_eq!(ability_id, "volley");
            assert_eq!(strike.strike_index, 0);
            assert_eq!(strike.target_player_id, "target");
        }
        _ => panic!("the strike on trace 9 lands at its impact tick"),
    }
}

#[test]
fn a_strike_citing_a_missing_trace_is_a_contract_fault() {
    let traces = vec![trace(4, 30, &[0])];
    let strikes = vec![strike(0, StrikeDelivery::Projectile { trace_sequence: 5 })];
    let mut pending = PendingEvents::new();
    assert_eq!(
        derive_record_events(&mut pending, &"a".to_owned(), &"b".to_owned(), &traces, &strikes, &Vec::new()),
        Err(SessionFault::ContractInvariant)
    );
}

#[test]
fn repeated_trace_numbers_and_backward_samples_are_contract_faults() {
    let repeated = vec![trace(4, 30, &[0]), trace(4, 31, &[0])];
    let mut pending = PendingEvents::new();
    assert_eq!(
        derive_record_events(&mut pending, &"a".to_owned(), &"b".to_owned(), &repeated, &Vec::new(), &Vec::new()),
        Err(SessionFault::ContractInvariant)
    );
    let backward = vec![trace(4, 30, &[0, 10, 5])];
    let mut pending = PendingEvents::new();
    assert_eq!(
        derive_record_events(&mut pending, &"a".to_owned(), &"b".to_owned(), &backward, &Vec::new(), &Vec::new()),
        Err(SessionFault::ContractInvariant)
    );
}

#[test]
fn records_without_traces_resolve_at_tick_zero() {
    let strikes = vec![strike(0, StrikeDelivery::Melee), strike(1, StrikeDelivery::Melee)];
    let mut pending = PendingEvents::new();
    assert_eq!(
        derive_record_events(&mut pending, &"a".to_owned(), &"b".to_owned(), &Vec::new(), &strikes, &Vec::new()),
        Ok(0)
    );
    let events = pending.into_events();
    assert_eq!(slots(&events), vec![(0, 0, "melee strike"), (0, 1, "melee strike")]);
}

use db_sim_core::presentation::{
    derive_object_changed_events, ClientObjectKind, PersistentObjectSnapshot,
};

fn object(sequence: u32, health: u16) -> PersistentObjectSnapshot {
    PersistentObjectSnapshot {
        sequence,
        owner_id: "a".to_owned(),
        kind: ClientObjectKind::Turret,
        position: PositionSnapshot { x: 1, y: 1 },
        health,
        turns_remaining: 3,
    }
}

#[test]
fn only_surviving_objects_that_changed_in_place_are_reported_as_changed() {
    let mut pre = snapshot();
    pre.persistent_objects = vec![object(1, 10), object(2, 10), object(3, 10)];
    let mut post = snapshot();
    // 1 unchanged, 2 damaged, 3 removed, 4 new.
    post.persistent_objects = vec![object(1, 10), object(2, 6), object(4, 10)];
    let mut pending = PendingEvents::new();
    assert_eq!(derive_object_changed_events(&mut pending, &pre, &post, 8), Ok(()));
    let events = pending.into_events();
    assert_eq!(events.len(), 1);
    assert_eq!(events[0].presentation_tick, 8);
    match &events[0].kind {
        PresentationEventKind::ObjectChanged { previous, current } => {
            assert_eq!((previous.sequence, previous.health), (2, 10));
            assert_eq!((current.sequence, current.health), (2, 6));
        }
        _ => panic!("only object 2 changed in place"),
    }
}

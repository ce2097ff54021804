use db_sim_core::match_session::SessionFault;
use db_sim_core::presentation::{
    AppearanceSnapshot, ClientMatchOutcome, ClientMatchPhase, ClientStatusKind, MatchSnapshot,
    PlayerSnapshot, PositionSnapshot, StatusSnapshot,
};
use db_sim_core::reconcile::{apply_status_change, reconcile_status_changes, status_shadow};
use db_sim_core::types::{EffectKind, StatusChange, StatusTransition};

fn player(id: &str, statuses: Vec<StatusSnapshot>) -> PlayerSnapshot {
    PlayerSnapshot {
        id: id.to_owned(),
        team: 0,
        health: 100,
        is_eliminated: false,
        max_health: 100,
        position: PositionSnapshot { x: 0, y: 0 },
        character_id: "hero".to_owned(),
        passive_id: None,
        special_gauge: 0,
        has_chosen_passive: false,
        statuses,
        appearance: AppearanceSnapshot {
            skin_id: "default".to_owned(),
            ability_skin_ids: Vec::new(),
            victory_pose_id: "default".to_owned(),
        },
    }
}

fn snapshot(players: Vec<PlayerSnapshot>) -> MatchSnapshot {
    MatchSnapshot {
        client_contract_version: 1,
        simulation_version: 2,
        content_version: 1,
        generation: 0,
        tick: 0,
        turn_number: 1,
        phase: ClientMatchPhase::Resolution,
        active_player_id: None,
        current_and_upcoming_player_ids: Vec::new(),
        wind_per_tick: 0,
        movement_remaining: 0,
        has_attacked_this_turn: false,
        outcome: ClientMatchOutcome::InProgress,
        terrain_width: 10,
        terrain_height: 10,
        terrain_generation: 0,
        blocks: Vec::new(),
        players,
        persistent_objects: Vec::new(),
        authoritative_state_hash: "h".to_owned(),
    }
}

fn status(kind: ClientStatusKind, magnitude: i32, turns_remaining: u8) -> StatusSnapshot {
    StatusSnapshot { kind, magnitude, turns_remaining }
}

fn change(player_id: &str, kind: EffectKind, transition: StatusTransition) -> StatusChange {
    StatusChange { player_id: player_id.to_owned(), kind, transition }
}

#[test]
fn a_replayed_record_that_lands_on_the_post_snapshot_reconciles() {
    let pre = snapshot(vec![player("a", vec![status(ClientStatusKind::Chill, 2, 3)]), player("b", Vec::new())]);
    let post = snapshot(vec![
        player("a", vec![status(ClientStatusKind::Chill, 2, 2)]),
        player("b", vec![status(ClientStatusKind::Lockdown, 1, 2)]),
    ]);
    let changes = vec![
        change("a", EffectKind::Chill, StatusTransition::Ticked { turns_remaining: 2 }),
        change("b", EffectKind::Lockdown, StatusTransition::Applied { magnitude: 1, turns_remaining: 2 }),
    ];
    assert_eq!(reconcile_status_changes(&pre, &post, &changes), Ok(()));
}

#[test]
fn an_applied_and_expired_status_is_invisible_but_still_validated() {
    let pre = snapshot(vec![player("a", Vec::new())]);
    let post = snapshot(vec![player("a", Vec::new())]);
    let changes = vec![
        change("a", EffectKind::Embers, StatusTransition::Applied { magnitude: 5, turns_remaining: 1 }),
        change("a", EffectKind::Embers, StatusTransition::Expired),
    ];
    assert_eq!(reconcile_status_changes(&pre, &post, &changes), Ok(()));
    let stale = vec![change("a", EffectKind::Embers, StatusTransition::Expired)];
    assert_eq!(reconcile_status_changes(&pre, &post, &stale), Err(SessionFault::ContractInvariant));
}

#[test]
fn a_refresh_that_misreports_what_it_replaced_is_a_contract_fault() {
    let pre = snapshot(vec![player("a", vec![status(ClientStatusKind::Lockdown, 1, 1)])]);
    let post = snapshot(vec![player("a", vec![status(ClientStatusKind::Lockdown, 1, 3)])]);
    let lying = vec![change(
        "a",
        EffectKind::Lockdown,
        StatusTransition::Refreshed { magnitude: 1, turns_remaining: 3, replaced_magnitude: 1, replaced_turns_remaining: 2 },
    )];
    assert_eq!(reconcile_status_changes(&pre, &post, &lying), Err(SessionFault::ContractInvariant));
    let honest = vec![change(
        "a",
        EffectKind::Lockdown,
        StatusTransition::Refreshed { magnitude: 1, turns_remaining: 3, replaced_magnitude: 1, replaced_turns_remaining: 1 },
    )];
    assert_eq!(reconcile_status_changes(&pre, &post, &honest), Ok(()));
}

#[test]
fn charges_are_consumed_one_at_a_time_and_the_last_one_exhausts() {
    let pre = snapshot(vec![player("a", vec![status(ClientStatusKind::GuaranteeCrit, 2, 0)])]);
    let post = snapshot(vec![player("a", Vec::new())]);
    let changes = vec![
        change("a", EffectKind::GuaranteeCrit, StatusTransition::ChargeConsumed { remaining: 1 }),
        change("a", EffectKind::GuaranteeCrit, StatusTransition::Exhausted),
    ];
    assert_eq!(reconcile_status_changes(&pre, &post, &changes), Ok(()));
    let skipped = vec![change("a", EffectKind::GuaranteeCrit, StatusTransition::Exhausted)];
    assert_eq!(reconcile_status_changes(&pre, &post, &skipped), Err(SessionFault::ContractInvariant));
}

#[test]
fn unknown_players_and_duplicated_snapshots_are_contract_faults() {
    let pre = snapshot(vec![player("a", Vec::new())]);
    let mut shadow = match status_shadow(&pre) {
        Some(shadow) => shadow,
        None => panic!("a well-formed snapshot has a status map"),
    };
    let ghost = change("z", EffectKind::Chill, StatusTransition::Applied { magnitude: 1, turns_remaining: 1 });
    assert_eq!(apply_status_change(&mut shadow, &ghost), Err(SessionFault::ContractInvariant));
    let duplicated = snapshot(vec![player("a", Vec::new()), player("a", Vec::new())]);
    assert!(status_shadow(&duplicated).is_none());
    let other_players = snapshot(vec![player("b", Vec::new())]);
    assert_eq!(reconcile_status_changes(&pre, &other_players, &Vec::new()), Err(SessionFault::ContractInvariant));
}

use db_sim_core::presentation::{PendingEvents, PresentationEventKind};
use db_sim_core::reconcile::derive_status_events;

#[test]
fn each_status_record_is_presented_once_in_record_order() {
    let pre = snapshot(vec![player("a", vec![status(ClientStatusKind::Chill, 2, 1)]), player("b", Vec::new())]);
    let post = snapshot(vec![player("a", Vec::new()), player("b", Vec::new())]);
    // Interleaved lifecycles: a's chill expires, b is locked down and released.
    let changes = vec![
        change("b", EffectKind::Lockdown, StatusTransition::Applied { magnitude: 1, turns_remaining: 1 }),
        change("a", EffectKind::Chill, StatusTransition::Expired),
        change("b", EffectKind::Lockdown, StatusTransition::Expired),
    ];
    let mut pending = PendingEvents::new();
    assert_eq!(derive_status_events(&mut pending, &pre, &post, &changes, 40), Ok(()));
    let events = pending.into_events();
    let seen: Vec<(u32, u32, String, ClientStatusKind, StatusTransition)> = events
        .iter()
        .map(|event| match &event.kind {
            PresentationEventKind::StatusChanged { player_id, kind, transition } => {
                (event.presentation_tick, event.sequence, player_id.clone(), *kind, *transition)
            }
            _ => panic!("only status events are derived here"),
        })
        .collect();
    assert_eq!(
        seen,
        vec![
            (40, 0, "b".to_owned(), ClientStatusKind::Lockdown, StatusTransition::Applied { magnitude: 1, turns_remaining: 1 }),
            (40, 1, "a".to_owned(), ClientStatusKind::Chill, StatusTransition::Expired),
            (40, 2, "b".to_owned(), ClientStatusKind::Lockdown, StatusTransition::Expired),
        ]
    );
}

#[test]
fn a_status_record_that_does_not_replay_derives_nothing() {
    let pre = snapshot(vec![player("a", Vec::new())]);
    let post = snapshot(vec![player("a", vec![status(ClientStatusKind::Chill, 2, 2)])]);
    let mut pending = PendingEvents::new();
    assert_eq!(
        derive_status_events(&mut pending, &pre, &post, &Vec::new(), 0),
        Err(SessionFault::ContractInvariant)
    );
    assert_eq!(pending.len(), 0);
}

use db_sim_core::match_session::{
    retained_authority_timeout_bytes, retained_command_bytes, terrain_dirty_rectangles,
    AuthorityTimeout, CellRectangle, MatchCommand, MatchCommandKind, SessionFault,
    RETAINED_TOP_LEVEL_HEADER_BYTES,
};
use db_sim_core::terrain::{self, Material, TerrainMask};
use db_sim_core::types::{AbilitySlot, MatchPhase, SimulationState, TurnEndReason};

fn state_with(terrain: TerrainMask) -> SimulationState {
    SimulationState {
        pending_turn_end_reason: TurnEndReason::Passed,
        last_turn_end_reason: TurnEndReason::Passed,
        simulation_version: 1,
        content_version: 1,
        tick: 0,
        turn_number: 0,
        phase: MatchPhase::MatchIntro,
        active_player_id: String::new(),
        wind_per_tick: 0,
        movement_remaining: 0,
        has_attacked_this_turn: false,
        terrain,
        players: Vec::new(),
        objects: Vec::new(),
        processed_command_ids: Vec::new(),
        next_terrain_sequence: 0,
        next_object_sequence: 0,
        rng_state: 12_345,
    }
}

/// A 50x20 arena with a soil floor on its bottom rows, as a starting state to diff against.
fn arena() -> SimulationState {
    let Ok(mut mask) = terrain::create_mask(50, 20, Material::Empty) else {
        panic!("fixture mask must build");
    };
    for y in 15..20 {
        for x in 0..50 {
            assert!(terrain::set_material(&mut mask, x, y, Material::Soil));
        }
    }
    state_with(mask)
}

fn flip(state: &mut SimulationState, x: i32, y: i32) {
    let before = terrain::material_at(&state.terrain, x, y);
    let replacement = if before == Material::Empty { Material::Soil } else { Material::Empty };
    assert!(terrain::set_material(&mut state.terrain, x, y, replacement));
}

#[test]
fn dirty_rectangles_are_exact_sorted_changed_cell_row_runs() {
    let previous = arena();
    let mut current = previous.clone();
    for (x, y) in [(1, 1), (2, 1), (4, 1), (4, 2)] {
        flip(&mut current, x, y);
    }

    let rectangles = terrain_dirty_rectangles(&previous, &current).expect("valid masks must diff");

    assert_eq!(
        rectangles,
        vec![
            CellRectangle { x: 1, y: 1, width: 2, height: 1 },
            CellRectangle { x: 4, y: 1, width: 1, height: 1 },
            CellRectangle { x: 4, y: 2, width: 1, height: 1 },
        ],
    );
}

#[test]
fn unchanged_terrain_has_no_dirty_rectangles() {
    let previous = arena();
    let current = previous.clone();
    assert_eq!(terrain_dirty_rectangles(&previous, &current), Ok(Vec::new()));
}

#[test]
fn a_run_never_wraps_onto_the_next_row() {
    let previous = arena();
    let mut current = previous.clone();
    for (x, y) in [(48, 3), (49, 3), (0, 4), (1, 4)] {
        flip(&mut current, x, y);
    }
    let rectangles = terrain_dirty_rectangles(&previous, &current).expect("valid masks must diff");
    assert_eq!(
        rectangles,
        vec![
            CellRectangle { x: 48, y: 3, width: 2, height: 1 },
            CellRectangle { x: 0, y: 4, width: 2, height: 1 },
        ],
    );
}

#[test]
fn a_crater_diffs_to_one_run_per_row() {
    let previous = arena();
    let mut current = previous.clone();
    for y in 15..18 {
        for x in 10..14 {
            flip(&mut current, x, y);
        }
    }
    let rectangles = terrain_dirty_rectangles(&previous, &current).expect("valid masks must diff");
    assert_eq!(
        rectangles,
        vec![
            CellRectangle { x: 10, y: 15, width: 4, height: 1 },
            CellRectangle { x: 10, y: 16, width: 4, height: 1 },
            CellRectangle { x: 10, y: 17, width: 4, height: 1 },
        ],
    );
}

#[test]
fn mismatched_or_malformed_masks_are_contract_faults() {
    let previous = arena();
    let Ok(other_size) = terrain::create_mask(49, 20, Material::Empty) else {
        panic!("fixture mask must build");
    };
    assert_eq!(
        terrain_dirty_rectangles(&previous, &state_with(other_size)),
        Err(SessionFault::ContractInvariant)
    );

    let mut short = previous.clone();
    short.terrain.cells.pop();
    assert_eq!(terrain_dirty_rectangles(&previous, &short), Err(SessionFault::ContractInvariant));
    assert_eq!(terrain_dirty_rectangles(&short, &short), Err(SessionFault::ContractInvariant));
}

fn command(command_id: &str, kind: MatchCommandKind) -> MatchCommand {
    MatchCommand {
        schema_version: 1,
        command_id: command_id.to_owned(),
        player_id: "a_left".to_owned(),
        expected_turn_number: 1,
        expected_snapshot_generation: 0,
        kind,
    }
}

#[test]
fn command_accounting_uses_the_documented_canonical_widths() {
    let pass = command("accounted-pass", MatchCommandKind::Pass);
    let expected = RETAINED_TOP_LEVEL_HEADER_BYTES
        + 4
        + 4
        + u64::try_from(pass.command_id.len()).expect("fixture length must fit")
        + 4
        + u64::try_from(pass.player_id.len()).expect("fixture length must fit")
        + 4
        + 8
        + 1;

    assert_eq!(retained_command_bytes(&pass), Some(expected));
}

#[test]
fn ability_accounting_counts_the_slot_and_both_optional_targets() {
    let ability = command(
        "shot",
        MatchCommandKind::Ability {
            slot: AbilitySlot::Special,
            angle_millidegrees: 45_000,
            power_basis_points: 1_500,
            target_player_id: Some("z_right".to_owned()),
            secondary_target_player_id: None,
        },
    );
    // header 6, schema 4, "shot" 4+4, "a_left" 4+6, turn 4, generation 8, tag 1,
    // slot 1, angle 4, power 4, Some("z_right") 1+4+7, None 1.
    assert_eq!(retained_command_bytes(&ability), Some(6 + 4 + 8 + 10 + 4 + 8 + 1 + 1 + 4 + 4 + 12 + 1));
}

#[test]
fn move_and_passive_choice_accounting() {
    let step = command("m", MatchCommandKind::Move { dx: -512 });
    assert_eq!(retained_command_bytes(&step), Some(6 + 4 + 5 + 10 + 4 + 8 + 1 + 4));
    let choice = command("p", MatchCommandKind::PassiveChoice { passive_id: "iron-skin".to_owned() });
    assert_eq!(retained_command_bytes(&choice), Some(6 + 4 + 5 + 10 + 4 + 8 + 1 + 4 + 9));
}

#[test]
fn string_accounting_counts_utf8_bytes_not_characters() {
    let accented = command("é", MatchCommandKind::Pass);
    let plain = command("e", MatchCommandKind::Pass);
    assert_eq!(
        retained_command_bytes(&accented).map(|bytes| bytes - retained_command_bytes(&plain).unwrap_or(0)),
        Some(1)
    );
}

#[test]
fn timeout_accounting_matches_a_command_without_a_kind() {
    let timeout = AuthorityTimeout {
        schema_version: 1,
        action_id: "deadline-7".to_owned(),
        player_id: "a_left".to_owned(),
        expected_turn_number: 7,
        expected_snapshot_generation: 3,
    };
    assert_eq!(retained_authority_timeout_bytes(&timeout), Some(6 + 4 + 14 + 10 + 4 + 8));
}

use db_sim_core::presentation::{
    derive_terrain_event, derive_turn_events, ClientMatchOutcome, ClientMatchPhase,
    ClientTurnEndReason, MatchSnapshot, PendingEvents, PresentationEventKind,
};

fn match_snapshot(outcome: ClientMatchOutcome) -> MatchSnapshot {
    MatchSnapshot {
        client_contract_version: 1,
        simulation_version: 1,
        content_version: 1,
        generation: 0,
        tick: 0,
        turn_number: 1,
        phase: ClientMatchPhase::Resolution,
        active_player_id: None,
        current_and_upcoming_player_ids: Vec::new(),
        wind_per_tick: 0,
        movement_remaining: 0,
        has_attacked_this_turn: false,
        outcome,
        terrain_width: 50,
        terrain_height: 20,
        terrain_generation: 0,
        blocks: Vec::new(),
        players: Vec::new(),
        persistent_objects: Vec::new(),
        authoritative_state_hash: "h".to_owned(),
    }
}

#[test]
fn changed_terrain_is_presented_once_with_its_new_generation() {
    let previous = arena();
    let mut current = previous.clone();
    flip(&mut current, 3, 4);
    current.next_terrain_sequence = 7;
    let mut pending = PendingEvents::new();
    assert_eq!(derive_terrain_event(&mut pending, &previous, &current, 25), Ok(()));
    let events = pending.into_events();
    assert_eq!(events.len(), 1);
    assert_eq!(events[0].presentation_tick, 25);
    match &events[0].kind {
        PresentationEventKind::TerrainChanged { terrain_generation, dirty_rectangles } => {
            assert_eq!(*terrain_generation, 7);
            assert_eq!(dirty_rectangles, &vec![CellRectangle { x: 3, y: 4, width: 1, height: 1 }]);
        }
        _ => panic!("the only event must be the terrain change"),
    }
}

#[test]
fn changed_terrain_without_a_new_generation_is_a_contract_fault() {
    let previous = arena();
    let mut current = previous.clone();
    flip(&mut current, 3, 4);
    let mut pending = PendingEvents::new();
    assert_eq!(
        derive_terrain_event(&mut pending, &previous, &current, 0),
        Err(SessionFault::ContractInvariant)
    );
    let unchanged = arena();
    let mut pending = PendingEvents::new();
    assert_eq!(derive_terrain_event(&mut pending, &unchanged, &unchanged, 0), Ok(()));
    assert_eq!(pending.len(), 0);
}

#[test]
fn a_turn_handover_ends_one_turn_and_opens_the_next() {
    let mut pre = arena();
    pre.active_player_id = "a".to_owned();
    pre.turn_number = 3;
    let mut post = pre.clone();
    post.active_player_id = "b".to_owned();
    post.turn_number = 4;
    post.phase = MatchPhase::TurnStart;
    post.last_turn_end_reason = TurnEndReason::Attacked;
    let snapshot = match_snapshot(ClientMatchOutcome::InProgress);
    let mut pending = PendingEvents::new();
    assert_eq!(derive_turn_events(&mut pending, &pre, &post, &snapshot, &snapshot, 9), Ok(()));
    let events = pending.into_events();
    assert_eq!(events.len(), 2);
    match (&events[0].kind, &events[1].kind) {
        (
            PresentationEventKind::TurnEnded { player_id: ended, reason },
            PresentationEventKind::TurnOpened { player_id: opened, turn_number },
        ) => {
            assert_eq!(ended, "a");
            assert_eq!(*reason, ClientTurnEndReason::Attacked);
            assert_eq!(opened, "b");
            assert_eq!(*turn_number, 4);
        }
        _ => panic!("a handover ends a turn, then opens one"),
    }
}

#[test]
fn a_completed_match_opens_no_turn() {
    let mut pre = arena();
    pre.active_player_id = "a".to_owned();
    pre.phase = MatchPhase::Resolution;
    let mut post = pre.clone();
    post.phase = MatchPhase::MatchComplete;
    post.last_turn_end_reason = TurnEndReason::Eliminated;
    let mut pending = PendingEvents::new();
    assert_eq!(
        derive_turn_events(
            &mut pending,
            &pre,
            &post,
            &match_snapshot(ClientMatchOutcome::InProgress),
            &match_snapshot(ClientMatchOutcome::Victory { team: 1 }),
            0,
        ),
        Ok(())
    );
    let events = pending.into_events();
    assert_eq!(events.len(), 2);
    assert!(matches!(
        events[0].kind,
        PresentationEventKind::TurnEnded { reason: ClientTurnEndReason::Eliminated, .. }
    ));
    assert!(matches!(
        events[1].kind,
        PresentationEventKind::MatchCompleted { outcome: ClientMatchOutcome::Victory { team: 1 } }
    ));
    let mut pending = PendingEvents::new();
    let quiet = arena();
    let snapshot = match_snapshot(ClientMatchOutcome::InProgress);
    assert_eq!(derive_turn_events(&mut pending, &quiet, &quiet, &snapshot, &snapshot, 0), Ok(()));
    assert_eq!(pending.len(), 0);
}

use db_sim_core::fixed::FixedPoint;
use db_sim_core::presentation::derive_passive_choice_event;
use db_sim_core::types::PlayerState;

fn roster_player(id: &str) -> PlayerState {
    PlayerState {
        id: id.to_owned(),
        team: 0,
        health: 100,
        max_health: 100,
        position: FixedPoint { x: 0, y: 0 },
        character_id: "hero".to_owned(),
        statuses: Vec::new(),
    }
}

#[test]
fn entering_passive_selection_offers_the_characters_passives_sorted() {
    let mut pre = arena();
    pre.players = vec![roster_player("a"), roster_player("b")];
    pre.phase = MatchPhase::TurnStart;
    let mut post = pre.clone();
    post.phase = MatchPhase::PassiveSelection;
    post.active_player_id = "b".to_owned();
    let offered = vec!["thick-skin".to_owned(), "berserk".to_owned(), "quick-feet".to_owned()];
    let mut pending = PendingEvents::new();
    assert_eq!(derive_passive_choice_event(&mut pending, &pre, &post, Some(&offered), 3), Ok(()));
    let events = pending.into_events();
    assert_eq!(events.len(), 1);
    match &events[0].kind {
        PresentationEventKind::PassiveChoiceRequired { player_id, passive_ids } => {
            assert_eq!(player_id, "b");
            assert_eq!(passive_ids, &vec!["berserk".to_owned(), "quick-feet".to_owned(), "thick-skin".to_owned()]);
        }
        _ => panic!("the only event is the passive choice"),
    }
    let mut pending = PendingEvents::new();
    assert_eq!(
        derive_passive_choice_event(&mut pending, &pre, &post, None, 3),
        Err(SessionFault::ContractInvariant)
    );
    let mut pending = PendingEvents::new();
    assert_eq!(derive_passive_choice_event(&mut pending, &post, &post, None, 3), Ok(()));
    assert_eq!(pending.len(), 0);
}

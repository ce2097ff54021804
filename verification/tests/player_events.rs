use db_sim_core::fixed::FixedPoint;
use db_sim_core::match_session::SessionFault;
use db_sim_core::player_events::{derive_player_events, elimination_cause};
use db_sim_core::presentation::{
    AppearanceSnapshot, ChangeProvenance, ClientMatchOutcome, ClientMatchPhase, CritRoll,
    DamageBreakdown, MatchSnapshot, PendingEvents, PlayerSnapshot, PositionSnapshot,
    PresentationEventKind, StrikeDelivery, StrikeResolution,
};
use db_sim_core::types::DamageEvent;

fn player(id: &str, health: u16, x: i32) -> PlayerSnapshot {
    PlayerSnapshot {
        id: id.to_owned(),
        team: 0,
        health,
        is_eliminated: health == 0,
        max_health: 100,
        position: PositionSnapshot { x, y: 0 },
        character_id: "hero".to_owned(),
        passive_id: None,
        special_gauge: 10,
        has_chosen_passive: false,
        statuses: Vec::new(),
        appearance: AppearanceSnapshot {
            skin_id: "default".to_owned(),
            ability_skin_ids: Vec::new(),
            victory_pose_id: "default".to_owned(),
        },
    }
}

fn snapshot(players: Vec<PlayerSnapshot>) -> MatchSnapshot {
    MatchSnapshot {
        client_contract_version: 1,
        simulation_version: 2,
        content_version: 1,
        generation: 0,
        tick: 0,
        turn_number: 1,
        phase: ClientMatchPhase::Resolution,
        active_player_id: None,
        current_and_upcoming_player_ids: Vec::new(),
        wind_per_tick: 0,
        movement_remaining: 0,
        has_attacked_this_turn: false,
        outcome: ClientMatchOutcome::InProgress,
        terrain_width: 10,
        terrain_height: 10,
        terrain_generation: 0,
        blocks: Vec::new(),
        players,
        persistent_objects: Vec::new(),
        authoritative_state_hash: "h".to_owned(),
    }
}

fn killing_strike(index: u16, target: &str) -> StrikeResolution {
    StrikeResolution {
        strike_index: index,
        target_player_id: target.to_owned(),
        impact_point: FixedPoint { x: 0, y: 0 },
        delivery: StrikeDelivery::Melee,
        crit: CritRoll::NotEligible,
        damage_applied: 40,
        eliminated_target: true,
    }
}

fn damage(id: &str, direct: u16, backlash: u16, hazard: u16, eliminated: bool) -> DamageEvent {
    DamageEvent {
        player_id: id.to_owned(),
        direct,
        splash: 0,
        backlash,
        hazard,
        wall_impact: 0,
        healed: 0,
        was_critical: false,
        knockback: FixedPoint { x: 3, y: -1 },
        eliminated,
    }
}

#[test]
fn a_killed_and_knocked_back_player_is_moved_damaged_and_eliminated_by_its_strike() {
    let pre = snapshot(vec![player("a", 100, 0), player("b", 40, 5)]);
    let mut b_after = player("b", 0, 8);
    b_after.special_gauge = 4;
    let post = snapshot(vec![player("a", 100, 0), b_after]);
    let strikes = vec![killing_strike(2, "b")];
    let damages = vec![damage("b", 40, 0, 0, true)];
    let mut pending = PendingEvents::new();
    let owner = "a".to_owned();
    let ability = Some("haymaker".to_owned());
    assert_eq!(
        derive_player_events(&mut pending, &pre, &post, &owner, &ability, Some((&strikes, &damages)), 6),
        Ok(())
    );
    let events = pending.into_events();
    assert_eq!(events.len(), 4);
    assert!(events.iter().all(|event| event.presentation_tick == 6));
    match &events[0].kind {
        PresentationEventKind::EntityMoved { player_id, start, end, .. } => {
            assert_eq!(player_id, "b");
            assert_eq!(*start, PositionSnapshot { x: 5, y: 0 });
            assert_eq!(*end, PositionSnapshot { x: 8, y: 0 });
        }
        _ => panic!("the move comes first"),
    }
    match &events[1].kind {
        PresentationEventKind::HealthChanged { previous_health, new_health, breakdown, .. } => {
            assert_eq!((*previous_health, *new_health), (40, 0));
            assert_eq!(
                *breakdown,
                Some(DamageBreakdown {
                    direct: 40,
                    splash: 0,
                    backlash: 0,
                    hazard: 0,
                    wall_impact: 0,
                    healed: 0,
                    was_critical: false,
                    knockback: PositionSnapshot { x: 3, y: -1 },
                    eliminated: true,
                })
            );
        }
        _ => panic!("then the health change"),
    }
    match &events[2].kind {
        PresentationEventKind::GaugeChanged { previous_gauge, new_gauge, delta, .. } => {
            assert_eq!((*previous_gauge, *new_gauge, *delta), (10, 4, -6));
        }
        _ => panic!("then the gauge change"),
    }
    match &events[3].kind {
        PresentationEventKind::PlayerEliminated {
            player_id,
            cause: ChangeProvenance::Strike { owner_id, ability_id, strike_index },
        } => {
            assert_eq!(player_id, "b");
            assert_eq!(owner_id, "a");
            assert_eq!(ability_id, "haymaker");
            assert_eq!(*strike_index, 2);
        }
        _ => panic!("the elimination is attributed to the strike that claimed it"),
    }
}

#[test]
fn two_strikes_claiming_one_elimination_are_a_contract_fault() {
    let strikes = vec![killing_strike(0, "b"), killing_strike(1, "b")];
    let damages = Vec::new();
    assert!(matches!(
        elimination_cause(&"a".to_owned(), &Some("x".to_owned()), Some((&strikes, &damages)), &"b".to_owned()),
        Err(SessionFault::ContractInvariant)
    ));
}

#[test]
fn eliminations_without_a_strike_are_attributed_by_their_damage_kind() {
    let none: Vec<StrikeResolution> = Vec::new();
    let owner = "a".to_owned();
    let ability = Some("x".to_owned());
    let id = "b".to_owned();
    let backlash = vec![damage("b", 0, 5, 0, true)];
    assert!(matches!(
        elimination_cause(&owner, &ability, Some((&none, &backlash)), &id),
        Ok(ChangeProvenance::Backlash { .. })
    ));
    let hazard = vec![damage("b", 0, 0, 5, true)];
    assert!(matches!(
        elimination_cause(&owner, &ability, Some((&none, &hazard)), &id),
        Ok(ChangeProvenance::Hazard)
    ));
    let effect = vec![damage("b", 9, 0, 0, true)];
    assert!(matches!(
        elimination_cause(&owner, &ability, Some((&none, &effect)), &id),
        Ok(ChangeProvenance::AbilityEffect { .. })
    ));
    assert!(matches!(
        elimination_cause(&owner, &None, Some((&none, &effect)), &id),
        Err(SessionFault::ContractInvariant)
    ));
    let unrecorded = vec![damage("b", 9, 0, 0, false)];
    assert!(matches!(
        elimination_cause(&owner, &ability, Some((&none, &unrecorded)), &id),
        Ok(ChangeProvenance::AuthoritativeResolution)
    ));
    assert!(matches!(
        elimination_cause(&owner, &None, None, &id),
        Ok(ChangeProvenance::AuthoritativeResolution)
    ));
}

#[test]
fn a_player_missing_before_the_action_is_a_contract_fault() {
    let pre = snapshot(vec![player("a", 100, 0)]);
    let post = snapshot(vec![player("a", 100, 0), player("z", 100, 0)]);
    let mut pending = PendingEvents::new();
    assert_eq!(
        derive_player_events(&mut pending, &pre, &post, &"a".to_owned(), &None, None, 0),
        Err(SessionFault::ContractInvariant)
    );
}

#[test]
fn a_chosen_passive_is_presented_and_unchanged_players_are_silent() {
    let pre = snapshot(vec![player("a", 100, 0), player("b", 100, 0)]);
    let mut chooser = player("a", 100, 0);
    chooser.passive_id = Some("thick-skin".to_owned());
    let post = snapshot(vec![chooser, player("b", 100, 0)]);
    let mut pending = PendingEvents::new();
    assert_eq!(derive_player_events(&mut pending, &pre, &post, &"a".to_owned(), &None, None, 0), Ok(()));
    let events = pending.into_events();
    assert_eq!(events.len(), 1);
    match &events[0].kind {
        PresentationEventKind::PassiveChosen { player_id, passive_id } => {
            assert_eq!(player_id, "a");
            assert_eq!(passive_id, "thick-skin");
        }
        _ => panic!("only the passive choice is new"),
    }
}

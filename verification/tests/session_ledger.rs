use db_sim_core::match_session::{AuthorityTimeout, MatchCommand, MatchCommandKind, SessionFault};
use db_sim_core::presentation::{ClientMatchOutcome, ClientMatchPhase, MatchSnapshot, Presentation};
use db_sim_core::session_ledger::{
    input_lock_ticks, retained_transition_bytes, CommandLedger, LedgerCheckpoint, LedgerRequest, Receipt,
    TransitionDisposition, TransitionEnvelope, TransitionRejection,
};

fn presentation() -> Presentation {
    Presentation {
        events: Vec::new(),
        post_snapshot: MatchSnapshot {
            client_contract_version: 1,
            simulation_version: 2,
            content_version: 1,
            generation: 0,
            tick: 0,
            turn_number: 1,
            phase: ClientMatchPhase::Movement,
            active_player_id: None,
            current_and_upcoming_player_ids: Vec::new(),
            wind_per_tick: 0,
            movement_remaining: 0,
            has_attacked_this_turn: false,
            outcome: ClientMatchOutcome::InProgress,
            terrain_width: 10,
            terrain_height: 10,
            terrain_generation: 0,
            blocks: Vec::new(),
            players: Vec::new(),
            persistent_objects: Vec::new(),
            authoritative_state_hash: "h".to_owned(),
        },
    }
}

fn pass(command_id: &str, generation: u64) -> LedgerRequest {
    LedgerRequest::Client(MatchCommand {
        schema_version: 1,
        command_id: command_id.to_owned(),
        player_id: "p1".to_owned(),
        expected_turn_number: 1,
        expected_snapshot_generation: generation,
        kind: MatchCommandKind::Pass,
    })
}

fn moving(command_id: &str, dx: i32) -> LedgerRequest {
    LedgerRequest::Client(MatchCommand {
        schema_version: 1,
        command_id: command_id.to_owned(),
        player_id: "p1".to_owned(),
        expected_turn_number: 1,
        expected_snapshot_generation: 0,
        kind: MatchCommandKind::Move { dx },
    })
}

fn accepted(command_id: &str, pre: u64, post: u64) -> TransitionEnvelope {
    TransitionEnvelope {
        schema_version: 1,
        command_id: command_id.to_owned(),
        disposition: TransitionDisposition::Accepted,
        rejection_reason: None,
        pre_snapshot_generation: pre,
        post_snapshot_generation: post,
        presentation_tick_rate: 60,
        input_lock_ticks: 12,
        post_state_hash: "h".to_owned(),
    }
}

#[test]
fn a_committed_command_replays_its_first_result_without_mutation() {
    let mut ledger = CommandLedger::new(1);
    let request = pass("c1", 0);
    assert!(matches!(ledger.receive(&request), Ok(Receipt::Fresh)));
    let published = match ledger.commit(pass("c1", 0), accepted("c1", 0, 1), presentation()) {
        Ok(transition) => transition,
        Err(fault) => panic!("commit must succeed: {fault:?}"),
    };
    assert_eq!(published.disposition, TransitionDisposition::Accepted);
    assert_eq!(ledger.generation(), 1);
    assert_eq!(ledger.ledger_len(), 1);
    assert_eq!(ledger.ledger_bytes(), 163);
    match ledger.receive(&request) {
        Ok(Receipt::Replay(replay)) => {
            assert_eq!(replay.disposition, TransitionDisposition::DuplicateReplay);
            assert_eq!(replay.command_id, "c1");
            assert_eq!(replay.pre_snapshot_generation, 0);
            assert_eq!(replay.post_snapshot_generation, 1);
            assert_eq!(replay.input_lock_ticks, 12);
        }
        other => panic!("expected a replay, got {other:?}"),
    }
    assert_eq!(ledger.generation(), 1);
    assert_eq!(ledger.ledger_len(), 1);
    assert_eq!(ledger.ledger_bytes(), 163);
}

#[test]
fn a_reused_key_for_different_content_is_a_conflict_and_is_not_recorded() {
    let mut ledger = CommandLedger::new(1);
    assert!(ledger.commit(moving("c1", 5), accepted("c1", 0, 1), presentation()).is_ok());
    assert!(matches!(ledger.receive(&moving("c1", 6)), Ok(Receipt::Conflict)));
    let timeout = LedgerRequest::Authority(AuthorityTimeout {
        schema_version: 1,
        action_id: "c1".to_owned(),
        player_id: "p1".to_owned(),
        expected_turn_number: 1,
        expected_snapshot_generation: 0,
    });
    assert!(matches!(ledger.receive(&timeout), Ok(Receipt::Conflict)));
    assert_eq!(ledger.ledger_len(), 1);
    assert!(!ledger.is_closed());
}

#[test]
fn a_stale_generation_is_refused_recorded_and_then_replayed() {
    let mut ledger = CommandLedger::new(1);
    let request = pass("c9", 5);
    assert!(matches!(
        ledger.receive(&request),
        Ok(Receipt::StaleGeneration { expected: 5, actual: 0 })
    ));
    let refusal = ledger.rejection(
        &request,
        TransitionRejection::SnapshotGenerationMismatch { expected: 5, actual: 0 },
        60,
        "h".to_owned(),
    );
    assert_eq!(refusal.disposition, TransitionDisposition::Rejected);
    assert_eq!(refusal.input_lock_ticks, 0);
    assert!(ledger.commit(pass("c9", 5), refusal, presentation()).is_ok());
    assert_eq!(ledger.generation(), 0);
    match ledger.receive(&request) {
        Ok(Receipt::Replay(replay)) => {
            assert_eq!(replay.disposition, TransitionDisposition::DuplicateReplay);
            assert_eq!(
                replay.rejection_reason,
                Some(TransitionRejection::SnapshotGenerationMismatch { expected: 5, actual: 0 })
            );
        }
        other => panic!("expected a replay, got {other:?}"),
    }
}

#[test]
fn reaching_the_entry_limit_closes_the_ledger() {
    let mut ledger = CommandLedger::with_limits(1, 1, 1_000);
    assert!(ledger.commit(pass("c1", 0), accepted("c1", 0, 1), presentation()).is_ok());
    assert!(matches!(ledger.receive(&pass("c2", 0)), Err(SessionFault::ResourceLimit)));
    assert!(ledger.is_closed());
    assert!(matches!(ledger.receive(&pass("c1", 0)), Err(SessionFault::Closed)));
    assert!(matches!(
        ledger.commit(pass("c3", 0), accepted("c3", 0, 0), presentation()),
        Err(SessionFault::Closed)
    ));
    assert_eq!(ledger.ledger_len(), 1);
}

#[test]
fn crossing_the_byte_limit_closes_the_ledger_and_publishes_nothing() {
    let mut ledger = CommandLedger::with_limits(1, 10, 162);
    assert!(matches!(
        ledger.commit(pass("c1", 0), accepted("c1", 0, 1), presentation()),
        Err(SessionFault::ResourceLimit)
    ));
    assert!(ledger.is_closed());
    assert_eq!(ledger.ledger_len(), 0);
    assert_eq!(ledger.ledger_bytes(), 0);
    assert_eq!(ledger.generation(), 0);

    let mut exact = CommandLedger::with_limits(1, 10, 163);
    assert!(exact.commit(pass("c1", 0), accepted("c1", 0, 1), presentation()).is_ok());
    assert_eq!(exact.ledger_bytes(), 163);
}

#[test]
fn a_malformed_request_is_refused_without_being_retained() {
    let mut ledger = CommandLedger::new(1);
    assert_eq!(
        match ledger.receive(&pass("", 0)) {
            Err(fault) => fault,
            other => panic!("expected a structural fault, got {other:?}"),
        },
        SessionFault::InvalidCommand { field: "command id" }
    );
    let mut future = pass("c1", 0);
    if let LedgerRequest::Client(command) = &mut future {
        command.schema_version = 2;
    }
    assert!(matches!(
        ledger.receive(&future),
        Err(SessionFault::UnsupportedSchema { expected: 1, actual: 2 })
    ));
    assert!(matches!(
        ledger.commit(pass("bad id", 0), accepted("bad id", 0, 1), presentation()),
        Err(SessionFault::InvalidCommand { field: "command id" })
    ));
    assert_eq!(ledger.ledger_len(), 0);
    assert!(!ledger.is_closed());
}

#[test]
fn the_presentation_is_measured_by_the_ledger_itself() {
    // 4 bytes of empty event list and a 77-byte minimal snapshot
    assert_eq!(db_sim_core::presentation::retained_presentation_bytes(&presentation()), Some(81));
    let mut ledger = CommandLedger::new(1);
    assert!(ledger.commit(pass("c1", 0), accepted("c1", 0, 1), presentation()).is_ok());
    // request 35 + transition 47 without its presentation part + 81
    assert_eq!(ledger.ledger_bytes(), 163);
    match ledger.position_of(&"c1".to_owned()) {
        Some(index) => {
            assert_eq!(index, 0);
            assert_eq!(ledger.presentation_at(index).post_snapshot.authoritative_state_hash, "h");
        }
        None => panic!("c1 must be retained"),
    }
}

#[test]
fn a_transition_that_skips_generations_or_binds_elsewhere_is_a_contract_fault() {
    let mut ledger = CommandLedger::new(1);
    assert!(matches!(
        ledger.commit(pass("c1", 0), accepted("c1", 0, 2), presentation()),
        Err(SessionFault::ContractInvariant)
    ));
    assert!(ledger.is_closed());
    let mut other = CommandLedger::new(1);
    assert!(matches!(
        other.commit(pass("c1", 0), accepted("c2", 0, 1), presentation()),
        Err(SessionFault::ContractInvariant)
    ));
    let mut twice = CommandLedger::new(1);
    assert!(twice.commit(pass("c1", 0), accepted("c1", 0, 1), presentation()).is_ok());
    assert!(matches!(
        twice.commit(pass("c1", 1), accepted("c1", 1, 1), presentation()),
        Err(SessionFault::ContractInvariant)
    ));
}

#[test]
fn the_generation_advances_only_for_a_mutation() {
    let mut ledger = CommandLedger::new(1);
    assert_eq!(ledger.next_generation(false), Ok(0));
    assert_eq!(ledger.next_generation(true), Ok(1));
    assert_eq!(ledger.generation(), 0);
    assert!(!ledger.is_closed());
}

#[test]
fn the_input_lock_follows_the_last_event() {
    assert_eq!(input_lock_ticks(None), 0);
    assert_eq!(input_lock_ticks(Some(7)), 7);
    assert_eq!(input_lock_ticks(Some(u32::MAX)), u32::MAX);
}

#[test]
fn transition_bytes_count_each_field_at_its_wire_width() {
    let mut refused = accepted("c1", 0, 0);
    assert_eq!(retained_transition_bytes(&refused, Some(10)), Some(57));
    refused.rejection_reason = Some(TransitionRejection::SnapshotGenerationMismatch { expected: 1, actual: 0 });
    assert_eq!(retained_transition_bytes(&refused, Some(10)), Some(74));
    refused.rejection_reason = Some(TransitionRejection::CommandIdConflict);
    assert_eq!(retained_transition_bytes(&refused, Some(10)), Some(58));
    assert_eq!(retained_transition_bytes(&refused, None), None);
}

fn two_entry_checkpoint() -> LedgerCheckpoint {
    let mut ledger = CommandLedger::new(1);
    assert!(ledger.commit(pass("c1", 0), accepted("c1", 0, 1), presentation()).is_ok());
    let request = pass("c2", 0);
    let refusal = ledger.rejection(
        &request,
        TransitionRejection::SnapshotGenerationMismatch { expected: 0, actual: 1 },
        60,
        "h".to_owned(),
    );
    assert!(ledger.commit(request, refusal, presentation()).is_ok());
    match ledger.checkpoint() {
        Ok(checkpoint) => checkpoint,
        Err(fault) => panic!("an open ledger must checkpoint: {fault:?}"),
    }
}

#[test]
fn a_checkpoint_restores_the_same_ledger_and_its_replays() {
    let checkpoint = two_entry_checkpoint();
    assert_eq!(checkpoint.declared_len, 2);
    assert_eq!(checkpoint.generation, 1);
    let declared_bytes = checkpoint.declared_bytes;
    let mut restored = match CommandLedger::restore(checkpoint) {
        Ok(ledger) => ledger,
        Err(fault) => panic!("a faithful checkpoint must restore: {fault:?}"),
    };
    assert_eq!(restored.generation(), 1);
    assert_eq!(restored.ledger_len(), 2);
    assert_eq!(restored.ledger_bytes(), declared_bytes);
    assert!(!restored.is_closed());
    match restored.receive(&pass("c1", 0)) {
        Ok(Receipt::Replay(replay)) => {
            assert_eq!(replay.disposition, TransitionDisposition::DuplicateReplay);
            assert_eq!(replay.post_snapshot_generation, 1);
        }
        other => panic!("expected a replay, got {other:?}"),
    }
}

#[test]
fn a_closed_ledger_yields_no_checkpoint() {
    let mut ledger = CommandLedger::with_limits(1, 0, 0);
    assert!(matches!(ledger.receive(&pass("c1", 0)), Err(SessionFault::ResourceLimit)));
    assert!(matches!(ledger.checkpoint(), Err(SessionFault::Closed)));
}

#[test]
fn restore_refuses_a_tampered_checkpoint() {
    let mut wrong_len = two_entry_checkpoint();
    wrong_len.declared_len = 3;
    assert!(matches!(CommandLedger::restore(wrong_len), Err(SessionFault::ContractInvariant)));

    let mut wrong_bytes = two_entry_checkpoint();
    wrong_bytes.declared_bytes += 1;
    assert!(matches!(CommandLedger::restore(wrong_bytes), Err(SessionFault::ContractInvariant)));

    let mut too_wide = two_entry_checkpoint();
    too_wide.entry_limit = usize::MAX;
    assert!(matches!(CommandLedger::restore(too_wide), Err(SessionFault::ResourceLimit)));

    let mut too_small = two_entry_checkpoint();
    too_small.byte_limit = 10;
    assert!(matches!(CommandLedger::restore(too_small), Err(SessionFault::ResourceLimit)));

    let mut future = two_entry_checkpoint();
    future.generation = 2;
    assert!(matches!(CommandLedger::restore(future), Err(SessionFault::ContractInvariant)));

    let mut replayed = two_entry_checkpoint();
    replayed.entries[0].transition.disposition = TransitionDisposition::DuplicateReplay;
    assert!(matches!(CommandLedger::restore(replayed), Err(SessionFault::ContractInvariant)));

    let mut duplicated = two_entry_checkpoint();
    duplicated.entries[1].request = pass("c1", 0);
    duplicated.entries[1].transition.command_id = "c1".to_owned();
    assert!(matches!(CommandLedger::restore(duplicated), Err(SessionFault::ContractInvariant)));

    let mut recounted = two_entry_checkpoint();
    recounted.entries[0].presentation.post_snapshot.authoritative_state_hash = "hh".to_owned();
    assert!(matches!(CommandLedger::restore(recounted), Err(SessionFault::ContractInvariant)));

    let mut malformed = two_entry_checkpoint();
    malformed.entries[0].request = pass("", 0);
    malformed.entries[0].transition.command_id = String::new();
    assert!(matches!(
        CommandLedger::restore(malformed),
        Err(SessionFault::InvalidCommand { field: "command id" })
    ));
}

#[test]
fn a_timeout_is_presented_as_a_pass_with_its_own_identity() {
    let timeout = AuthorityTimeout {
        schema_version: 1,
        action_id: "t7".to_owned(),
        player_id: "p2".to_owned(),
        expected_turn_number: 4,
        expected_snapshot_generation: 9,
    };
    let command = db_sim_core::session_ledger::timeout_as_pass(&timeout);
    assert_eq!(command.command_id, "t7");
    assert_eq!(command.player_id, "p2");
    assert_eq!(command.expected_turn_number, 4);
    assert_eq!(command.expected_snapshot_generation, 9);
    assert_eq!(command.kind, MatchCommandKind::Pass);
}

#[test]
fn accepting_publishes_the_next_generation_only_for_a_mutation() {
    let mut ledger = CommandLedger::new(1);
    let first = match ledger.accept(pass("c1", 0), true, Some(30), 60, "h1".to_owned(), presentation()) {
        Ok(transition) => transition,
        Err(fault) => panic!("accept must succeed: {fault:?}"),
    };
    assert_eq!(first.disposition, TransitionDisposition::Accepted);
    assert_eq!(first.pre_snapshot_generation, 0);
    assert_eq!(first.post_snapshot_generation, 1);
    assert_eq!(first.input_lock_ticks, 30);
    assert_eq!(ledger.generation(), 1);

    let second = match ledger.accept(pass("c2", 1), false, None, 60, "h1".to_owned(), presentation()) {
        Ok(transition) => transition,
        Err(fault) => panic!("accept must succeed: {fault:?}"),
    };
    assert_eq!(second.post_snapshot_generation, 1);
    assert_eq!(second.input_lock_ticks, 0);
    assert_eq!(ledger.generation(), 1);
    assert_eq!(ledger.ledger_len(), 2);
}

#[test]
fn refusing_records_the_refusal_at_the_current_generation() {
    let mut ledger = CommandLedger::new(1);
    let refused = match ledger.refuse(
        pass("c1", 0),
        TransitionRejection::CommandIdConflict,
        60,
        "h".to_owned(),
        presentation(),
    ) {
        Ok(transition) => transition,
        Err(fault) => panic!("refuse must succeed: {fault:?}"),
    };
    assert_eq!(refused.disposition, TransitionDisposition::Rejected);
    assert_eq!(refused.rejection_reason, Some(TransitionRejection::CommandIdConflict));
    assert_eq!(refused.pre_snapshot_generation, 0);
    assert_eq!(refused.post_snapshot_generation, 0);
    assert_eq!(ledger.generation(), 0);
    assert_eq!(ledger.ledger_len(), 1);
}

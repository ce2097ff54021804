//! Event derivation for one transition: every stage in the order the events are derived,
//! then the events ordered for presentation.

use crate::match_session::SessionFault;
use crate::player_events::derive_player_events;
use crate::presentation::{
    derive_object_changed_events, derive_passive_choice_event, derive_record_events,
    derive_terrain_event, derive_turn_events, spec_impact_tick_of, spec_is_trace_event,
    spec_ordered_from, spec_presented_before, spec_record_events, spec_strike_event,
    spec_trace_pair, spec_random_event, spec_resolution_tick, MatchSnapshot,
    PendingEvent, PendingEvents, PresentationEvent, PresentationEventKind, ProjectileTrace,
    StrikeDelivery, StrikeResolution,
};
use crate::reconcile::derive_status_events;
use crate::types::{DamageEvent, RandomOutcome, SimulationState, StatusChange};
use vstd::prelude::*;

verus! {

/// Whether `kind` presents a resolved strike.
pub open spec fn spec_is_strike(kind: PresentationEventKind) -> bool {
    kind is StrikeResolved
}

/// Whether no event of `events` from position `from` on presents a strike.
pub open spec fn spec_no_strikes_from(events: Seq<PendingEvent>, from: int) -> bool {
    forall|p: int| from <= p < events.len() ==> !spec_is_strike((#[trigger] events[p]).kind)
}

proof fn lemma_extend(old: Seq<PendingEvent>, new: Seq<PendingEvent>, keep: Seq<PendingEvent>, from: int)
    requires
        old.len() <= new.len(),
        new.subrange(0, old.len() as int) == old,
        keep.len() <= old.len(),
        old.subrange(0, keep.len() as int) == keep,
        0 <= from <= old.len(),
        spec_no_strikes_from(old, from),
        forall|p: int| old.len() <= p < new.len() ==> !spec_is_strike((#[trigger] new[p]).kind),
    ensures
        new.subrange(0, keep.len() as int) == keep,
        spec_no_strikes_from(new, from),
{
    assert forall|p: int| 0 <= p < keep.len() implies new[p] == keep[p] by {
        assert(new.subrange(0, old.len() as int)[p] == new[p]);
        assert(old.subrange(0, keep.len() as int)[p] == old[p]);
    }
    assert(new.subrange(0, keep.len() as int) =~= keep);
    assert forall|p: int| from <= p < new.len() implies !spec_is_strike((#[trigger] new[p]).kind) by {
        if p < old.len() {
            assert(new.subrange(0, old.len() as int)[p] == new[p]);
        }
    }
}

proof fn lemma_ordered_events(
    events: Seq<PresentationEvent>,
    all: Seq<PendingEvent>,
    src: Seq<int>,
    records: Seq<PendingEvent>,
)
    requires
        spec_ordered_from(events, all, src),
        records.len() <= all.len(),
        spec_no_strikes_from(all, records.len() as int),
    ensures
        forall|i: int| 0 <= i < events.len() ==> (#[trigger] events[i]).sequence == i,
        forall|i: int, j: int|
            0 <= i < j < events.len() ==> (#[trigger] events[i]).presentation_tick <= (
            #[trigger] events[j]).presentation_tick,
        forall|i: int|
            0 <= i < events.len() && spec_is_strike((#[trigger] events[i]).kind) ==> src[i]
                < records.len(),
{
    assert forall|i: int, j: int|
        0 <= i < j < events.len() implies (#[trigger] events[i]).presentation_tick <= (
        #[trigger] events[j]).presentation_tick by {
        assert(spec_presented_before(all[src[i]], all[src[j]]));
    }
    assert forall|i: int|
        0 <= i < events.len() && spec_is_strike((#[trigger] events[i]).kind) implies src[i]
        < records.len() by {
        assert(events[i].kind == all[src[i]].kind);
    }
}

#[verifier::rlimit(40)]
#[verifier::spinoff_prover]
proof fn lemma_strikes_at_impact(
    events: Seq<PresentationEvent>,
    all: Seq<PendingEvent>,
    src: Seq<int>,
    records: Seq<PendingEvent>,
    owner_id: String,
    ability_id: String,
    traces: Seq<ProjectileTrace>,
    strikes: Seq<StrikeResolution>,
    random_outcomes: Seq<RandomOutcome>,
)
    requires
        spec_ordered_from(events, all, src),
        records.len() <= all.len(),
        all.subrange(0, records.len() as int) == records,
        forall|i: int|
            0 <= i < events.len() && spec_is_strike((#[trigger] events[i]).kind) ==> src[i]
                < records.len(),
        spec_record_events(records, 0, owner_id, ability_id, traces, strikes, random_outcomes),
    ensures
        forall|i: int|
            0 <= i < events.len() ==> match (#[trigger] events[i]).kind {
                PresentationEventKind::StrikeResolved { strike, .. } => match strike.delivery {
                    StrikeDelivery::Projectile { trace_sequence } => events[i].presentation_tick
                        == spec_impact_tick_of(traces, trace_sequence),
                    StrikeDelivery::Melee => events[i].presentation_tick == 0,
                    StrikeDelivery::Effect { .. } => events[i].presentation_tick
                        == spec_resolution_tick(traces),
                },
                _ => true,
            },
{
    assert forall|i: int| 0 <= i < events.len() implies match (#[trigger] events[i]).kind {
        PresentationEventKind::StrikeResolved { strike, .. } => match strike.delivery {
            StrikeDelivery::Projectile { trace_sequence } => events[i].presentation_tick
                == spec_impact_tick_of(traces, trace_sequence),
            StrikeDelivery::Melee => events[i].presentation_tick == 0,
            StrikeDelivery::Effect { .. } => events[i].presentation_tick == spec_resolution_tick(traces),
        },
        _ => true,
    } by {
        if spec_is_strike(events[i].kind) {
            let p = src[i];
            assert(events[i].kind == all[p].kind);
            assert(events[i].presentation_tick == all[p].presentation_tick);
            assert(all.subrange(0, records.len() as int)[p] == all[p]);
            let t = traces.len() as int;
            let s = strikes.len() as int;
            if p < 2 * t {
                let k = p / 2;
                assert(spec_trace_pair(records[2 * k], records[2 * k + 1], owner_id, ability_id, traces[k]));
                if p == 2 * k {
                    assert(spec_is_trace_event(records[p].kind, owner_id, ability_id, traces[k]));
                }
            } else if p < 2 * t + s {
                let j = p - 2 * t;
                assert(spec_strike_event(
                    records[2 * t + j],
                    owner_id,
                    ability_id,
                    traces,
                    strikes[j],
                    spec_resolution_tick(traces),
                ));
            } else {
                let m = p - 2 * t - s;
                assert(spec_random_event(
                    records[2 * t + s + m],
                    owner_id,
                    ability_id,
                    random_outcomes[m],
                    spec_resolution_tick(traces),
                ));
            }
        }
    }
}

/// The events of one transition, in presentation order and numbered by position. The
/// stages, in derivation order: an ability's own records (when the action produced an
/// outcome: its traces, strikes, public random results and damage; `ability_id` is the
/// ability's id when the character data knows it), terrain, the status record, each
/// player, in-place object changes, the passive choice (`character_passives` is what the
/// character data offers the newly active player's character), and the turn. Any stage's
/// fault is the transition's fault.
///
/// Of the result: events are numbered by position and never go back in time, and every
/// projectile-delivered strike is presented at its own trace's impact tick (with no
/// outcome, no strike is presented at all).
#[verifier::rlimit(60)]
#[verifier::spinoff_prover]
pub fn derive_events(
    pre_state: &SimulationState,
    post_state: &SimulationState,
    pre_snapshot: &MatchSnapshot,
    post_snapshot: &MatchSnapshot,
    owner_id: &String,
    ability_id: &Option<String>,
    outcome: Option<(&Vec<ProjectileTrace>, &Vec<StrikeResolution>, &Vec<RandomOutcome>, &Vec<DamageEvent>)>,
    status_changes: &Vec<StatusChange>,
    character_passives: Option<&Vec<String>>,
) -> (result: Result<Vec<PresentationEvent>, SessionFault>)
    ensures
        result matches Ok(events) ==> {
            &&& forall|i: int| 0 <= i < events@.len() ==> (#[trigger] events@[i]).sequence == i
            &&& forall|i: int, j: int|
                0 <= i < j < events@.len() ==> (#[trigger] events@[i]).presentation_tick <= (
                #[trigger] events@[j]).presentation_tick
            &&& outcome is None ==> forall|i: int|
                0 <= i < events@.len() ==> !spec_is_strike((#[trigger] events@[i]).kind)
            &&& outcome matches Some((traces, _, _, _)) ==> forall|i: int|
                0 <= i < events@.len() ==> match (#[trigger] events@[i]).kind {
                    PresentationEventKind::StrikeResolved { strike, .. } => match strike.delivery {
                        StrikeDelivery::Projectile { trace_sequence } => events@[i].presentation_tick
                            == spec_impact_tick_of(traces@, trace_sequence),
                        StrikeDelivery::Melee => events@[i].presentation_tick == 0,
                        StrikeDelivery::Effect { .. } => events@[i].presentation_tick
                            == spec_resolution_tick(traces@),
                    },
                    _ => true,
                }
        },
{
    let mut pending = PendingEvents::new();
    let mut resolution_tick: u32 = 0;
    let ability = match ability_id {
        Some(id) => id.clone(),
        None => String::new(),
    };
    match outcome {
        Some((traces, strikes, random_outcomes, _)) => {
            if ability_id.is_none() {
                return Err(SessionFault::ContractInvariant);
            }
            match derive_record_events(&mut pending, owner_id, &ability, traces, strikes, random_outcomes) {
                Err(fault) => {
                    return Err(fault);
                },
                Ok(tick) => {
                    resolution_tick = tick;
                },
            }
        },
        None => {},
    }
    let ghost records = pending@;
    proof {
        assert(records.subrange(0, records.len() as int) =~= records);
    }
    let ghost stage = pending@;
    match derive_terrain_event(&mut pending, pre_state, post_state, resolution_tick) {
        Err(fault) => {
            return Err(fault);
        },
        Ok(()) => {},
    }
    proof {
        assert forall|p: int| stage.len() <= p < pending@.len() implies !spec_is_strike(
            (#[trigger] pending@[p]).kind,
        ) by {
            assert(p == stage.len());
        }
        if pending@ == stage {
            assert(pending@.subrange(0, stage.len() as int) =~= stage);
        }
        lemma_extend(stage, pending@, records, records.len() as int);
    }
    let ghost stage = pending@;
    match derive_status_events(&mut pending, pre_snapshot, post_snapshot, status_changes, resolution_tick) {
        Err(fault) => {
            return Err(fault);
        },
        Ok(()) => {},
    }
    proof {
        assert forall|p: int| stage.len() <= p < pending@.len() implies !spec_is_strike(
            (#[trigger] pending@[p]).kind,
        ) by {
            let k = p - stage.len();
            assert(crate::reconcile::spec_status_event(
                pending@[stage.len() + k],
                status_changes@[k],
                resolution_tick,
            ));
        }
        lemma_extend(stage, pending@, records, records.len() as int);
    }
    let player_records = match outcome {
        Some((_, strikes, _, damage)) => Some((strikes, damage)),
        None => None,
    };
    let ghost stage = pending@;
    match derive_player_events(
        &mut pending,
        pre_snapshot,
        post_snapshot,
        owner_id,
        ability_id,
        player_records,
        resolution_tick,
    ) {
        Err(fault) => {
            return Err(fault);
        },
        Ok(()) => {},
    }
    proof {
        lemma_players_items_no_strikes(
            pre_snapshot.players@,
            post_snapshot.players@,
            *owner_id,
            *ability_id,
            crate::player_events::spec_records_view(player_records),
            post_snapshot.players@.len() as int,
        );
        let items = crate::player_events::spec_players_items(
            pre_snapshot.players@,
            post_snapshot.players@,
            *owner_id,
            *ability_id,
            crate::player_events::spec_records_view(player_records),
            post_snapshot.players@.len() as int,
        )->0;
        assert forall|p: int| stage.len() <= p < pending@.len() implies !spec_is_strike(
            (#[trigger] pending@[p]).kind,
        ) by {
            let k = p - stage.len();
            assert(!spec_is_strike(items[k].1));
            assert(crate::player_events::spec_item_event(
                pending@[stage.len() + k],
                items[k],
                resolution_tick,
            ));
        }
        lemma_extend(stage, pending@, records, records.len() as int);
    }
    let ghost stage = pending@;
    match derive_object_changed_events(&mut pending, pre_snapshot, post_snapshot, resolution_tick) {
        Err(fault) => {
            return Err(fault);
        },
        Ok(()) => {},
    }
    proof {
        assert forall|p: int| stage.len() <= p < pending@.len() implies !spec_is_strike(
            (#[trigger] pending@[p]).kind,
        ) by {
            let k = p - stage.len();
            assert(pending@[stage.len() + k].rank == 17);
        }
        lemma_extend(stage, pending@, records, records.len() as int);
    }
    let ghost stage = pending@;
    match derive_passive_choice_event(&mut pending, pre_state, post_state, character_passives, resolution_tick) {
        Err(fault) => {
            return Err(fault);
        },
        Ok(()) => {},
    }
    proof {
        assert forall|p: int| stage.len() <= p < pending@.len() implies !spec_is_strike(
            (#[trigger] pending@[p]).kind,
        ) by {
            assert(p == stage.len());
        }
        if pending@ == stage {
            assert(pending@.subrange(0, stage.len() as int) =~= stage);
        }
        lemma_extend(stage, pending@, records, records.len() as int);
    }
    let ghost stage = pending@;
    match derive_turn_events(&mut pending, pre_state, post_state, pre_snapshot, post_snapshot, resolution_tick) {
        Err(fault) => {
            return Err(fault);
        },
        Ok(()) => {},
    }
    proof {
        assert forall|p: int| stage.len() <= p < pending@.len() implies !spec_is_strike(
            (#[trigger] pending@[p]).kind,
        ) by {
            let turn = crate::presentation::spec_turn_events(
                stage.len() as int,
                *pre_state,
                *post_state,
                pre_snapshot.outcome,
                post_snapshot.outcome,
                resolution_tick,
            );
            assert(pending@ == stage + turn);
            assert(pending@[p] == turn[p - stage.len()]);
        }
        assert(pending@.subrange(0, stage.len() as int) =~= stage);
        lemma_extend(stage, pending@, records, records.len() as int);
    }
    let ghost all = pending@;
    let events = pending.into_events();
    proof {
        let src = choose|src: Seq<int>| spec_ordered_from(events@, all, src);
        lemma_ordered_events(events@, all, src, records);
        match outcome {
            None => {
                assert(records.len() == 0);
            },
            Some((traces, strikes, random_outcomes, _)) => {
                lemma_strikes_at_impact(
                    events@,
                    all,
                    src,
                    records,
                    *owner_id,
                    ability,
                    traces@,
                    strikes@,
                    random_outcomes@,
                );
            },
        }
    }
    Ok(events)
}

/// No per-player event presents a strike.
proof fn lemma_players_items_no_strikes(
    pre_players: Seq<crate::presentation::PlayerSnapshot>,
    post_players: Seq<crate::presentation::PlayerSnapshot>,
    owner_id: String,
    ability_id: Option<String>,
    records: Option<(Seq<StrikeResolution>, Seq<DamageEvent>)>,
    n: int,
)
    ensures
        crate::player_events::spec_players_items(
            pre_players,
            post_players,
            owner_id,
            ability_id,
            records,
            n,
        ) matches Some(items) ==> forall|k: int|
            0 <= k < items.len() ==> !spec_is_strike((#[trigger] items[k]).1),
    decreases n,
{
    if n > 0 {
        lemma_players_items_no_strikes(pre_players, post_players, owner_id, ability_id, records, n - 1);
        let earlier = crate::player_events::spec_players_items(
            pre_players,
            post_players,
            owner_id,
            ability_id,
            records,
            n - 1,
        );
        match crate::player_events::spec_players_items(
            pre_players,
            post_players,
            owner_id,
            ability_id,
            records,
            n,
        ) {
            Some(items) => {
                let i = crate::player_events::spec_find_snapshot(
                    pre_players,
                    post_players[n - 1].id@,
                    pre_players.len() as int,
                )->0;
                let step = crate::player_events::spec_player_items(
                    pre_players[i],
                    post_players[n - 1],
                    owner_id,
                    ability_id,
                    records,
                )->0;
                assert(items == earlier->0 + step);
                assert forall|k: int| 0 <= k < items.len() implies !spec_is_strike((#[trigger] items[k]).1) by {
                    if k >= earlier->0.len() {
                        assert(items[k] == step[k - earlier->0.len()]);
                    } else {
                        assert(items[k] == earlier->0[k]);
                    }
                }
            },
            None => {},
        }
    }
}

} // verus!

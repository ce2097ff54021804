//! Exact reconciliation of the producer-owned status record with the snapshots a client
//! sees: replaying every status transition, in order, from the pre-snapshot must land
//! exactly on the post-snapshot.
//!
//! Observing that a record names a kind that differs between the snapshots is not enough: a
//! stale tick, a refresh that misreports what it replaced, or a missing charge consumption
//! would all pass such a check. Replaying step by step also accepts invisible but legitimate
//! lifecycles, such as a status applied and expired within one action.

use crate::match_session::SessionFault;
use crate::presentation::{
    ClientStatusKind, MatchSnapshot, PendingEvent, PendingEvents, PlayerSnapshot,
    PresentationEventKind, StatusSnapshot,
};
use crate::types::{EffectKind, StatusChange, StatusTransition};
use vstd::prelude::*;

verus! {

/// The client vocabulary names each effect kind by the same name.
pub open spec fn spec_client_status_kind(kind: EffectKind) -> ClientStatusKind {
    match kind {
        EffectKind::Knockback => ClientStatusKind::Knockback,
        EffectKind::Push => ClientStatusKind::Push,
        EffectKind::Pull => ClientStatusKind::Pull,
        EffectKind::Recoil => ClientStatusKind::Recoil,
        EffectKind::WallImpact => ClientStatusKind::WallImpact,
        EffectKind::Teleport => ClientStatusKind::Teleport,
        EffectKind::Relocate => ClientStatusKind::Relocate,
        EffectKind::Obscure => ClientStatusKind::Obscure,
        EffectKind::SpawnTurret => ClientStatusKind::SpawnTurret,
        EffectKind::EmbedProjectile => ClientStatusKind::EmbedProjectile,
        EffectKind::ChainDetonate => ClientStatusKind::ChainDetonate,
        EffectKind::Chill => ClientStatusKind::Chill,
        EffectKind::Embers => ClientStatusKind::Embers,
        EffectKind::Lockdown => ClientStatusKind::Lockdown,
        EffectKind::MultiStrike => ClientStatusKind::MultiStrike,
        EffectKind::GuaranteeCrit => ClientStatusKind::GuaranteeCrit,
        EffectKind::Cluster => ClientStatusKind::Cluster,
        EffectKind::Return => ClientStatusKind::Return,
        EffectKind::Tunnel => ClientStatusKind::Tunnel,
        EffectKind::Heal => ClientStatusKind::Heal,
        EffectKind::HealthTransfer => ClientStatusKind::HealthTransfer,
        EffectKind::SelfDamage => ClientStatusKind::SelfDamage,
    }
}

/// See [`spec_client_status_kind`].
pub fn client_status_kind(kind: EffectKind) -> (client: ClientStatusKind)
    ensures
        client == spec_client_status_kind(kind),
{
    match kind {
        EffectKind::Knockback => ClientStatusKind::Knockback,
        EffectKind::Push => ClientStatusKind::Push,
        EffectKind::Pull => ClientStatusKind::Pull,
        EffectKind::Recoil => ClientStatusKind::Recoil,
        EffectKind::WallImpact => ClientStatusKind::WallImpact,
        EffectKind::Teleport => ClientStatusKind::Teleport,
        EffectKind::Relocate => ClientStatusKind::Relocate,
        EffectKind::Obscure => ClientStatusKind::Obscure,
        EffectKind::SpawnTurret => ClientStatusKind::SpawnTurret,
        EffectKind::EmbedProjectile => ClientStatusKind::EmbedProjectile,
        EffectKind::ChainDetonate => ClientStatusKind::ChainDetonate,
        EffectKind::Chill => ClientStatusKind::Chill,
        EffectKind::Embers => ClientStatusKind::Embers,
        EffectKind::Lockdown => ClientStatusKind::Lockdown,
        EffectKind::MultiStrike => ClientStatusKind::MultiStrike,
        EffectKind::GuaranteeCrit => ClientStatusKind::GuaranteeCrit,
        EffectKind::Cluster => ClientStatusKind::Cluster,
        EffectKind::Return => ClientStatusKind::Return,
        EffectKind::Tunnel => ClientStatusKind::Tunnel,
        EffectKind::Heal => ClientStatusKind::Heal,
        EffectKind::HealthTransfer => ClientStatusKind::HealthTransfer,
        EffectKind::SelfDamage => ClientStatusKind::SelfDamage,
    }
}

/// One player's statuses during the replay, keyed by kind.
pub type Statuses = Seq<StatusSnapshot>;

/// The replay state: each player's id with their statuses.
pub type Shadow = Seq<(Seq<char>, Statuses)>;

/// The index of the first status of `kind`, if any.
pub open spec fn spec_find_kind(statuses: Statuses, kind: ClientStatusKind) -> Option<int>
    decreases statuses.len(),
{
    if statuses.len() == 0 {
        None
    } else {
        match spec_find_kind(statuses.drop_last(), kind) {
            Some(i) => Some(i),
            None => if statuses.last().kind == kind {
                Some(statuses.len() - 1)
            } else {
                None
            },
        }
    }
}

/// The index of the first player `id`, if any.
pub open spec fn spec_find_id(shadow: Shadow, id: Seq<char>) -> Option<int>
    decreases shadow.len(),
{
    if shadow.len() == 0 {
        None
    } else {
        match spec_find_id(shadow.drop_last(), id) {
            Some(i) => Some(i),
            None => if shadow.last().0 == id {
                Some(shadow.len() - 1)
            } else {
                None
            },
        }
    }
}

/// Whether no two statuses share a kind.
pub open spec fn spec_kinds_distinct(statuses: Statuses) -> bool {
    forall|i: int, j: int|
        0 <= i < j < statuses.len() ==> (#[trigger] statuses[i]).kind != (#[trigger] statuses[j]).kind
}

/// Whether no two players share an id and each player's kinds are distinct.
pub open spec fn spec_shadow_distinct(shadow: Shadow) -> bool {
    &&& forall|i: int, j: int|
        0 <= i < j < shadow.len() ==> (#[trigger] shadow[i]).0 != (#[trigger] shadow[j]).0
    &&& forall|i: int| 0 <= i < shadow.len() ==> spec_kinds_distinct(#[trigger] shadow[i].1)
}

/// The replay state of a snapshot: each player's id and statuses, in snapshot order, or
/// nothing when a player id or a player's status kind repeats.
pub open spec fn spec_status_shadow(snapshot: MatchSnapshot) -> Option<Shadow> {
    let shadow = snapshot.players@.map_values(
        |player: PlayerSnapshot| (player.id@, player.statuses@),
    );
    if spec_shadow_distinct(shadow) {
        Some(shadow)
    } else {
        None
    }
}

/// One status after one recorded transition, or nothing when the record contradicts it:
/// applying over an existing status; refreshing, consuming, ticking, exhausting or expiring
/// a missing one; a refresh that misreports what it replaced; a consumption that does not
/// leave exactly one charge fewer (and at least one); a tick that does not leave exactly one
/// turn fewer (and at least one); exhausting anything but a last charge; expiring a status
/// with more than one turn left.
pub open spec fn spec_apply_to_statuses(
    statuses: Statuses,
    kind: ClientStatusKind,
    transition: StatusTransition,
) -> Option<Statuses> {
    let found = spec_find_kind(statuses, kind);
    match transition {
        StatusTransition::Applied { magnitude, turns_remaining } => if found is Some {
            None
        } else {
            Some(statuses.push(StatusSnapshot { kind, magnitude, turns_remaining }))
        },
        StatusTransition::Refreshed {
            magnitude,
            turns_remaining,
            replaced_magnitude,
            replaced_turns_remaining,
        } => match found {
            None => None,
            Some(i) => if statuses[i].magnitude != replaced_magnitude || statuses[i].turns_remaining
                != replaced_turns_remaining {
                None
            } else {
                Some(statuses.update(i, StatusSnapshot { kind, magnitude, turns_remaining }))
            },
        },
        StatusTransition::ChargeConsumed { remaining } => if remaining <= 0 {
            None
        } else {
            match found {
                None => None,
                Some(i) => if statuses[i].magnitude - 1 != remaining {
                    None
                } else {
                    Some(statuses.update(i, StatusSnapshot { magnitude: remaining, ..statuses[i] }))
                },
            }
        },
        StatusTransition::Ticked { turns_remaining } => if turns_remaining == 0 {
            None
        } else {
            match found {
                None => None,
                Some(i) => if statuses[i].turns_remaining - 1 != turns_remaining {
                    None
                } else {
                    Some(statuses.update(i, StatusSnapshot { turns_remaining, ..statuses[i] }))
                },
            }
        },
        StatusTransition::Exhausted => match found {
            Some(i) => if statuses[i].magnitude == 1 {
                Some(statuses.remove(i))
            } else {
                None
            },
            None => None,
        },
        StatusTransition::Expired => match found {
            Some(i) => if statuses[i].turns_remaining <= 1 {
                Some(statuses.remove(i))
            } else {
                None
            },
            None => None,
        },
    }
}

/// The replay state after one record, or nothing when its player is unknown or the record
/// contradicts that player's statuses.
pub open spec fn spec_apply_status_change(shadow: Shadow, change: StatusChange) -> Option<Shadow> {
    match spec_find_id(shadow, change.player_id@) {
        None => None,
        Some(p) => match spec_apply_to_statuses(
            shadow[p].1,
            spec_client_status_kind(change.kind),
            change.transition,
        ) {
            None => None,
            Some(statuses) => Some(shadow.update(p, (shadow[p].0, statuses))),
        },
    }
}

/// The replay state after the first `n` records, in order.
pub open spec fn spec_apply_status_changes(shadow: Shadow, changes: Seq<StatusChange>, n: int) -> Option<
    Shadow,
>
    decreases n,
{
    if n <= 0 {
        Some(shadow)
    } else {
        match spec_apply_status_changes(shadow, changes, n - 1) {
            None => None,
            Some(state) => spec_apply_status_change(state, changes[n - 1]),
        }
    }
}

/// Whether two status lists hold the same status for every kind.
pub open spec fn spec_same_statuses(a: Statuses, b: Statuses) -> bool {
    forall|kind: ClientStatusKind|
        match (#[trigger] spec_find_kind(a, kind), spec_find_kind(b, kind)) {
            (None, None) => true,
            (Some(i), Some(j)) => a[i] == b[j],
            _ => false,
        }
}

/// Whether two replay states hold the same players, each with the same statuses.
pub open spec fn spec_same_shadow(a: Shadow, b: Shadow) -> bool {
    forall|id: Seq<char>|
        match (#[trigger] spec_find_id(a, id), spec_find_id(b, id)) {
            (None, None) => true,
            (Some(i), Some(j)) => spec_same_statuses(a[i].1, b[j].1),
            _ => false,
        }
}

/// Whether two replay states hold the same players.
pub open spec fn spec_same_ids(a: Shadow, b: Shadow) -> bool {
    forall|id: Seq<char>| (#[trigger] spec_find_id(a, id) is Some) == spec_find_id(b, id) is Some
}

/// Reconciliation: both snapshots must be well-formed status maps over the same players,
/// and replaying every record from the pre-snapshot must reach the post-snapshot exactly;
/// anything else is a contract fault.
pub open spec fn spec_reconcile_statuses(
    pre: MatchSnapshot,
    post: MatchSnapshot,
    changes: Seq<StatusChange>,
) -> Result<(), SessionFault> {
    match (spec_status_shadow(pre), spec_status_shadow(post)) {
        (Some(start), Some(expected)) => if !spec_same_ids(start, expected) {
            Err(SessionFault::ContractInvariant)
        } else {
            match spec_apply_status_changes(start, changes, changes.len() as int) {
                Some(reached) => if spec_same_shadow(reached, expected) {
                    Ok(())
                } else {
                    Err(SessionFault::ContractInvariant)
                },
                None => Err(SessionFault::ContractInvariant),
            }
        },
        _ => Err(SessionFault::ContractInvariant),
    }
}

/// The exec replay state: each player's id with their statuses.
pub type ShadowEntries = Vec<(String, Vec<StatusSnapshot>)>;

/// The view of the exec replay state.
pub open spec fn spec_shadow_view(entries: Seq<(String, Vec<StatusSnapshot>)>) -> Shadow {
    entries.map_values(|entry: (String, Vec<StatusSnapshot>)| (entry.0@, entry.1@))
}

proof fn lemma_find_kind(statuses: Statuses, kind: ClientStatusKind)
    ensures
        spec_find_kind(statuses, kind) matches Some(i) ==> 0 <= i < statuses.len()
            && statuses[i].kind == kind && forall|j: int| 0 <= j < i ==> statuses[j].kind != kind,
        spec_find_kind(statuses, kind) is None ==> forall|j: int|
            0 <= j < statuses.len() ==> statuses[j].kind != kind,
    decreases statuses.len(),
{
    if statuses.len() > 0 {
        let prefix = statuses.drop_last();
        lemma_find_kind(prefix, kind);
        assert forall|j: int| 0 <= j < prefix.len() implies prefix[j] == statuses[j] by {}
    }
}

proof fn lemma_find_kind_at(statuses: Statuses, kind: ClientStatusKind, i: int)
    requires
        0 <= i < statuses.len(),
        statuses[i].kind == kind,
        forall|j: int| 0 <= j < i ==> statuses[j].kind != kind,
    ensures
        spec_find_kind(statuses, kind) == Some(i),
{
    lemma_find_kind(statuses, kind);
    if let Some(k) = spec_find_kind(statuses, kind) {
        if k < i {
        } else if k > i {
        }
    }
}

proof fn lemma_find_id(shadow: Shadow, id: Seq<char>)
    ensures
        spec_find_id(shadow, id) matches Some(i) ==> 0 <= i < shadow.len() && shadow[i].0 == id
            && forall|j: int| 0 <= j < i ==> shadow[j].0 != id,
        spec_find_id(shadow, id) is None ==> forall|j: int| 0 <= j < shadow.len() ==> shadow[j].0 != id,
    decreases shadow.len(),
{
    if shadow.len() > 0 {
        let prefix = shadow.drop_last();
        lemma_find_id(prefix, id);
        assert forall|j: int| 0 <= j < prefix.len() implies prefix[j] == shadow[j] by {}
    }
}

proof fn lemma_find_id_at(shadow: Shadow, id: Seq<char>, i: int)
    requires
        0 <= i < shadow.len(),
        shadow[i].0 == id,
        forall|j: int| 0 <= j < i ==> shadow[j].0 != id,
    ensures
        spec_find_id(shadow, id) == Some(i),
{
    lemma_find_id(shadow, id);
    if let Some(k) = spec_find_id(shadow, id) {
        if k < i {
        } else if k > i {
        }
    }
}

/// The index of the first status of `kind` (see [`spec_find_kind`]).
fn find_kind(statuses: &Vec<StatusSnapshot>, kind: ClientStatusKind) -> (index: Option<usize>)
    ensures
        match index {
            Some(i) => spec_find_kind(statuses@, kind) == Some(i as int) && i < statuses@.len(),
            None => spec_find_kind(statuses@, kind) is None,
        },
{
    let mut i: usize = 0;
    while i < statuses.len()
        invariant
            i <= statuses@.len(),
            forall|j: int| 0 <= j < i ==> statuses@[j].kind != kind,
        decreases statuses@.len() - i,
    {
        if statuses[i].kind == kind {
            proof {
                lemma_find_kind_at(statuses@, kind, i as int);
            }
            return Some(i);
        }
        i = i + 1;
    }
    proof {
        lemma_find_kind(statuses@, kind);
        if let Some(k) = spec_find_kind(statuses@, kind) {
            assert(statuses@[k].kind == kind);
        }
    }
    None
}

/// The index of the first player `id` (see [`spec_find_id`]).
fn find_id(shadow: &ShadowEntries, id: &String) -> (index: Option<usize>)
    ensures
        match index {
            Some(i) => spec_find_id(spec_shadow_view(shadow@), id@) == Some(i as int) && i < shadow@.len(),
            None => spec_find_id(spec_shadow_view(shadow@), id@) is None,
        },
{
    let ghost view = spec_shadow_view(shadow@);
    let mut i: usize = 0;
    while i < shadow.len()
        invariant
            i <= shadow@.len(),
            view == spec_shadow_view(shadow@),
            forall|j: int| 0 <= j < i ==> view[j].0 != id@,
        decreases shadow@.len() - i,
    {
        if shadow[i].0 == *id {
            proof {
                lemma_find_id_at(view, id@, i as int);
            }
            return Some(i);
        }
        i = i + 1;
    }
    proof {
        lemma_find_id(view, id@);
        if let Some(k) = spec_find_id(view, id@) {
            assert(view[k].0 == id@);
        }
    }
    None
}

/// One status list after one recorded transition (see [`spec_apply_to_statuses`]); on a
/// contradiction the list is left as it was.
fn apply_to_statuses(
    statuses: &mut Vec<StatusSnapshot>,
    kind: ClientStatusKind,
    transition: &StatusTransition,
) -> (applied: bool)
    ensures
        match spec_apply_to_statuses(old(statuses)@, kind, *transition) {
            Some(next) => applied && final(statuses)@ == next,
            None => !applied && final(statuses)@ == old(statuses)@,
        },
{
    let found = find_kind(statuses, kind);
    match transition {
        StatusTransition::Applied { magnitude, turns_remaining } => {
            if found.is_some() {
                return false;
            }
            statuses.push(StatusSnapshot { kind, magnitude: *magnitude, turns_remaining: *turns_remaining });
            true
        },
        StatusTransition::Refreshed {
            magnitude,
            turns_remaining,
            replaced_magnitude,
            replaced_turns_remaining,
        } => match found {
            None => false,
            Some(i) => {
                let current = statuses[i];
                if current.magnitude != *replaced_magnitude || current.turns_remaining
                    != *replaced_turns_remaining {
                    return false;
                }
                statuses.set(i, StatusSnapshot { kind, magnitude: *magnitude, turns_remaining: *turns_remaining });
                true
            },
        },
        StatusTransition::ChargeConsumed { remaining } => {
            if *remaining <= 0 {
                return false;
            }
            match found {
                None => false,
                Some(i) => {
                    let current = statuses[i];
                    if current.magnitude == i32::MIN || current.magnitude - 1 != *remaining {
                        return false;
                    }
                    statuses.set(i, StatusSnapshot { magnitude: *remaining, ..current });
                    true
                },
            }
        },
        StatusTransition::Ticked { turns_remaining } => {
            if *turns_remaining == 0 {
                return false;
            }
            match found {
                None => false,
                Some(i) => {
                    let current = statuses[i];
                    if current.turns_remaining == 0 || current.turns_remaining - 1 != *turns_remaining {
                        return false;
                    }
                    statuses.set(i, StatusSnapshot { turns_remaining: *turns_remaining, ..current });
                    true
                },
            }
        },
        StatusTransition::Exhausted => match found {
            Some(i) => {
                if statuses[i].magnitude != 1 {
                    return false;
                }
                statuses.remove(i);
                true
            },
            None => false,
        },
        StatusTransition::Expired => match found {
            Some(i) => {
                if statuses[i].turns_remaining > 1 {
                    return false;
                }
                statuses.remove(i);
                true
            },
            None => false,
        },
    }
}

/// Replays one status record against the replay state (see [`spec_apply_status_change`]):
/// a record for an unknown player or one that contradicts the player's statuses is a
/// contract fault and leaves the state as it was.
pub fn apply_status_change(shadow: &mut ShadowEntries, change: &StatusChange) -> (result: Result<(), SessionFault>)
    ensures
        match spec_apply_status_change(spec_shadow_view(old(shadow)@), *change) {
            Some(next) => result is Ok && spec_shadow_view(final(shadow)@) == next,
            None => result == Err::<(), SessionFault>(SessionFault::ContractInvariant)
                && spec_shadow_view(final(shadow)@) == spec_shadow_view(old(shadow)@),
        },
{
    let ghost before = spec_shadow_view(shadow@);
    let p = match find_id(shadow, &change.player_id) {
        None => return Err(SessionFault::ContractInvariant),
        Some(p) => p,
    };
    let kind = client_status_kind(change.kind);
    let (id, mut statuses) = shadow.remove(p);
    let ghost removed = shadow@;
    assert(before[p as int] == (id@, statuses@));
    if !apply_to_statuses(&mut statuses, kind, &change.transition) {
        shadow.insert(p, (id, statuses));
        proof {
            assert(spec_shadow_view(shadow@) =~= before);
        }
        return Err(SessionFault::ContractInvariant);
    }
    let ghost next_statuses = statuses@;
    shadow.insert(p, (id, statuses));
    proof {
        assert(spec_shadow_view(shadow@) =~= before.update(p as int, (before[p as int].0, next_statuses)));
    }
    Ok(())
}

/// A copy of a status list.
fn copy_statuses(statuses: &Vec<StatusSnapshot>) -> (copy: Vec<StatusSnapshot>)
    ensures
        copy@ == statuses@,
{
    let mut copy: Vec<StatusSnapshot> = Vec::new();
    let mut i: usize = 0;
    while i < statuses.len()
        invariant
            i <= statuses@.len(),
            copy@ == statuses@.take(i as int),
        decreases statuses@.len() - i,
    {
        copy.push(statuses[i]);
        proof {
            assert(statuses@.take(i + 1) =~= statuses@.take(i as int).push(statuses@[i as int]));
        }
        i = i + 1;
    }
    proof {
        assert(statuses@.take(i as int) =~= statuses@);
    }
    copy
}

/// Whether a status list's kinds are distinct (see [`spec_kinds_distinct`]).
fn kinds_distinct(statuses: &Vec<StatusSnapshot>) -> (distinct: bool)
    ensures
        distinct == spec_kinds_distinct(statuses@),
{
    let mut i: usize = 0;
    while i < statuses.len()
        invariant
            i <= statuses@.len(),
            forall|a: int, b: int|
                0 <= a < b < i ==> (#[trigger] statuses@[a]).kind != (#[trigger] statuses@[b]).kind,
        decreases statuses@.len() - i,
    {
        let mut j: usize = 0;
        while j < i
            invariant
                j <= i < statuses@.len(),
                forall|a: int| 0 <= a < j ==> (#[trigger] statuses@[a]).kind != statuses@[i as int].kind,
            decreases i - j,
        {
            if statuses[j].kind == statuses[i].kind {
                return false;
            }
            j = j + 1;
        }
        i = i + 1;
    }
    true
}

/// The replay state of a snapshot (see [`spec_status_shadow`]).
pub fn status_shadow(snapshot: &MatchSnapshot) -> (shadow: Option<ShadowEntries>)
    ensures
        match shadow {
            Some(entries) => spec_status_shadow(*snapshot) == Some(spec_shadow_view(entries@)),
            None => spec_status_shadow(*snapshot) is None,
        },
{
    let ghost target = snapshot.players@.map_values(
        |player: PlayerSnapshot| (player.id@, player.statuses@),
    );
    let mut entries: ShadowEntries = Vec::new();
    let mut i: usize = 0;
    while i < snapshot.players.len()
        invariant
            i <= snapshot.players@.len(),
            target == snapshot.players@.map_values(
                |player: PlayerSnapshot| (player.id@, player.statuses@),
            ),
            spec_shadow_view(entries@) == target.take(i as int),
            forall|a: int, b: int| 0 <= a < b < i ==> (#[trigger] target[a]).0 != (#[trigger] target[b]).0,
            forall|a: int| 0 <= a < i ==> spec_kinds_distinct(#[trigger] target[a].1),
        decreases snapshot.players@.len() - i,
    {
        let player = &snapshot.players[i];
        proof {
            assert(target[i as int] == (player.id@, player.statuses@));
        }
        if !kinds_distinct(&player.statuses) {
            proof {
                assert(!spec_kinds_distinct(target[i as int].1));
            }
            return None;
        }
        let mut j: usize = 0;
        while j < i
            invariant
                j <= i < snapshot.players@.len(),
                player == snapshot.players@[i as int],
                target == snapshot.players@.map_values(
                    |player: PlayerSnapshot| (player.id@, player.statuses@),
                ),
                forall|a: int| 0 <= a < j ==> (#[trigger] target[a]).0 != target[i as int].0,
            decreases i - j,
        {
            if snapshot.players[j].id == player.id {
                proof {
                    assert(target[j as int].0 == target[i as int].0);
                }
                return None;
            }
            j = j + 1;
        }
        let id = player.id.clone();
        let statuses = copy_statuses(&player.statuses);
        let ghost old_entries = entries@;
        entries.push((id, statuses));
        proof {
            assert(spec_shadow_view(entries@) =~= spec_shadow_view(old_entries).push(
                (player.id@, player.statuses@),
            ));
            assert(target.take(i + 1) =~= target.take(i as int).push(target[i as int]));
        }
        i = i + 1;
    }
    proof {
        assert(target.take(i as int) =~= target);
    }
    Some(entries)
}

/// Whether two status lists hold the same status for every kind (see
/// [`spec_same_statuses`]).
fn same_statuses(a: &Vec<StatusSnapshot>, b: &Vec<StatusSnapshot>) -> (same: bool)
    ensures
        same == spec_same_statuses(a@, b@),
{
    let mut i: usize = 0;
    while i < a.len()
        invariant
            i <= a@.len(),
            forall|k: int|
                0 <= k < i ==> spec_kind_agrees(a@, b@, (#[trigger] a@[k]).kind),
        decreases a@.len() - i,
    {
        proof {
            lemma_find_kind(a@, a@[i as int].kind);
        }
        match find_kind(b, a[i].kind) {
            None => {
                proof {
                    lemma_find_kind(a@, a@[i as int].kind);
                }
                return false;
            },
            Some(j) => {
                let first = find_kind(a, a[i].kind);
                match first {
                    Some(f) => {
                        if a[f] != b[j] {
                            return false;
                        }
                    },
                    None => {
                        return false;
                    },
                }
            },
        }
        i = i + 1;
    }
    let mut j: usize = 0;
    while j < b.len()
        invariant
            j <= b@.len(),
            forall|k: int|
                0 <= k < a@.len() ==> spec_kind_agrees(a@, b@, (#[trigger] a@[k]).kind),
            forall|k: int| 0 <= k < j ==> spec_find_kind(a@, (#[trigger] b@[k]).kind) is Some,
        decreases b@.len() - j,
    {
        if find_kind(a, b[j].kind).is_none() {
            proof {
                lemma_find_kind(b@, b@[j as int].kind);
                lemma_find_kind(a@, b@[j as int].kind);
                assert(!spec_same_statuses(a@, b@)) by {
                    let kind = b@[j as int].kind;
                    assert(spec_find_kind(b@, kind) is Some);
                }
            }
            return false;
        }
        j = j + 1;
    }
    proof {
        assert forall|kind: ClientStatusKind| match (#[trigger] spec_find_kind(a@, kind), spec_find_kind(b@, kind)) {
            (None, None) => true,
            (Some(x), Some(y)) => a@[x] == b@[y],
            _ => false,
        } by {
            lemma_find_kind(a@, kind);
            lemma_find_kind(b@, kind);
            if let Some(x) = spec_find_kind(a@, kind) {
                assert(a@[x].kind == kind);
                lemma_find_kind(a@, a@[x].kind);
            } else if let Some(y) = spec_find_kind(b@, kind) {
                assert(b@[y].kind == kind);
            }
        }
    }
    true
}

/// Whether both lists hold a status of `kind`, and the first of each is the same.
pub open spec fn spec_kind_agrees(a: Statuses, b: Statuses, kind: ClientStatusKind) -> bool {
    &&& spec_find_kind(a, kind) is Some
    &&& spec_find_kind(b, kind) is Some
    &&& spec_find_kind_value(a, kind) == spec_find_kind_value(b, kind)
}

/// The status of `kind` in `statuses` (meaningful when one exists).
pub open spec fn spec_find_kind_value(statuses: Statuses, kind: ClientStatusKind) -> StatusSnapshot {
    statuses[spec_find_kind(statuses, kind)->Some_0]
}

/// Whether both states hold player `id`, with the same statuses at their first entries.
pub open spec fn spec_id_agrees(a: Shadow, b: Shadow, id: Seq<char>) -> bool {
    &&& spec_find_id(a, id) is Some
    &&& spec_find_id(b, id) is Some
    &&& spec_same_statuses(a[spec_find_id(a, id)->Some_0].1, b[spec_find_id(b, id)->Some_0].1)
}

/// Whether two replay states hold the same players (see [`spec_same_ids`]).
fn same_ids(a: &ShadowEntries, b: &ShadowEntries) -> (same: bool)
    ensures
        same == spec_same_ids(spec_shadow_view(a@), spec_shadow_view(b@)),
{
    let ghost va = spec_shadow_view(a@);
    let ghost vb = spec_shadow_view(b@);
    let mut i: usize = 0;
    while i < a.len()
        invariant
            i <= a@.len(),
            va == spec_shadow_view(a@),
            vb == spec_shadow_view(b@),
            forall|k: int| 0 <= k < i ==> spec_find_id(vb, (#[trigger] va[k]).0) is Some,
        decreases a@.len() - i,
    {
        if find_id(b, &a[i].0).is_none() {
            proof {
                lemma_find_id(va, va[i as int].0);
                assert(spec_find_id(va, va[i as int].0) is Some);
            }
            return false;
        }
        i = i + 1;
    }
    let mut j: usize = 0;
    while j < b.len()
        invariant
            j <= b@.len(),
            va == spec_shadow_view(a@),
            vb == spec_shadow_view(b@),
            forall|k: int| 0 <= k < va.len() ==> spec_find_id(vb, (#[trigger] va[k]).0) is Some,
            forall|k: int| 0 <= k < j ==> spec_find_id(va, (#[trigger] vb[k]).0) is Some,
        decreases b@.len() - j,
    {
        if find_id(a, &b[j].0).is_none() {
            proof {
                lemma_find_id(vb, vb[j as int].0);
                assert(spec_find_id(vb, vb[j as int].0) is Some);
            }
            return false;
        }
        j = j + 1;
    }
    proof {
        assert forall|id: Seq<char>| (#[trigger] spec_find_id(va, id) is Some) == spec_find_id(vb, id) is Some by {
            lemma_find_id(va, id);
            lemma_find_id(vb, id);
            if let Some(x) = spec_find_id(va, id) {
                assert(va[x].0 == id);
            } else if let Some(y) = spec_find_id(vb, id) {
                assert(vb[y].0 == id);
            }
        }
    }
    true
}

/// Whether two replay states hold the same players with the same statuses (see
/// [`spec_same_shadow`]).
fn same_shadow(a: &ShadowEntries, b: &ShadowEntries) -> (same: bool)
    ensures
        same == spec_same_shadow(spec_shadow_view(a@), spec_shadow_view(b@)),
{
    let ghost va = spec_shadow_view(a@);
    let ghost vb = spec_shadow_view(b@);
    let mut i: usize = 0;
    while i < a.len()
        invariant
            i <= a@.len(),
            va == spec_shadow_view(a@),
            vb == spec_shadow_view(b@),
            forall|k: int| 0 <= k < i ==> spec_id_agrees(va, vb, (#[trigger] va[k]).0),
        decreases a@.len() - i,
    {
        proof {
            lemma_find_id(va, va[i as int].0);
        }
        let first = match find_id(a, &a[i].0) {
            Some(f) => f,
            None => return false,
        };
        match find_id(b, &a[i].0) {
            None => {
                return false;
            },
            Some(j) => {
                if !same_statuses(&a[first].1, &b[j].1) {
                    return false;
                }
            },
        }
        i = i + 1;
    }
    let mut j: usize = 0;
    while j < b.len()
        invariant
            j <= b@.len(),
            va == spec_shadow_view(a@),
            vb == spec_shadow_view(b@),
            forall|k: int| 0 <= k < va.len() ==> spec_id_agrees(va, vb, (#[trigger] va[k]).0),
            forall|k: int| 0 <= k < j ==> spec_find_id(va, (#[trigger] vb[k]).0) is Some,
        decreases b@.len() - j,
    {
        if find_id(a, &b[j].0).is_none() {
            proof {
                lemma_find_id(vb, vb[j as int].0);
                let id = vb[j as int].0;
                assert(spec_find_id(vb, id) is Some);
                assert(!spec_same_shadow(va, vb)) by {
                    assert(spec_find_id(va, id) is None);
                }
            }
            return false;
        }
        j = j + 1;
    }
    proof {
        assert forall|id: Seq<char>| match (#[trigger] spec_find_id(va, id), spec_find_id(vb, id)) {
            (None, None) => true,
            (Some(x), Some(y)) => spec_same_statuses(va[x].1, vb[y].1),
            _ => false,
        } by {
            lemma_find_id(va, id);
            lemma_find_id(vb, id);
            if let Some(x) = spec_find_id(va, id) {
                assert(va[x].0 == id);
            } else if let Some(y) = spec_find_id(vb, id) {
                assert(vb[y].0 == id);
            }
        }
    }
    true
}

/// Once a replay is contradicted it stays contradicted.
proof fn lemma_replay_fails_on(shadow: Shadow, changes: Seq<StatusChange>, m: int, n: int)
    requires
        0 <= m <= n,
        spec_apply_status_changes(shadow, changes, m) is None,
    ensures
        spec_apply_status_changes(shadow, changes, n) is None,
    decreases n - m,
{
    if n > m {
        lemma_replay_fails_on(shadow, changes, m, n - 1);
    }
}

/// Reconciles the status record of one action with the snapshots around it (see
/// [`spec_reconcile_statuses`]): every record, replayed in order from the pre-snapshot, must
/// land exactly on the post-snapshot.
pub fn reconcile_status_changes(
    pre: &MatchSnapshot,
    post: &MatchSnapshot,
    changes: &Vec<StatusChange>,
) -> (result: Result<(), SessionFault>)
    ensures
        result == spec_reconcile_statuses(*pre, *post, changes@),
{
    let mut shadow = match status_shadow(pre) {
        None => return Err(SessionFault::ContractInvariant),
        Some(entries) => entries,
    };
    let expected = match status_shadow(post) {
        None => return Err(SessionFault::ContractInvariant),
        Some(entries) => entries,
    };
    if !same_ids(&shadow, &expected) {
        return Err(SessionFault::ContractInvariant);
    }
    let ghost start = spec_shadow_view(shadow@);
    let mut i: usize = 0;
    while i < changes.len()
        invariant
            i <= changes@.len(),
            spec_apply_status_changes(start, changes@, i as int) == Some(spec_shadow_view(shadow@)),
            spec_status_shadow(*pre) == Some(start),
            spec_status_shadow(*post) == Some(spec_shadow_view(expected@)),
            spec_same_ids(start, spec_shadow_view(expected@)),
        decreases changes@.len() - i,
    {
        match apply_status_change(&mut shadow, &changes[i]) {
            Err(fault) => {
                proof {
                    lemma_replay_fails_on(start, changes@, i as int + 1, changes@.len() as int);
                }
                return Err(fault);
            },
            Ok(()) => {},
        }
        i = i + 1;
    }
    if same_shadow(&shadow, &expected) {
        Ok(())
    } else {
        Err(SessionFault::ContractInvariant)
    }
}

/// Whether `event` presents the status record `change` at the resolution tick, in the
/// client's status vocabulary.
pub open spec fn spec_status_event(event: PendingEvent, change: StatusChange, resolution_tick: u32) -> bool {
    &&& event.presentation_tick == resolution_tick
    &&& event.rank == 15
    &&& event.kind == PresentationEventKind::StatusChanged {
        player_id: change.player_id,
        kind: spec_client_status_kind(change.kind),
        transition: change.transition,
    }
}

/// Reconciles the status record of one action with the snapshots around it and derives its
/// events after those already in `pending`: one `StatusChanged` per record, once, in record
/// order (never grouped by player), at the resolution tick. A record that does not replay
/// exactly is refused with the reconciliation's fault, more events than `u32` numbers with a
/// contract fault.
pub fn derive_status_events(
    pending: &mut PendingEvents,
    pre: &MatchSnapshot,
    post: &MatchSnapshot,
    changes: &Vec<StatusChange>,
    resolution_tick: u32,
) -> (result: Result<(), SessionFault>)
    requires
        old(pending).wf(),
    ensures
        final(pending).wf(),
        result is Ok <==> spec_reconcile_statuses(*pre, *post, changes@) is Ok && old(pending)@.len()
            + changes@.len() <= u32::MAX + 1,
        spec_reconcile_statuses(*pre, *post, changes@) is Err ==> result == spec_reconcile_statuses(
            *pre,
            *post,
            changes@,
        ),
        result is Err ==> result == spec_reconcile_statuses(*pre, *post, changes@) || result
            == Err::<(), SessionFault>(SessionFault::ContractInvariant),
        result is Ok ==> final(pending)@.len() == old(pending)@.len() + changes@.len()
            && final(pending)@.subrange(0, old(pending)@.len() as int) == old(pending)@
            && forall|i: int|
            0 <= i < changes@.len() ==> spec_status_event(
                final(pending)@[old(pending)@.len() + i],
                #[trigger] changes@[i],
                resolution_tick,
            ),
{
    let reconciled = reconcile_status_changes(pre, post, changes);
    if reconciled.is_err() {
        return reconciled;
    }
    let ghost before = pending@;
    let ghost base = before.len() as int;
    proof {
        pending.lemma_len_fits();
    }
    let mut i: usize = 0;
    while i < changes.len()
        invariant
            pending.wf(),
            pending@.len() <= u32::MAX + 1,
            i <= changes@.len(),
            before == old(pending)@,
            base == before.len(),
            spec_reconcile_statuses(*pre, *post, changes@) is Ok,
            pending@.len() == base + i,
            pending@.subrange(0, base) == before,
            forall|k: int|
                0 <= k < i ==> spec_status_event(pending@[base + k], #[trigger] changes@[k], resolution_tick),
        decreases changes@.len() - i,
    {
        let change = &changes[i];
        let kind = PresentationEventKind::StatusChanged {
            player_id: change.player_id.clone(),
            kind: client_status_kind(change.kind),
            transition: change.transition,
        };
        let ghost mid = pending@;
        match pending.push(resolution_tick, 15, kind) {
            Ok(()) => {},
            Err(fault) => {
                return Err(fault);
            },
        }
        proof {
            pending.lemma_len_fits();
            assert(pending@.subrange(0, base) =~= mid.subrange(0, base));
            assert forall|k: int|
                0 <= k < i + 1 implies spec_status_event(
                pending@[base + k],
                #[trigger] changes@[k],
                resolution_tick,
            ) by {
                if k < i {
                    assert(pending@[base + k] == mid[base + k]);
                }
            }
        }
        i = i + 1;
    }
    Ok(())
}

} // verus!

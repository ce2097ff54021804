//! The presentation part of a transition (its ordered events and the post snapshot a client
//! repaints from) and its deterministic retained-byte measure.
//!
//! The measure is the session ledger's logical wire size: integers at their fixed widths,
//! enum discriminants and option tags as one byte, strings and sequences as a four-byte
//! length followed by their contents. It never depends on allocator capacity or word size.

use crate::fixed::FixedPoint;
use crate::match_session::{
    spec_terrain_dirty_rectangles, terrain_dirty_rectangles, CellRectangle, RetainedByteCounter,
    SessionFault,
};
use crate::resolve::{insert_sorted_id, spec_sort_ids, spec_string_views};
use crate::types::{
    spec_find_player, EffectKind, MatchPhase, RandomOutcome, SimulationState, StatusTransition,
    TurnEndReason,
};
use vstd::prelude::*;
use vstd::utf8::encode_utf8;

verus! {

/// A position as the client sees it.
#[derive(Debug, Clone, Copy, PartialEq, Eq, Structural)]
pub struct PositionSnapshot {
    pub x: i32,
    pub y: i32,
}

/// One sample of a projectile's flight.
#[derive(Debug, Clone, Copy, PartialEq, Eq, Structural)]
pub struct ProjectileSampleSnapshot {
    pub tick: u32,
    pub position: PositionSnapshot,
}

/// Why a projectile stopped.
#[derive(Debug, Clone, Copy, PartialEq, Eq, Structural)]
pub enum ClientImpactCause {
    Terrain,
    Character,
    OutOfBounds,
    Expired,
}

/// Where and when a projectile stopped.
#[derive(Debug, Clone, Copy, PartialEq, Eq, Structural)]
pub struct ImpactSnapshot {
    pub position: PositionSnapshot,
    pub tick: u32,
    pub cause: ClientImpactCause,
}

/// A projectile's sampled flight and its terminal impact.
#[derive(Debug)]
pub struct ProjectileTraceEvent {
    pub trace_id: u32,
    pub owner_id: String,
    pub ability_id: String,
    pub samples: Vec<ProjectileSampleSnapshot>,
    pub terminal_impact: ImpactSnapshot,
}

/// Damage, healing and knockback recorded against one player by one action.
#[derive(Debug, Clone, Copy, PartialEq, Eq, Structural)]
pub struct DamageBreakdown {
    pub direct: u16,
    pub splash: u16,
    pub backlash: u16,
    pub hazard: u16,
    pub wall_impact: u16,
    pub healed: u16,
    pub was_critical: bool,
    pub knockback: PositionSnapshot,
    pub eliminated: bool,
}

/// What caused a change.
#[derive(Debug)]
pub enum ChangeProvenance {
    Strike { owner_id: String, ability_id: String, strike_index: u16 },
    Backlash { owner_id: String, ability_id: String },
    Splash { owner_id: String, ability_id: String },
    WallImpact { owner_id: String, ability_id: String },
    AbilityEffect { owner_id: String, ability_id: String },
    Hazard,
    AuthoritativeResolution,
}

/// Why an entity moved.
#[derive(Debug, Clone, Copy, PartialEq, Eq, Structural)]
pub enum EntityMovementCause {
    RequestedMove,
    AuthoritativeResolution,
}

/// How a strike reached its target.
#[derive(Debug, Clone, Copy, PartialEq, Eq, Structural)]
pub enum StrikeDelivery {
    Projectile { trace_sequence: u32 },
    Melee,
    Effect { kind: EffectKind },
}

/// The critical-hit roll of a strike.
#[derive(Debug, Clone, Copy, PartialEq, Eq, Structural)]
pub enum CritRoll {
    NotEligible,
    Missed,
    Landed,
    Forced,
}

/// One resolved strike as presented.
#[derive(Debug)]
pub struct StrikeResolution {
    pub strike_index: u16,
    pub target_player_id: String,
    pub impact_point: FixedPoint,
    pub delivery: StrikeDelivery,
    pub crit: CritRoll,
    pub damage_applied: u16,
    pub eliminated_target: bool,
}

/// The closed client vocabulary of status and effect kinds.
#[derive(Debug, Clone, Copy, PartialEq, Eq, Structural)]
pub enum ClientStatusKind {
    Knockback,
    Chill,
    Cluster,
    Embers,
    Tunnel,
    Return,
    Recoil,
    SelfDamage,
    Teleport,
    Pull,
    Push,
    WallImpact,
    Lockdown,
    SpawnTurret,
    Heal,
    HealthTransfer,
    MultiStrike,
    GuaranteeCrit,
    EmbedProjectile,
    ChainDetonate,
    Relocate,
    Obscure,
}

/// The client vocabulary of persistent object kinds.
#[derive(Debug, Clone, Copy, PartialEq, Eq, Structural)]
pub enum ClientObjectKind {
    Turret,
    EmbeddedKnife,
    GasCloud,
}

/// A persistent object as the client sees it.
#[derive(Debug)]
pub struct PersistentObjectSnapshot {
    pub sequence: u32,
    pub owner_id: String,
    pub kind: ClientObjectKind,
    pub position: PositionSnapshot,
    pub health: u16,
    pub turns_remaining: u8,
}

/// Why a persistent object left play.
#[derive(Debug, Clone, Copy, PartialEq, Eq, Structural)]
pub enum PersistentObjectRemovalCause {
    Replaced,
    CapacityEvicted,
    Detonated,
    Expired,
    Destroyed,
    OwnerEliminated,
}

/// Why a turn ended, as presented.
#[derive(Debug, Clone, Copy, PartialEq, Eq, Structural)]
pub enum ClientTurnEndReason {
    Attacked,
    Passed,
    TimedOut,
    Eliminated,
}

/// The match result, as presented.
#[derive(Debug, Clone, Copy, PartialEq, Eq, Structural)]
pub enum ClientMatchOutcome {
    InProgress,
    Draw,
    Victory { team: u8 },
}

// ---------------------------------------------------------------------------------------
// Leaf measures
// ---------------------------------------------------------------------------------------

/// Whether adding `size` bytes to `before` succeeded exactly when the value `fits` and the
/// total stays within `u64`, producing `after`.
pub open spec fn spec_added(before: u64, after: u64, added: bool, fits: bool, size: nat) -> bool {
    &&& added <==> (fits && before + size <= u64::MAX)
    &&& added ==> after == before + size
}

/// Retained bytes of a string: a four-byte length, then its UTF-8 bytes.
pub open spec fn spec_str_size(text: Seq<char>) -> nat {
    4 + encode_utf8(text).len()
}

/// Whether a string's length fits its four-byte prefix.
pub open spec fn spec_str_fits(text: Seq<char>) -> bool {
    encode_utf8(text).len() <= u32::MAX
}

/// Retained bytes of an optional string: a presence flag, then the string.
pub open spec fn spec_opt_str_size(text: Option<String>) -> nat {
    match text {
        None => 1,
        Some(value) => 1 + spec_str_size(value@),
    }
}

/// Whether an optional string fits.
pub open spec fn spec_opt_str_fits(text: Option<String>) -> bool {
    match text {
        None => true,
        Some(value) => spec_str_fits(value@),
    }
}

/// Adds a fixed number of bytes.
fn add_fixed(counter: &mut RetainedByteCounter, bytes: u64) -> (added: bool)
    ensures
        spec_added(old(counter).bytes, final(counter).bytes, added, true, bytes as nat),
{
    counter.add(bytes)
}

/// Adds a string.
fn add_str(counter: &mut RetainedByteCounter, text: &String) -> (added: bool)
    ensures
        spec_added(old(counter).bytes, final(counter).bytes, added, spec_str_fits(text@), spec_str_size(text@)),
{
    counter.string(text.as_str())
}

/// Adds an optional string.
fn add_opt_str(counter: &mut RetainedByteCounter, text: &Option<String>) -> (added: bool)
    ensures
        spec_added(
            old(counter).bytes,
            final(counter).bytes,
            added,
            spec_opt_str_fits(*text),
            spec_opt_str_size(*text),
        ),
{
    if !counter.add(1) {
        return false;
    }
    match text {
        None => true,
        Some(value) => counter.string(value.as_str()),
    }
}

/// Adds a sequence of fixed-size elements: its four-byte length and `element` bytes each.
fn add_fixed_seq(counter: &mut RetainedByteCounter, len: usize, element: u64) -> (added: bool)
    requires
        element <= 32,
    ensures
        spec_added(
            old(counter).bytes,
            final(counter).bytes,
            added,
            len <= u32::MAX,
            (4 + len * element) as nat,
        ),
{
    if len > 4294967295 {
        return false;
    }
    assert(len * element <= 4294967295 * 32) by (nonlinear_arith)
        requires
            len <= 4294967295,
            element <= 32,
    ;
    let total: u64 = 4 + (len as u64) * element;
    counter.add(total)
}

/// Retained bytes of a position.
pub open spec fn spec_position_size() -> nat {
    8
}

/// Retained bytes of an impact: position, tick and cause tag.
pub open spec fn spec_impact_size() -> nat {
    13
}

/// Retained bytes of a damage breakdown: six amounts, the critical flag, the knockback and
/// the elimination flag.
pub open spec fn spec_breakdown_size() -> nat {
    22
}

/// Retained bytes of a random outcome: its tag and payload.
pub open spec fn spec_random_outcome_size(outcome: RandomOutcome) -> nat {
    match outcome {
        RandomOutcome::ArzumChainStrikeTeleportTarget { target_player_id, .. } => 1 + 4 + 4
            + spec_str_size(target_player_id@) + 8,
        RandomOutcome::AlephVeilstepTeleportPoint { .. } => 1 + 4 + 4 + 4 + 1 + 8 + 8,
    }
}

/// Whether a random outcome fits.
pub open spec fn spec_random_outcome_fits(outcome: RandomOutcome) -> bool {
    match outcome {
        RandomOutcome::ArzumChainStrikeTeleportTarget { target_player_id, .. } => spec_str_fits(
            target_player_id@,
        ),
        RandomOutcome::AlephVeilstepTeleportPoint { .. } => true,
    }
}

fn add_random_outcome(counter: &mut RetainedByteCounter, outcome: &RandomOutcome) -> (added: bool)
    ensures
        spec_added(
            old(counter).bytes,
            final(counter).bytes,
            added,
            spec_random_outcome_fits(*outcome),
            spec_random_outcome_size(*outcome),
        ),
{
    match outcome {
        RandomOutcome::ArzumChainStrikeTeleportTarget { target_player_id, .. } => counter.add(9)
            && counter.string(target_player_id.as_str()) && counter.add(8),
        RandomOutcome::AlephVeilstepTeleportPoint { .. } => counter.add(30),
    }
}

/// Retained bytes of a status transition: a one-byte discriminant and its payload.
pub open spec fn spec_status_transition_size(transition: StatusTransition) -> nat {
    match transition {
        StatusTransition::Applied { .. } => 6,
        StatusTransition::Refreshed { .. } => 11,
        StatusTransition::ChargeConsumed { .. } => 5,
        StatusTransition::Ticked { .. } => 2,
        StatusTransition::Exhausted => 1,
        StatusTransition::Expired => 1,
    }
}

fn status_transition_size(transition: &StatusTransition) -> (size: u64)
    ensures
        size == spec_status_transition_size(*transition),
{
    match transition {
        StatusTransition::Applied { .. } => 6,
        StatusTransition::Refreshed { .. } => 11,
        StatusTransition::ChargeConsumed { .. } => 5,
        StatusTransition::Ticked { .. } => 2,
        StatusTransition::Exhausted => 1,
        StatusTransition::Expired => 1,
    }
}

/// Retained bytes of a persistent object snapshot.
pub open spec fn spec_object_size(object: PersistentObjectSnapshot) -> nat {
    4 + spec_str_size(object.owner_id@) + 1 + 8 + 2 + 1
}

/// Whether a persistent object snapshot fits.
pub open spec fn spec_object_fits(object: PersistentObjectSnapshot) -> bool {
    spec_str_fits(object.owner_id@)
}

fn add_object(counter: &mut RetainedByteCounter, object: &PersistentObjectSnapshot) -> (added: bool)
    ensures
        spec_added(
            old(counter).bytes,
            final(counter).bytes,
            added,
            spec_object_fits(*object),
            spec_object_size(*object),
        ),
{
    counter.add(4) && counter.string(object.owner_id.as_str()) && counter.add(12)
}

/// Retained bytes of a provenance: its tag and the owner and ability where it has them.
pub open spec fn spec_provenance_size(cause: ChangeProvenance) -> nat {
    match cause {
        ChangeProvenance::Strike { owner_id, ability_id, .. } => 1 + spec_str_size(owner_id@)
            + spec_str_size(ability_id@) + 2,
        ChangeProvenance::Backlash { owner_id, ability_id }
        | ChangeProvenance::Splash { owner_id, ability_id }
        | ChangeProvenance::WallImpact { owner_id, ability_id }
        | ChangeProvenance::AbilityEffect { owner_id, ability_id } => 1 + spec_str_size(owner_id@)
            + spec_str_size(ability_id@),
        ChangeProvenance::Hazard | ChangeProvenance::AuthoritativeResolution => 1,
    }
}

/// Whether a provenance fits.
pub open spec fn spec_provenance_fits(cause: ChangeProvenance) -> bool {
    match cause {
        ChangeProvenance::Strike { owner_id, ability_id, .. }
        | ChangeProvenance::Backlash { owner_id, ability_id }
        | ChangeProvenance::Splash { owner_id, ability_id }
        | ChangeProvenance::WallImpact { owner_id, ability_id }
        | ChangeProvenance::AbilityEffect { owner_id, ability_id } => spec_str_fits(owner_id@)
            && spec_str_fits(ability_id@),
        ChangeProvenance::Hazard | ChangeProvenance::AuthoritativeResolution => true,
    }
}

fn add_provenance(counter: &mut RetainedByteCounter, cause: &ChangeProvenance) -> (added: bool)
    ensures
        spec_added(
            old(counter).bytes,
            final(counter).bytes,
            added,
            spec_provenance_fits(*cause),
            spec_provenance_size(*cause),
        ),
{
    match cause {
        ChangeProvenance::Strike { owner_id, ability_id, .. } => counter.add(1) && counter.string(
            owner_id.as_str(),
        ) && counter.string(ability_id.as_str()) && counter.add(2),
        ChangeProvenance::Backlash { owner_id, ability_id }
        | ChangeProvenance::Splash { owner_id, ability_id }
        | ChangeProvenance::WallImpact { owner_id, ability_id }
        | ChangeProvenance::AbilityEffect { owner_id, ability_id } => counter.add(1)
            && counter.string(owner_id.as_str()) && counter.string(ability_id.as_str()),
        ChangeProvenance::Hazard | ChangeProvenance::AuthoritativeResolution => counter.add(1),
    }
}

/// Sum of the retained bytes of the elements.
pub open spec fn spec_strs_size(items: Seq<String>) -> nat
    decreases items.len(),
{
    if items.len() == 0 {
        0
    } else {
        spec_strs_size(items.drop_last()) + spec_str_size(items.last()@)
    }
}

/// Whether every element fits.
pub open spec fn spec_strs_fits(items: Seq<String>) -> bool {
    forall|i: int| 0 <= i < items.len() ==> spec_str_fits(#[trigger] items[i]@)
}

proof fn lemma_strs_prefix(items: Seq<String>, i: int)
    requires
        0 <= i <= items.len(),
    ensures
        spec_strs_size(items.take(i)) <= spec_strs_size(items),
        i < items.len() ==> spec_strs_size(items.take(i + 1)) == spec_strs_size(items.take(i))
            + spec_str_size(items[i]@),
    decreases items.len(),
{
    if i < items.len() {
        assert(items.take(i + 1).drop_last() =~= items.take(i));
    }
    if items.len() > 0 {
        if i == items.len() {
            assert(items.take(i) =~= items);
        } else {
            lemma_strs_prefix(items.drop_last(), i);
            assert(items.drop_last().take(i) =~= items.take(i));
        }
    }
}

/// Adds a sequence: its four-byte length, then each element.
fn add_strs(counter: &mut RetainedByteCounter, items: &Vec<String>) -> (added: bool)
    ensures
        spec_added(
            old(counter).bytes,
            final(counter).bytes,
            added,
            items@.len() <= u32::MAX && spec_strs_fits(items@),
            4 + spec_strs_size(items@),
        ),
{
    if items.len() > 4294967295 {
        return false;
    }
    if !counter.add(4) {
        return false;
    }
    let ghost start = counter.bytes;
    let mut i: usize = 0;
    while i < items.len()
        invariant
            i <= items@.len() <= u32::MAX,
            start == old(counter).bytes + 4,
            counter.bytes == start + spec_strs_size(items@.take(i as int)),
            forall|j: int| 0 <= j < i ==> spec_str_fits(#[trigger] items@[j]@),
        decreases items@.len() - i,
    {
        proof {
            lemma_strs_prefix(items@, i as int);
            lemma_strs_prefix(items@, i as int + 1);
        }
        if !add_str(counter, &items[i]) {
            return false;
        }
        i = i + 1;
    }
    proof {
        assert(items@.take(i as int) =~= items@);
    }
    true
}

/// Sum of the retained bytes of the elements.
pub open spec fn spec_objects_size(items: Seq<PersistentObjectSnapshot>) -> nat
    decreases items.len(),
{
    if items.len() == 0 {
        0
    } else {
        spec_objects_size(items.drop_last()) + spec_object_size(items.last())
    }
}

/// Whether every element fits.
pub open spec fn spec_objects_fits(items: Seq<PersistentObjectSnapshot>) -> bool {
    forall|i: int| 0 <= i < items.len() ==> spec_object_fits(#[trigger] items[i])
}

proof fn lemma_objects_prefix(items: Seq<PersistentObjectSnapshot>, i: int)
    requires
        0 <= i <= items.len(),
    ensures
        spec_objects_size(items.take(i)) <= spec_objects_size(items),
        i < items.len() ==> spec_objects_size(items.take(i + 1)) == spec_objects_size(items.take(i))
            + spec_object_size(items[i]),
    decreases items.len(),
{
    if i < items.len() {
        assert(items.take(i + 1).drop_last() =~= items.take(i));
    }
    if items.len() > 0 {
        if i == items.len() {
            assert(items.take(i) =~= items);
        } else {
            lemma_objects_prefix(items.drop_last(), i);
            assert(items.drop_last().take(i) =~= items.take(i));
        }
    }
}

/// Adds a sequence: its four-byte length, then each element.
fn add_objects(counter: &mut RetainedByteCounter, items: &Vec<PersistentObjectSnapshot>) -> (added: bool)
    ensures
        spec_added(
            old(counter).bytes,
            final(counter).bytes,
            added,
            items@.len() <= u32::MAX && spec_objects_fits(items@),
            4 + spec_objects_size(items@),
        ),
{
    if items.len() > 4294967295 {
        return false;
    }
    if !counter.add(4) {
        return false;
    }
    let ghost start = counter.bytes;
    let mut i: usize = 0;
    while i < items.len()
        invariant
            i <= items@.len() <= u32::MAX,
            start == old(counter).bytes + 4,
            counter.bytes == start + spec_objects_size(items@.take(i as int)),
            forall|j: int| 0 <= j < i ==> spec_object_fits(#[trigger] items@[j]),
        decreases items@.len() - i,
    {
        proof {
            lemma_objects_prefix(items@, i as int);
            lemma_objects_prefix(items@, i as int + 1);
        }
        if !add_object(counter, &items[i]) {
            return false;
        }
        i = i + 1;
    }
    proof {
        assert(items@.take(i as int) =~= items@);
    }
    true
}

/// One presentation event's content.
#[derive(Debug)]
pub enum PresentationEventKind {
    ProjectileTrace(ProjectileTraceEvent),
    Impact { trace_id: u32, impact: ImpactSnapshot },
    StrikeResolved { owner_id: String, ability_id: String, strike: StrikeResolution },
    TerrainChanged { terrain_generation: u32, dirty_rectangles: Vec<CellRectangle> },
    BlockChanged {
        block_id: u32,
        previous_health: Option<u16>,
        new_health: Option<u16>,
        previous_surviving_bounds: Option<CellRectangle>,
        new_surviving_bounds: Option<CellRectangle>,
    },
    HealthChanged {
        player_id: String,
        previous_health: u16,
        new_health: u16,
        breakdown: Option<DamageBreakdown>,
    },
    GaugeChanged { player_id: String, previous_gauge: u16, new_gauge: u16, delta: i32 },
    RandomOutcome { owner_id: String, ability_id: String, outcome: RandomOutcome },
    StatusChanged { player_id: String, kind: ClientStatusKind, transition: StatusTransition },
    EntityMoved {
        player_id: String,
        start: PositionSnapshot,
        end: PositionSnapshot,
        cause: EntityMovementCause,
    },
    ObjectSpawned { object: PersistentObjectSnapshot },
    ObjectChanged { previous: PersistentObjectSnapshot, current: PersistentObjectSnapshot },
    ObjectRemoved { previous: PersistentObjectSnapshot, cause: PersistentObjectRemovalCause },
    PlayerEliminated { player_id: String, cause: ChangeProvenance },
    PassiveChoiceRequired { player_id: String, passive_ids: Vec<String> },
    PassiveChosen { player_id: String, passive_id: String },
    TurnEnded { player_id: String, reason: ClientTurnEndReason },
    TurnOpened { player_id: String, turn_number: u32 },
    MatchCompleted { outcome: ClientMatchOutcome },
}

/// One ordered presentation event.
#[derive(Debug)]
pub struct PresentationEvent {
    /// Relative tick at which the client presents it.
    pub presentation_tick: u32,
    /// Position in the transition's event list.
    pub sequence: u32,
    pub kind: PresentationEventKind,
}

/// Retained bytes of a strike delivery.
pub open spec fn spec_delivery_size(delivery: StrikeDelivery) -> nat {
    match delivery {
        StrikeDelivery::Projectile { .. } => 5,
        StrikeDelivery::Melee => 1,
        StrikeDelivery::Effect { .. } => 2,
    }
}

/// Retained bytes of an optional rectangle.
pub open spec fn spec_opt_rectangle_size(rectangle: Option<CellRectangle>) -> nat {
    match rectangle {
        None => 1,
        Some(_) => 17,
    }
}

/// Retained bytes of an optional amount.
pub open spec fn spec_opt_u16_size(value: Option<u16>) -> nat {
    match value {
        None => 1,
        Some(_) => 3,
    }
}

/// Retained bytes of a match outcome.
pub open spec fn spec_outcome_size(outcome: ClientMatchOutcome) -> nat {
    match outcome {
        ClientMatchOutcome::Victory { .. } => 2,
        _ => 1,
    }
}

/// Retained bytes of an event's content: its one-byte tag and the variant's fields.
pub open spec fn spec_event_kind_size(kind: PresentationEventKind) -> nat {
    1 + match kind {
        PresentationEventKind::ProjectileTrace(trace) => 4 + spec_str_size(trace.owner_id@)
            + spec_str_size(trace.ability_id@) + (4 + trace.samples@.len() * 12) + 13,
        PresentationEventKind::Impact { .. } => 4 + 13,
        PresentationEventKind::StrikeResolved { owner_id, ability_id, strike } => spec_str_size(
            owner_id@,
        ) + spec_str_size(ability_id@) + 2 + spec_str_size(strike.target_player_id@) + 8
            + spec_delivery_size(strike.delivery) + 1 + 2 + 1,
        PresentationEventKind::TerrainChanged { dirty_rectangles, .. } => 4 + (4
            + dirty_rectangles@.len() * 16),
        PresentationEventKind::BlockChanged {
            previous_health,
            new_health,
            previous_surviving_bounds,
            new_surviving_bounds,
            ..
        } => 4 + spec_opt_u16_size(previous_health) + spec_opt_u16_size(new_health)
            + spec_opt_rectangle_size(previous_surviving_bounds) + spec_opt_rectangle_size(
            new_surviving_bounds,
        ),
        PresentationEventKind::HealthChanged { player_id, breakdown, .. } => spec_str_size(
            player_id@,
        ) + 2 + 2 + 1 + if breakdown is Some {
            spec_breakdown_size()
        } else {
            0
        },
        PresentationEventKind::GaugeChanged { player_id, .. } => spec_str_size(player_id@) + 8,
        PresentationEventKind::RandomOutcome { owner_id, ability_id, outcome } => spec_str_size(
            owner_id@,
        ) + spec_str_size(ability_id@) + spec_random_outcome_size(outcome),
        PresentationEventKind::StatusChanged { player_id, transition, .. } => spec_str_size(
            player_id@,
        ) + 1 + spec_status_transition_size(transition),
        PresentationEventKind::EntityMoved { player_id, .. } => spec_str_size(player_id@) + 8 + 8
            + 1,
        PresentationEventKind::ObjectSpawned { object } => spec_object_size(object),
        PresentationEventKind::ObjectChanged { previous, current } => spec_object_size(previous)
            + spec_object_size(current),
        PresentationEventKind::ObjectRemoved { previous, .. } => 1 + spec_object_size(previous),
        PresentationEventKind::PlayerEliminated { player_id, cause } => spec_str_size(player_id@)
            + spec_provenance_size(cause),
        PresentationEventKind::PassiveChoiceRequired { player_id, passive_ids } => spec_str_size(
            player_id@,
        ) + 4 + spec_strs_size(passive_ids@),
        PresentationEventKind::PassiveChosen { player_id, passive_id } => spec_str_size(
            player_id@,
        ) + spec_str_size(passive_id@),
        PresentationEventKind::TurnEnded { player_id, .. } => spec_str_size(player_id@) + 1,
        PresentationEventKind::TurnOpened { player_id, .. } => spec_str_size(player_id@) + 4,
        PresentationEventKind::MatchCompleted { outcome } => spec_outcome_size(outcome),
    }
}

/// Whether every string and sequence of an event's content fits its length prefix.
pub open spec fn spec_event_kind_fits(kind: PresentationEventKind) -> bool {
    match kind {
        PresentationEventKind::ProjectileTrace(trace) => spec_str_fits(trace.owner_id@)
            && spec_str_fits(trace.ability_id@) && trace.samples@.len() <= u32::MAX,
        PresentationEventKind::Impact { .. } => true,
        PresentationEventKind::StrikeResolved { owner_id, ability_id, strike } => spec_str_fits(
            owner_id@,
        ) && spec_str_fits(ability_id@) && spec_str_fits(strike.target_player_id@),
        PresentationEventKind::TerrainChanged { dirty_rectangles, .. } => dirty_rectangles@.len()
            <= u32::MAX,
        PresentationEventKind::BlockChanged { .. } => true,
        PresentationEventKind::HealthChanged { player_id, .. } => spec_str_fits(player_id@),
        PresentationEventKind::GaugeChanged { player_id, .. } => spec_str_fits(player_id@),
        PresentationEventKind::RandomOutcome { owner_id, ability_id, outcome } => spec_str_fits(
            owner_id@,
        ) && spec_str_fits(ability_id@) && spec_random_outcome_fits(outcome),
        PresentationEventKind::StatusChanged { player_id, .. } => spec_str_fits(player_id@),
        PresentationEventKind::EntityMoved { player_id, .. } => spec_str_fits(player_id@),
        PresentationEventKind::ObjectSpawned { object } => spec_object_fits(object),
        PresentationEventKind::ObjectChanged { previous, current } => spec_object_fits(previous)
            && spec_object_fits(current),
        PresentationEventKind::ObjectRemoved { previous, .. } => spec_object_fits(previous),
        PresentationEventKind::PlayerEliminated { player_id, cause } => spec_str_fits(player_id@)
            && spec_provenance_fits(cause),
        PresentationEventKind::PassiveChoiceRequired { player_id, passive_ids } => spec_str_fits(
            player_id@,
        ) && passive_ids@.len() <= u32::MAX && spec_strs_fits(passive_ids@),
        PresentationEventKind::PassiveChosen { player_id, passive_id } => spec_str_fits(player_id@)
            && spec_str_fits(passive_id@),
        PresentationEventKind::TurnEnded { player_id, .. } => spec_str_fits(player_id@),
        PresentationEventKind::TurnOpened { player_id, .. } => spec_str_fits(player_id@),
        PresentationEventKind::MatchCompleted { .. } => true,
    }
}

fn add_event_kind(counter: &mut RetainedByteCounter, kind: &PresentationEventKind) -> (added: bool)
    ensures
        spec_added(
            old(counter).bytes,
            final(counter).bytes,
            added,
            spec_event_kind_fits(*kind),
            spec_event_kind_size(*kind),
        ),
{
    if !counter.add(1) {
        return false;
    }
    match kind {
        PresentationEventKind::ProjectileTrace(trace) => counter.add(4) && counter.string(
            trace.owner_id.as_str(),
        ) && counter.string(trace.ability_id.as_str()) && add_fixed_seq(
            counter,
            trace.samples.len(),
            12,
        ) && counter.add(13),
        PresentationEventKind::Impact { .. } => counter.add(17),
        PresentationEventKind::StrikeResolved { owner_id, ability_id, strike } => {
            let delivery: u64 = match strike.delivery {
                StrikeDelivery::Projectile { .. } => 5,
                StrikeDelivery::Melee => 1,
                StrikeDelivery::Effect { .. } => 2,
            };
            counter.string(owner_id.as_str()) && counter.string(ability_id.as_str())
                && counter.add(2) && counter.string(strike.target_player_id.as_str())
                && counter.add(8) && counter.add(delivery) && counter.add(4)
        },
        PresentationEventKind::TerrainChanged { dirty_rectangles, .. } => counter.add(4)
            && add_fixed_seq(counter, dirty_rectangles.len(), 16),
        PresentationEventKind::BlockChanged {
            previous_health,
            new_health,
            previous_surviving_bounds,
            new_surviving_bounds,
            ..
        } => {
            let a: u64 = if previous_health.is_some() {
                3
            } else {
                1
            };
            let b: u64 = if new_health.is_some() {
                3
            } else {
                1
            };
            let c: u64 = if previous_surviving_bounds.is_some() {
                17
            } else {
                1
            };
            let d: u64 = if new_surviving_bounds.is_some() {
                17
            } else {
                1
            };
            counter.add(4) && counter.add(a) && counter.add(b) && counter.add(c) && counter.add(d)
        },
        PresentationEventKind::HealthChanged { player_id, breakdown, .. } => {
            let extra: u64 = if breakdown.is_some() {
                22
            } else {
                0
            };
            counter.string(player_id.as_str()) && counter.add(5) && counter.add(extra)
        },
        PresentationEventKind::GaugeChanged { player_id, .. } => counter.string(player_id.as_str())
            && counter.add(8),
        PresentationEventKind::RandomOutcome { owner_id, ability_id, outcome } => counter.string(
            owner_id.as_str(),
        ) && counter.string(ability_id.as_str()) && add_random_outcome(counter, outcome),
        PresentationEventKind::StatusChanged { player_id, transition, .. } => {
            let size = status_transition_size(transition);
            counter.string(player_id.as_str()) && counter.add(1) && counter.add(size)
        },
        PresentationEventKind::EntityMoved { player_id, .. } => counter.string(player_id.as_str())
            && counter.add(17),
        PresentationEventKind::ObjectSpawned { object } => add_object(counter, object),
        PresentationEventKind::ObjectChanged { previous, current } => add_object(counter, previous)
            && add_object(counter, current),
        PresentationEventKind::ObjectRemoved { previous, .. } => counter.add(1) && add_object(
            counter,
            previous,
        ),
        PresentationEventKind::PlayerEliminated { player_id, cause } => counter.string(
            player_id.as_str(),
        ) && add_provenance(counter, cause),
        PresentationEventKind::PassiveChoiceRequired { player_id, passive_ids } => counter.string(
            player_id.as_str(),
        ) && add_strs(counter, passive_ids),
        PresentationEventKind::PassiveChosen { player_id, passive_id } => counter.string(
            player_id.as_str(),
        ) && counter.string(passive_id.as_str()),
        PresentationEventKind::TurnEnded { player_id, .. } => counter.string(player_id.as_str())
            && counter.add(1),
        PresentationEventKind::TurnOpened { player_id, .. } => counter.string(player_id.as_str())
            && counter.add(4),
        PresentationEventKind::MatchCompleted { outcome } => {
            let size: u64 = match outcome {
                ClientMatchOutcome::Victory { .. } => 2,
                _ => 1,
            };
            counter.add(size)
        },
    }
}

/// Retained bytes of an event: its tick, its sequence and its content.
pub open spec fn spec_event_size(event: PresentationEvent) -> nat {
    8 + spec_event_kind_size(event.kind)
}

/// Whether an event fits.
pub open spec fn spec_event_fits(event: PresentationEvent) -> bool {
    spec_event_kind_fits(event.kind)
}

fn add_event(counter: &mut RetainedByteCounter, event: &PresentationEvent) -> (added: bool)
    ensures
        spec_added(
            old(counter).bytes,
            final(counter).bytes,
            added,
            spec_event_fits(*event),
            spec_event_size(*event),
        ),
{
    counter.add(8) && add_event_kind(counter, &event.kind)
}

/// Sum of the retained bytes of the elements.
pub open spec fn spec_events_size(items: Seq<PresentationEvent>) -> nat
    decreases items.len(),
{
    if items.len() == 0 {
        0
    } else {
        spec_events_size(items.drop_last()) + spec_event_size(items.last())
    }
}

/// Whether every element fits.
pub open spec fn spec_events_fits(items: Seq<PresentationEvent>) -> bool {
    forall|i: int| 0 <= i < items.len() ==> spec_event_fits(#[trigger] items[i])
}

proof fn lemma_events_prefix(items: Seq<PresentationEvent>, i: int)
    requires
        0 <= i <= items.len(),
    ensures
        spec_events_size(items.take(i)) <= spec_events_size(items),
        i < items.len() ==> spec_events_size(items.take(i + 1)) == spec_events_size(items.take(i))
            + spec_event_size(items[i]),
    decreases items.len(),
{
    if i < items.len() {
        assert(items.take(i + 1).drop_last() =~= items.take(i));
    }
    if items.len() > 0 {
        if i == items.len() {
            assert(items.take(i) =~= items);
        } else {
            lemma_events_prefix(items.drop_last(), i);
            assert(items.drop_last().take(i) =~= items.take(i));
        }
    }
}

/// Adds a sequence: its four-byte length, then each element.
fn add_events(counter: &mut RetainedByteCounter, items: &Vec<PresentationEvent>) -> (added: bool)
    ensures
        spec_added(
            old(counter).bytes,
            final(counter).bytes,
            added,
            items@.len() <= u32::MAX && spec_events_fits(items@),
            4 + spec_events_size(items@),
        ),
{
    if items.len() > 4294967295 {
        return false;
    }
    if !counter.add(4) {
        return false;
    }
    let ghost start = counter.bytes;
    let mut i: usize = 0;
    while i < items.len()
        invariant
            i <= items@.len() <= u32::MAX,
            start == old(counter).bytes + 4,
            counter.bytes == start + spec_events_size(items@.take(i as int)),
            forall|j: int| 0 <= j < i ==> spec_event_fits(#[trigger] items@[j]),
        decreases items@.len() - i,
    {
        proof {
            lemma_events_prefix(items@, i as int);
            lemma_events_prefix(items@, i as int + 1);
        }
        if !add_event(counter, &items[i]) {
            return false;
        }
        i = i + 1;
    }
    proof {
        assert(items@.take(i as int) =~= items@);
    }
    true
}

/// The client's match phase.
#[derive(Debug, Clone, Copy, PartialEq, Eq, Structural)]
pub enum ClientMatchPhase {
    MatchIntro,
    TurnStart,
    Movement,
    AimingAndSelection,
    PassiveSelection,
    CommandLocked,
    Resolution,
    Settling,
    StatusResolution,
    VictoryCheck,
    MatchComplete,
}

/// A terrain material as presented.
#[derive(Debug, Clone, Copy, PartialEq, Eq, Structural)]
pub enum ClientMaterial {
    Empty,
    Soil,
    Wood,
    ReinforcedStone,
}

/// The axis along which a block erodes.
#[derive(Debug, Clone, Copy, PartialEq, Eq, Structural)]
pub enum ClientErosionAxis {
    Columns,
    Rows,
}

/// A destructible block as presented.
#[derive(Debug, Clone, Copy, PartialEq, Eq, Structural)]
pub struct BlockSnapshot {
    pub id: u32,
    pub origin_cell_x: i32,
    pub origin_cell_y: i32,
    pub width_cells: u16,
    pub height_cells: u16,
    pub material: ClientMaterial,
    pub health: u16,
    pub max_health: u16,
    pub erosion_axis: ClientErosionAxis,
}

/// A status as presented.
#[derive(Debug, Clone, Copy, PartialEq, Eq, Structural)]
pub struct StatusSnapshot {
    pub kind: ClientStatusKind,
    pub magnitude: i32,
    pub turns_remaining: u8,
}

/// A player's cosmetic selection.
#[derive(Debug)]
pub struct AppearanceSnapshot {
    pub skin_id: String,
    pub ability_skin_ids: Vec<String>,
    pub victory_pose_id: String,
}

/// A player as presented.
#[derive(Debug)]
pub struct PlayerSnapshot {
    pub id: String,
    pub team: u8,
    pub health: u16,
    pub is_eliminated: bool,
    pub max_health: u16,
    pub position: PositionSnapshot,
    pub character_id: String,
    pub passive_id: Option<String>,
    pub special_gauge: u16,
    pub has_chosen_passive: bool,
    pub statuses: Vec<StatusSnapshot>,
    pub appearance: AppearanceSnapshot,
}

/// Retained bytes of a player: identity, vitals, position, character, passive, gauge, the
/// status list (six bytes each) and the appearance.
pub open spec fn spec_player_size(player: PlayerSnapshot) -> nat {
    spec_str_size(player.id@) + 1 + 2 + 1 + 2 + 8 + spec_str_size(player.character_id@)
        + spec_opt_str_size(player.passive_id) + 2 + 1 + (4 + player.statuses@.len() * 6)
        + spec_str_size(player.appearance.skin_id@) + 4 + spec_strs_size(
        player.appearance.ability_skin_ids@,
    ) + spec_str_size(player.appearance.victory_pose_id@)
}

/// Whether a player snapshot fits.
pub open spec fn spec_player_fits(player: PlayerSnapshot) -> bool {
    &&& spec_str_fits(player.id@)
    &&& spec_str_fits(player.character_id@)
    &&& spec_opt_str_fits(player.passive_id)
    &&& player.statuses@.len() <= u32::MAX
    &&& spec_str_fits(player.appearance.skin_id@)
    &&& player.appearance.ability_skin_ids@.len() <= u32::MAX
    &&& spec_strs_fits(player.appearance.ability_skin_ids@)
    &&& spec_str_fits(player.appearance.victory_pose_id@)
}

fn add_player(counter: &mut RetainedByteCounter, player: &PlayerSnapshot) -> (added: bool)
    ensures
        spec_added(
            old(counter).bytes,
            final(counter).bytes,
            added,
            spec_player_fits(*player),
            spec_player_size(*player),
        ),
{
    counter.string(player.id.as_str()) && counter.add(14) && counter.string(
        player.character_id.as_str(),
    ) && add_opt_str(counter, &player.passive_id) && counter.add(3) && add_fixed_seq(
        counter,
        player.statuses.len(),
        6,
    ) && counter.string(player.appearance.skin_id.as_str()) && add_strs(
        counter,
        &player.appearance.ability_skin_ids,
    ) && counter.string(player.appearance.victory_pose_id.as_str())
}

/// Sum of the retained bytes of the elements.
pub open spec fn spec_players_size(items: Seq<PlayerSnapshot>) -> nat
    decreases items.len(),
{
    if items.len() == 0 {
        0
    } else {
        spec_players_size(items.drop_last()) + spec_player_size(items.last())
    }
}

/// Whether every element fits.
pub open spec fn spec_players_fits(items: Seq<PlayerSnapshot>) -> bool {
    forall|i: int| 0 <= i < items.len() ==> spec_player_fits(#[trigger] items[i])
}

proof fn lemma_players_prefix(items: Seq<PlayerSnapshot>, i: int)
    requires
        0 <= i <= items.len(),
    ensures
        spec_players_size(items.take(i)) <= spec_players_size(items),
        i < items.len() ==> spec_players_size(items.take(i + 1)) == spec_players_size(items.take(i))
            + spec_player_size(items[i]),
    decreases items.len(),
{
    if i < items.len() {
        assert(items.take(i + 1).drop_last() =~= items.take(i));
    }
    if items.len() > 0 {
        if i == items.len() {
            assert(items.take(i) =~= items);
        } else {
            lemma_players_prefix(items.drop_last(), i);
            assert(items.drop_last().take(i) =~= items.take(i));
        }
    }
}

/// Adds a sequence: its four-byte length, then each element.
fn add_players(counter: &mut RetainedByteCounter, items: &Vec<PlayerSnapshot>) -> (added: bool)
    ensures
        spec_added(
            old(counter).bytes,
            final(counter).bytes,
            added,
            items@.len() <= u32::MAX && spec_players_fits(items@),
            4 + spec_players_size(items@),
        ),
{
    if items.len() > 4294967295 {
        return false;
    }
    if !counter.add(4) {
        return false;
    }
    let ghost start = counter.bytes;
    let mut i: usize = 0;
    while i < items.len()
        invariant
            i <= items@.len() <= u32::MAX,
            start == old(counter).bytes + 4,
            counter.bytes == start + spec_players_size(items@.take(i as int)),
            forall|j: int| 0 <= j < i ==> spec_player_fits(#[trigger] items@[j]),
        decreases items@.len() - i,
    {
        proof {
            lemma_players_prefix(items@, i as int);
            lemma_players_prefix(items@, i as int + 1);
        }
        if !add_player(counter, &items[i]) {
            return false;
        }
        i = i + 1;
    }
    proof {
        assert(items@.take(i as int) =~= items@);
    }
    true
}

/// The authoritative projection a client repaints from.
#[derive(Debug)]
pub struct MatchSnapshot {
    pub client_contract_version: u32,
    pub simulation_version: u32,
    pub content_version: u32,
    pub generation: u64,
    pub tick: u64,
    pub turn_number: u32,
    pub phase: ClientMatchPhase,
    pub active_player_id: Option<String>,
    pub current_and_upcoming_player_ids: Vec<String>,
    pub wind_per_tick: i32,
    pub movement_remaining: i32,
    pub has_attacked_this_turn: bool,
    pub outcome: ClientMatchOutcome,
    pub terrain_width: u32,
    pub terrain_height: u32,
    pub terrain_generation: u32,
    pub blocks: Vec<BlockSnapshot>,
    pub players: Vec<PlayerSnapshot>,
    pub persistent_objects: Vec<PersistentObjectSnapshot>,
    pub authoritative_state_hash: String,
}

/// Retained bytes of a snapshot: versions, generation, tick and turn, the phase, the active
/// player and turn order, wind and allowance, the outcome, terrain size and generation, the
/// blocks (22 bytes each), players and objects, and the state hash.
pub open spec fn spec_snapshot_size(snapshot: MatchSnapshot) -> nat {
    4 + 4 + 4 + 8 + 8 + 4 + 1 + spec_opt_str_size(snapshot.active_player_id) + 4 + spec_strs_size(
        snapshot.current_and_upcoming_player_ids@,
    ) + 4 + 4 + 1 + spec_outcome_size(snapshot.outcome) + 12 + (4 + snapshot.blocks@.len() * 22)
        + 4 + spec_players_size(snapshot.players@) + 4 + spec_objects_size(
        snapshot.persistent_objects@,
    ) + spec_str_size(snapshot.authoritative_state_hash@)
}

/// Whether a snapshot fits.
pub open spec fn spec_snapshot_fits(snapshot: MatchSnapshot) -> bool {
    &&& spec_opt_str_fits(snapshot.active_player_id)
    &&& snapshot.current_and_upcoming_player_ids@.len() <= u32::MAX
    &&& spec_strs_fits(snapshot.current_and_upcoming_player_ids@)
    &&& snapshot.blocks@.len() <= u32::MAX
    &&& snapshot.players@.len() <= u32::MAX
    &&& spec_players_fits(snapshot.players@)
    &&& snapshot.persistent_objects@.len() <= u32::MAX
    &&& spec_objects_fits(snapshot.persistent_objects@)
    &&& spec_str_fits(snapshot.authoritative_state_hash@)
}

fn add_snapshot(counter: &mut RetainedByteCounter, snapshot: &MatchSnapshot) -> (added: bool)
    ensures
        spec_added(
            old(counter).bytes,
            final(counter).bytes,
            added,
            spec_snapshot_fits(*snapshot),
            spec_snapshot_size(*snapshot),
        ),
{
    let outcome: u64 = match snapshot.outcome {
        ClientMatchOutcome::Victory { .. } => 2,
        _ => 1,
    };
    counter.add(33) && add_opt_str(counter, &snapshot.active_player_id) && add_strs(
        counter,
        &snapshot.current_and_upcoming_player_ids,
    ) && counter.add(9) && counter.add(outcome) && counter.add(12) && add_fixed_seq(
        counter,
        snapshot.blocks.len(),
        22,
    ) && add_players(counter, &snapshot.players) && add_objects(
        counter,
        &snapshot.persistent_objects,
    ) && counter.string(snapshot.authoritative_state_hash.as_str())
}

/// The presentation part of a transition: the ordered events and the post snapshot.
#[derive(Debug)]
pub struct Presentation {
    pub events: Vec<PresentationEvent>,
    pub post_snapshot: MatchSnapshot,
}

/// The retained-byte measure of a presentation: the event list (a four-byte length, then
/// each event) and the post snapshot. `None` when a string or list is too long for its
/// length prefix or the total does not fit in `u64`.
#[verifier::opaque]
pub open spec fn spec_presentation_bytes(presentation: Presentation) -> Option<u64> {
    let total = 4 + spec_events_size(presentation.events@) + spec_snapshot_size(
        presentation.post_snapshot,
    );
    if presentation.events@.len() <= u32::MAX && spec_events_fits(presentation.events@)
        && spec_snapshot_fits(presentation.post_snapshot) && total <= u64::MAX {
        Some(total as u64)
    } else {
        None
    }
}

/// The retained logical bytes of a presentation (see [`spec_presentation_bytes`]).
pub fn retained_presentation_bytes(presentation: &Presentation) -> (bytes: Option<u64>)
    ensures
        bytes == spec_presentation_bytes(*presentation),
{
    proof {
        reveal(spec_presentation_bytes);
    }
    let mut counter = RetainedByteCounter { bytes: 0 };
    if add_events(&mut counter, &presentation.events) && add_snapshot(
        &mut counter,
        &presentation.post_snapshot,
    ) {
        Some(counter.bytes)
    } else {
        None
    }
}

// ---------------------------------------------------------------------------------------
// Event ordering
// ---------------------------------------------------------------------------------------

/// An event awaiting its place in the transition: its presentation tick, the rank of its
/// kind among events of one tick, and the order it was derived in.
#[derive(Debug)]
pub struct PendingEvent {
    pub presentation_tick: u32,
    pub rank: u8,
    pub insertion_order: u32,
    pub kind: PresentationEventKind,
}

/// Whether `a` is presented before `b`: by tick, then rank, then derivation order.
pub open spec fn spec_presented_before(a: PendingEvent, b: PendingEvent) -> bool {
    ||| a.presentation_tick < b.presentation_tick
    ||| a.presentation_tick == b.presentation_tick && a.rank < b.rank
    ||| a.presentation_tick == b.presentation_tick && a.rank == b.rank && a.insertion_order
        < b.insertion_order
}

fn presented_before(a: &PendingEvent, b: &PendingEvent) -> (before: bool)
    ensures
        before == spec_presented_before(*a, *b),
{
    a.presentation_tick < b.presentation_tick || (a.presentation_tick == b.presentation_tick
        && a.rank < b.rank) || (a.presentation_tick == b.presentation_tick && a.rank == b.rank
        && a.insertion_order < b.insertion_order)
}

/// The events of one transition as they are derived, each numbered by derivation order.
pub struct PendingEvents {
    events: Vec<PendingEvent>,
}

impl View for PendingEvents {
    type V = Seq<PendingEvent>;

    closed spec fn view(&self) -> Seq<PendingEvent> {
        self.events@
    }
}

/// Whether every pending event carries its position as its derivation order.
pub open spec fn spec_pending_numbered(events: Seq<PendingEvent>) -> bool {
    forall|i: int| 0 <= i < events.len() ==> (#[trigger] events[i]).insertion_order == i
}

/// Whether `src` numbers distinct positions below `n`.
pub open spec fn spec_distinct_below(src: Seq<int>, n: int) -> bool {
    &&& forall|i: int| 0 <= i < src.len() ==> 0 <= #[trigger] src[i] < n
    &&& forall|i: int, j: int| 0 <= i < j < src.len() ==> (#[trigger] src[i]) != (#[trigger] src[j])
}

/// Whether `events` is `pending` in presentation order, numbered: each event is the pending
/// event at `src[i]` (same tick and content) with sequence `i`, `src` is a permutation of the
/// pending positions, and the sources are strictly in presentation order.
pub open spec fn spec_ordered_from(
    events: Seq<PresentationEvent>,
    pending: Seq<PendingEvent>,
    src: Seq<int>,
) -> bool {
    &&& events.len() == pending.len() == src.len()
    &&& spec_distinct_below(src, pending.len() as int)
    &&& forall|i: int|
        0 <= i < events.len() ==> (#[trigger] events[i]).sequence == i && events[i].presentation_tick
            == pending[src[i]].presentation_tick && events[i].kind == pending[src[i]].kind
    &&& forall|i: int, j: int|
        0 <= i < j < events.len() ==> spec_presented_before(
            pending[#[trigger] src[i]],
            pending[#[trigger] src[j]],
        )
}

impl PendingEvents {
    /// No events yet.
    pub fn new() -> (pending: PendingEvents)
        ensures
            pending@ == Seq::<PendingEvent>::empty(),
            pending.wf(),
    {
        PendingEvents { events: Vec::new() }
    }

    /// Number of events derived so far.
    pub fn len(&self) -> (n: usize)
        ensures
            n == self@.len(),
    {
        self.events.len()
    }

    /// A well-formed list numbers at most one event per `u32` value.
    pub proof fn lemma_len_fits(&self)
        requires
            self.wf(),
        ensures
            self@.len() <= u32::MAX + 1,
    {
    }

    /// Whether the derivation orders are positions.
    pub closed spec fn wf(self) -> bool {
        &&& spec_pending_numbered(self.events@)
        &&& self.events@.len() <= u32::MAX + 1
    }

    /// Derives one more event at `presentation_tick` with `rank`. Refused as a contract
    /// fault once the derivation order no longer fits in `u32`.
    pub fn push(&mut self, presentation_tick: u32, rank: u8, kind: PresentationEventKind) -> (result:
        Result<(), SessionFault>)
        requires
            old(self).wf(),
        ensures
            final(self).wf(),
            old(self)@.len() <= u32::MAX ==> result is Ok && final(self)@ == old(self)@.push(
                PendingEvent {
                    presentation_tick,
                    rank,
                    insertion_order: old(self)@.len() as u32,
                    kind,
                },
            ),
            old(self)@.len() > u32::MAX ==> result == Err::<(), SessionFault>(
                SessionFault::ContractInvariant,
            ) && final(self)@ == old(self)@,
    {
        let len = self.events.len();
        if len > 4294967295 {
            return Err(SessionFault::ContractInvariant);
        }
        self.events.push(PendingEvent { presentation_tick, rank, insertion_order: len as u32, kind });
        Ok(())
    }

    /// The derived events in presentation order (by tick, then rank, then derivation
    /// order), each numbered by its position (see [`spec_ordered_from`]).
    pub fn into_events(self) -> (events: Vec<PresentationEvent>)
        requires
            self.wf(),
        ensures
            exists|src: Seq<int>| spec_ordered_from(events@, self@, src),
    {
        let ghost pending = self.events@;
        let n = self.events.len();
        let mut remaining = self.events;
        let ghost mut rem_src: Seq<int> = Seq::new(n as nat, |i: int| i);
        let ghost mut out_src: Seq<int> = Seq::empty();
        let mut out: Vec<PresentationEvent> = Vec::new();
        while remaining.len() > 0
            invariant
                n == pending.len(),
                n <= u32::MAX + 1,
                spec_pending_numbered(pending),
                remaining@.len() == rem_src.len(),
                out@.len() == out_src.len(),
                out@.len() + remaining@.len() == n,
                forall|k: int| 0 <= k < remaining@.len() ==> (#[trigger] remaining@[k]) == pending[rem_src[k]],
                spec_distinct_below(out_src, n as int),
                spec_distinct_below(rem_src, n as int),
                forall|i: int, k: int|
                    0 <= i < out_src.len() && 0 <= k < rem_src.len() ==> (#[trigger] out_src[i])
                        != (#[trigger] rem_src[k]),
                forall|i: int|
                    0 <= i < out@.len() ==> (#[trigger] out@[i]).sequence == i
                        && out@[i].presentation_tick == pending[out_src[i]].presentation_tick
                        && out@[i].kind == pending[out_src[i]].kind,
                forall|i: int, j: int|
                    0 <= i < j < out@.len() ==> spec_presented_before(
                        pending[#[trigger] out_src[i]],
                        pending[#[trigger] out_src[j]],
                    ),
                forall|i: int, k: int|
                    0 <= i < out@.len() && 0 <= k < remaining@.len() ==> spec_presented_before(
                        pending[#[trigger] out_src[i]],
                        #[trigger] remaining@[k],
                    ),
            decreases remaining@.len(),
        {
            proof {
                assert forall|a: int, b: int|
                    0 <= a < b < remaining@.len() implies (#[trigger] remaining@[a]).insertion_order
                    != (#[trigger] remaining@[b]).insertion_order by {
                    assert(remaining@[a] == pending[rem_src[a]]);
                    assert(remaining@[b] == pending[rem_src[b]]);
                    assert(rem_src[a] != rem_src[b]);
                }
            }
            let mut m: usize = 0;
            let mut k: usize = 1;
            while k < remaining.len()
                invariant
                    0 <= m < k <= remaining@.len(),
                    forall|j: int|
                        0 <= j < k && j != m ==> spec_presented_before(
                            remaining@[m as int],
                            #[trigger] remaining@[j],
                        ),
                    forall|a: int, b: int|
                        0 <= a < b < remaining@.len() ==> (#[trigger] remaining@[a]).insertion_order
                            != (#[trigger] remaining@[b]).insertion_order,
                decreases remaining@.len() - k,
            {
                if presented_before(&remaining[k], &remaining[m]) {
                    m = k;
                }
                k = k + 1;
            }
            let event = remaining.remove(m);
            let sequence = out.len() as u32;
            out.push(PresentationEvent { presentation_tick: event.presentation_tick, sequence, kind: event.kind });
            proof {
                let x = rem_src[m as int];
                let old_rem = rem_src;
                out_src = out_src.push(x);
                rem_src = rem_src.remove(m as int);
                assert forall|k: int| 0 <= k < rem_src.len() implies rem_src[k] == old_rem[if k < m {
                    k
                } else {
                    k + 1
                }] by {}
                assert forall|a: int, b: int| 0 <= a < b < rem_src.len() implies (#[trigger] rem_src[a])
                    != (#[trigger] rem_src[b]) by {
                    let a2 = if a < m { a } else { a + 1 };
                    let b2 = if b < m { b } else { b + 1 };
                    assert(old_rem[a2] != old_rem[b2]);
                }
                assert forall|i: int, k: int|
                    0 <= i < out_src.len() && 0 <= k < rem_src.len() implies (#[trigger] out_src[i])
                    != (#[trigger] rem_src[k]) by {
                    let k2 = if k < m { k } else { k + 1 };
                    if i < out_src.len() - 1 {
                        assert(out_src[i] != old_rem[k2]);
                    } else {
                        assert(old_rem[m as int] != old_rem[k2]);
                    }
                }
            }
        }
        proof {
            assert(pending == self@);
            assert(spec_ordered_from(out@, self@, out_src));
        }
        out
    }
}


// ---------------------------------------------------------------------------------------
// Events of an ability's own records
// ---------------------------------------------------------------------------------------

/// Why a simulated projectile stopped.
#[derive(Debug, Clone, Copy, PartialEq, Eq, Structural)]
pub enum ImpactCause {
    Terrain,
    Character,
    OutOfBounds,
    Expired,
}

/// One sample of a simulated flight.
#[derive(Debug, Clone, Copy, PartialEq, Eq, Structural)]
pub struct BallisticSample {
    pub tick: u32,
    pub position: FixedPoint,
}

/// Where, when and why a simulated flight ended.
#[derive(Debug, Clone, Copy, PartialEq, Eq, Structural)]
pub struct BallisticImpact {
    pub position: FixedPoint,
    pub tick: u32,
    pub cause: ImpactCause,
}

/// A projectile's recorded flight: its sequence number, its samples and its impact.
#[derive(Debug)]
pub struct ProjectileTrace {
    pub sequence: u32,
    pub samples: Vec<BallisticSample>,
    pub impact: BallisticImpact,
}

/// A position as the client sees it.
pub open spec fn spec_snapshot_position(position: FixedPoint) -> PositionSnapshot {
    PositionSnapshot { x: position.x, y: position.y }
}

/// A flight sample as the client sees it.
pub open spec fn spec_snapshot_sample(sample: BallisticSample) -> ProjectileSampleSnapshot {
    ProjectileSampleSnapshot { tick: sample.tick, position: spec_snapshot_position(sample.position) }
}

/// An impact as the client sees it, cause for cause.
pub open spec fn spec_snapshot_impact(impact: BallisticImpact) -> ImpactSnapshot {
    ImpactSnapshot {
        position: spec_snapshot_position(impact.position),
        tick: impact.tick,
        cause: match impact.cause {
            ImpactCause::Terrain => ClientImpactCause::Terrain,
            ImpactCause::Character => ClientImpactCause::Character,
            ImpactCause::OutOfBounds => ClientImpactCause::OutOfBounds,
            ImpactCause::Expired => ClientImpactCause::Expired,
        },
    }
}

fn snapshot_position(position: FixedPoint) -> (snapshot: PositionSnapshot)
    ensures
        snapshot == spec_snapshot_position(position),
{
    PositionSnapshot { x: position.x, y: position.y }
}

fn snapshot_impact(impact: BallisticImpact) -> (snapshot: ImpactSnapshot)
    ensures
        snapshot == spec_snapshot_impact(impact),
{
    ImpactSnapshot {
        position: snapshot_position(impact.position),
        tick: impact.tick,
        cause: match impact.cause {
            ImpactCause::Terrain => ClientImpactCause::Terrain,
            ImpactCause::Character => ClientImpactCause::Character,
            ImpactCause::OutOfBounds => ClientImpactCause::OutOfBounds,
            ImpactCause::Expired => ClientImpactCause::Expired,
        },
    }
}

fn snapshot_samples(samples: &Vec<BallisticSample>) -> (snapshots: Vec<ProjectileSampleSnapshot>)
    ensures
        snapshots@ == samples@.map_values(|sample: BallisticSample| spec_snapshot_sample(sample)),
{
    let mut snapshots: Vec<ProjectileSampleSnapshot> = Vec::new();
    let mut i: usize = 0;
    while i < samples.len()
        invariant
            i <= samples@.len(),
            snapshots@ == samples@.take(i as int).map_values(
                |sample: BallisticSample| spec_snapshot_sample(sample),
            ),
        decreases samples@.len() - i,
    {
        let sample = samples[i];
        snapshots.push(ProjectileSampleSnapshot { tick: sample.tick, position: snapshot_position(sample.position) });
        proof {
            assert(samples@.take(i + 1) =~= samples@.take(i as int).push(sample));
        }
        i = i + 1;
        assert(snapshots@ =~= samples@.take(i as int).map_values(
            |sample: BallisticSample| spec_snapshot_sample(sample),
        ));
    }
    assert(samples@.take(i as int) =~= samples@);
    snapshots
}

fn copy_strike(strike: &StrikeResolution) -> (copy: StrikeResolution)
    ensures
        copy == *strike,
{
    StrikeResolution {
        strike_index: strike.strike_index,
        target_player_id: strike.target_player_id.clone(),
        impact_point: strike.impact_point,
        delivery: strike.delivery,
        crit: strike.crit,
        damage_applied: strike.damage_applied,
        eliminated_target: strike.eliminated_target,
    }
}

fn copy_random_outcome(outcome: &RandomOutcome) -> (copy: RandomOutcome)
    ensures
        copy == *outcome,
{
    match outcome {
        RandomOutcome::ArzumChainStrikeTeleportTarget {
            candidate_count,
            selected_index,
            target_player_id,
            destination,
        } => RandomOutcome::ArzumChainStrikeTeleportTarget {
            candidate_count: *candidate_count,
            selected_index: *selected_index,
            target_player_id: target_player_id.clone(),
            destination: *destination,
        },
        RandomOutcome::AlephVeilstepTeleportPoint {
            axis_bound,
            x_result,
            y_result,
            fallback_used,
            drawn_point,
            destination,
        } => RandomOutcome::AlephVeilstepTeleportPoint {
            axis_bound: *axis_bound,
            x_result: *x_result,
            y_result: *y_result,
            fallback_used: *fallback_used,
            drawn_point: *drawn_point,
            destination: *destination,
        },
    }
}

/// Whether a flight's samples never go back in time.
pub open spec fn spec_samples_ordered(samples: Seq<BallisticSample>) -> bool {
    forall|i: int, j: int| 0 <= i < j < samples.len() ==> (#[trigger] samples[i]).tick <= (#[trigger] samples[j]).tick
}

/// Whether no two traces share a sequence number.
pub open spec fn spec_trace_ids_distinct(traces: Seq<ProjectileTrace>) -> bool {
    forall|i: int, j: int|
        0 <= i < j < traces.len() ==> (#[trigger] traces[i]).sequence != (#[trigger] traces[j]).sequence
}

/// Whether `traces` holds a trace numbered `sequence`.
pub open spec fn spec_has_trace(traces: Seq<ProjectileTrace>, sequence: u32) -> bool {
    exists|i: int| 0 <= i < traces.len() && (#[trigger] traces[i]).sequence == sequence
}

/// The impact tick of the trace numbered `sequence`.
pub open spec fn spec_impact_tick_of(traces: Seq<ProjectileTrace>, sequence: u32) -> u32 {
    traces[choose|i: int| 0 <= i < traces.len() && (#[trigger] traces[i]).sequence == sequence].impact.tick
}

/// Whether every projectile-delivered strike cites a trace that the records hold.
pub open spec fn spec_strikes_cite_traces(
    traces: Seq<ProjectileTrace>,
    strikes: Seq<StrikeResolution>,
) -> bool {
    forall|j: int|
        0 <= j < strikes.len() ==> match (#[trigger] strikes[j]).delivery {
            StrikeDelivery::Projectile { trace_sequence } => spec_has_trace(traces, trace_sequence),
            _ => true,
        }
}

/// The tick at which the action resolves: the latest impact of any trace, zero without one.
pub open spec fn spec_resolution_tick(traces: Seq<ProjectileTrace>) -> u32
    decreases traces.len(),
{
    if traces.len() == 0 {
        0
    } else {
        let rest = spec_resolution_tick(traces.drop_last());
        if rest < traces.last().impact.tick {
            traces.last().impact.tick
        } else {
            rest
        }
    }
}

/// When and in which rank a strike is presented: a projectile strike at its own trace's
/// impact tick, a melee strike at the start, an effect strike at the resolution tick.
pub open spec fn spec_strike_slot(
    traces: Seq<ProjectileTrace>,
    strike: StrikeResolution,
    resolution_tick: u32,
) -> (u32, u8) {
    match strike.delivery {
        StrikeDelivery::Projectile { trace_sequence } => (spec_impact_tick_of(traces, trace_sequence), 3),
        StrikeDelivery::Melee => (0, 1),
        StrikeDelivery::Effect { .. } => (resolution_tick, 4),
    }
}

/// Whether `kind` is the trace event of `trace`, owned by `owner_id` and `ability_id`.
pub open spec fn spec_is_trace_event(
    kind: PresentationEventKind,
    owner_id: String,
    ability_id: String,
    trace: ProjectileTrace,
) -> bool {
    &&& kind matches PresentationEventKind::ProjectileTrace(event)
    &&& event.trace_id == trace.sequence
    &&& event.owner_id == owner_id
    &&& event.ability_id == ability_id
    &&& event.samples@ == trace.samples@.map_values(|sample: BallisticSample| spec_snapshot_sample(sample))
    &&& event.terminal_impact == spec_snapshot_impact(trace.impact)
}

/// Whether the records of an ability can be presented: distinct trace numbers, samples in
/// time order, every projectile strike citing a held trace.
pub open spec fn spec_records_presentable(
    traces: Seq<ProjectileTrace>,
    strikes: Seq<StrikeResolution>,
) -> bool {
    &&& spec_trace_ids_distinct(traces)
    &&& forall|k: int| 0 <= k < traces.len() ==> spec_samples_ordered((#[trigger] traces[k]).samples@)
    &&& spec_strikes_cite_traces(traces, strikes)
}

/// Whether `first` and `second` present `trace`: its trace event at the start, then its
/// impact at the impact tick.
pub open spec fn spec_trace_pair(
    first: PendingEvent,
    second: PendingEvent,
    owner_id: String,
    ability_id: String,
    trace: ProjectileTrace,
) -> bool {
    &&& first.presentation_tick == 0
    &&& first.rank == 0
    &&& spec_is_trace_event(first.kind, owner_id, ability_id, trace)
    &&& second.presentation_tick == trace.impact.tick
    &&& second.rank == 2
    &&& second.kind == PresentationEventKind::Impact {
        trace_id: trace.sequence,
        impact: spec_snapshot_impact(trace.impact),
    }
}

/// Whether `event` presents `strike` at its slot.
pub open spec fn spec_strike_event(
    event: PendingEvent,
    owner_id: String,
    ability_id: String,
    traces: Seq<ProjectileTrace>,
    strike: StrikeResolution,
    resolution_tick: u32,
) -> bool {
    &&& event.presentation_tick == spec_strike_slot(traces, strike, resolution_tick).0
    &&& event.rank == spec_strike_slot(traces, strike, resolution_tick).1
    &&& event.kind == PresentationEventKind::StrikeResolved { owner_id, ability_id, strike }
}

/// Whether `event` presents a public random result at the resolution tick.
pub open spec fn spec_random_event(
    event: PendingEvent,
    owner_id: String,
    ability_id: String,
    outcome: RandomOutcome,
    resolution_tick: u32,
) -> bool {
    &&& event.presentation_tick == resolution_tick
    &&& event.rank == 5
    &&& event.kind == PresentationEventKind::RandomOutcome { owner_id, ability_id, outcome }
}

/// The events an ability's records add after the `base` events already derived: per trace,
/// its trace event and its impact; per strike, one `StrikeResolved` at its slot; per public
/// random result, one event at the resolution tick; in that order.
pub open spec fn spec_record_events(
    after: Seq<PendingEvent>,
    base: int,
    owner_id: String,
    ability_id: String,
    traces: Seq<ProjectileTrace>,
    strikes: Seq<StrikeResolution>,
    random_outcomes: Seq<RandomOutcome>,
) -> bool {
    let t = traces.len() as int;
    let s = strikes.len() as int;
    let resolution = spec_resolution_tick(traces);
    &&& after.len() == base + 2 * t + s + random_outcomes.len()
    &&& forall|k: int|
        0 <= k < t ==> spec_trace_pair(
            after[base + 2 * k],
            after[base + 2 * k + 1],
            owner_id,
            ability_id,
            #[trigger] traces[k],
        )
    &&& forall|j: int|
        0 <= j < s ==> spec_strike_event(
            after[base + 2 * t + j],
            owner_id,
            ability_id,
            traces,
            #[trigger] strikes[j],
            resolution,
        )
    &&& forall|m: int|
        0 <= m < random_outcomes.len() ==> spec_random_event(
            after[base + 2 * t + s + m],
            owner_id,
            ability_id,
            #[trigger] random_outcomes[m],
            resolution,
        )
}

fn samples_ordered(samples: &Vec<BallisticSample>) -> (ordered: bool)
    ensures
        ordered == spec_samples_ordered(samples@),
{
    let n = samples.len();
    let mut i: usize = 1;
    while i < n
        invariant
            n == samples@.len(),
            1 <= i,
            forall|a: int, b: int|
                0 <= a < b < i && b < n ==> (#[trigger] samples@[a]).tick <= (#[trigger] samples@[b]).tick,
        decreases n - i,
    {
        if samples[i - 1].tick > samples[i].tick {
            assert(!spec_samples_ordered(samples@)) by {
                let a = (i - 1) as int;
                let b = i as int;
                assert(samples@[a].tick > samples@[b].tick);
            }
            return false;
        }
        assert forall|a: int, b: int|
            0 <= a < b < i + 1 && b < n implies (#[trigger] samples@[a]).tick <= (
            #[trigger] samples@[b]).tick by {
            if b == i && a < i - 1 {
                assert(samples@[a].tick <= samples@[i - 1].tick);
            }
        }
        i = i + 1;
    }
    true
}

/// The first of the first `end` traces numbered `sequence`, if any.
fn trace_position(traces: &Vec<ProjectileTrace>, sequence: u32, end: usize) -> (found: Option<usize>)
    requires
        end <= traces@.len(),
    ensures
        match found {
            Some(i) => i < end && traces@[i as int].sequence == sequence,
            None => forall|i: int| 0 <= i < end ==> (#[trigger] traces@[i]).sequence != sequence,
        },
{
    let mut i: usize = 0;
    while i < end
        invariant
            i <= end <= traces@.len(),
            forall|k: int| 0 <= k < i ==> (#[trigger] traces@[k]).sequence != sequence,
        decreases end - i,
    {
        if traces[i].sequence == sequence {
            return Some(i);
        }
        i = i + 1;
    }
    None
}

proof fn lemma_resolution_step(traces: Seq<ProjectileTrace>, t: int)
    requires
        0 <= t < traces.len(),
    ensures
        spec_resolution_tick(traces.take(t + 1)) == if spec_resolution_tick(traces.take(t))
            < traces[t].impact.tick {
            traces[t].impact.tick
        } else {
            spec_resolution_tick(traces.take(t))
        },
{
    assert(traces.take(t + 1).drop_last() =~= traces.take(t));
}

proof fn lemma_impact_tick_of(traces: Seq<ProjectileTrace>, i: int)
    requires
        spec_trace_ids_distinct(traces),
        0 <= i < traces.len(),
    ensures
        spec_impact_tick_of(traces, traces[i].sequence) == traces[i].impact.tick,
{
    let sequence = traces[i].sequence;
    assert(traces[i].sequence == sequence);
    let c = choose|c: int| 0 <= c < traces.len() && (#[trigger] traces[c]).sequence == sequence;
    if c != i {
        if c < i {
            assert(traces[c].sequence != traces[i].sequence);
        } else {
            assert(traces[i].sequence != traces[c].sequence);
        }
    }
}

fn push_trace_pair(
    pending: &mut PendingEvents,
    owner_id: &String,
    ability_id: &String,
    trace: &ProjectileTrace,
) -> (result: Result<(), SessionFault>)
    requires
        old(pending).wf(),
    ensures
        final(pending).wf(),
        result is Ok <==> old(pending)@.len() + 2 <= u32::MAX + 1,
        result is Ok ==> final(pending)@.len() == old(pending)@.len() + 2
            && final(pending)@.subrange(0, old(pending)@.len() as int) == old(pending)@
            && spec_trace_pair(
            final(pending)@[old(pending)@.len() as int],
            final(pending)@[old(pending)@.len() + 1int],
            *owner_id,
            *ability_id,
            *trace,
        ),
        result is Err ==> result == Err::<(), SessionFault>(SessionFault::ContractInvariant),
{
    let ghost before = pending@;
    let impact = snapshot_impact(trace.impact);
    let event = ProjectileTraceEvent {
        trace_id: trace.sequence,
        owner_id: owner_id.clone(),
        ability_id: ability_id.clone(),
        samples: snapshot_samples(&trace.samples),
        terminal_impact: impact,
    };
    if pending.len() > 4294967294 {
        return Err(SessionFault::ContractInvariant);
    }
    let first = pending.push(0, 0, PresentationEventKind::ProjectileTrace(event));
    let second = pending.push(
        trace.impact.tick,
        2,
        PresentationEventKind::Impact { trace_id: trace.sequence, impact },
    );
    assert(first is Ok && second is Ok);
    assert(pending@.subrange(0, before.len() as int) =~= before);
    Ok(())
}

/// Derives the events of an ability's own records after those already in `pending`: per
/// trace (in record order) its trace event at the start and its impact at its impact tick;
/// per strike the strike actually performed, a projectile strike at its own trace's impact
/// tick, a melee strike at the start and an effect strike at the resolution tick; per public
/// random result one event at the resolution tick. Returns the resolution tick, the latest
/// impact. Records that disagree (a repeated trace number, samples going back in time, a
/// strike citing a trace the records lack), or more events than `u32` numbers, are a
/// contract fault.
pub fn derive_record_events(
    pending: &mut PendingEvents,
    owner_id: &String,
    ability_id: &String,
    traces: &Vec<ProjectileTrace>,
    strikes: &Vec<StrikeResolution>,
    random_outcomes: &Vec<RandomOutcome>,
) -> (result: Result<u32, SessionFault>)
    requires
        old(pending).wf(),
    ensures
        final(pending).wf(),
        result is Ok <==> spec_records_presentable(traces@, strikes@) && old(pending)@.len() + 2
            * traces@.len() + strikes@.len() + random_outcomes@.len() <= u32::MAX + 1,
        result is Err ==> result == Err::<u32, SessionFault>(SessionFault::ContractInvariant),
        result is Ok ==> result == Ok::<u32, SessionFault>(spec_resolution_tick(traces@))
            && final(pending)@.subrange(0, old(pending)@.len() as int) == old(pending)@
            && spec_record_events(
            final(pending)@,
            old(pending)@.len() as int,
            *owner_id,
            *ability_id,
            traces@,
            strikes@,
            random_outcomes@,
        ),
{
    let ghost before = pending@;
    let ghost base = before.len() as int;
    let ghost total = base + 2 * traces@.len() + strikes@.len() + random_outcomes@.len();
    let mut resolution: u32 = 0;
    let mut t: usize = 0;
    while t < traces.len()
        invariant
            pending.wf(),
            t <= traces@.len(),
            base == before.len(),
            before == old(pending)@,
            total == base + 2 * traces@.len() + strikes@.len() + random_outcomes@.len(),
            pending@.len() == base + 2 * t,
            pending@.subrange(0, base) == before,
            resolution == spec_resolution_tick(traces@.take(t as int)),
            forall|a: int, b: int|
                0 <= a < b < t ==> (#[trigger] traces@[a]).sequence != (#[trigger] traces@[b]).sequence,
            forall|k: int| 0 <= k < t ==> spec_samples_ordered((#[trigger] traces@[k]).samples@),
            forall|k: int|
                0 <= k < t ==> spec_trace_pair(
                    pending@[base + 2 * k],
                    pending@[base + 2 * k + 1],
                    *owner_id,
                    *ability_id,
                    #[trigger] traces@[k],
                ),
        decreases traces@.len() - t,
    {
        let trace = &traces[t];
        match trace_position(traces, trace.sequence, t) {
            Some(u) => {
                assert(!spec_records_presentable(traces@, strikes@)) by {
                    assert(traces@[u as int].sequence == traces@[t as int].sequence);
                }
                return Err(SessionFault::ContractInvariant);
            },
            None => {},
        }
        if !samples_ordered(&trace.samples) {
            return Err(SessionFault::ContractInvariant);
        }
        let ghost mid = pending@;
        match push_trace_pair(pending, owner_id, ability_id, trace) {
            Ok(()) => {},
            Err(fault) => {
                return Err(fault);
            },
        }
        proof {
            lemma_resolution_step(traces@, t as int);
            assert(pending@.subrange(0, base) =~= mid.subrange(0, base));
            assert forall|k: int|
                0 <= k < t + 1 implies spec_trace_pair(
                pending@[base + 2 * k],
                pending@[base + 2 * k + 1],
                *owner_id,
                *ability_id,
                #[trigger] traces@[k],
            ) by {
                if k < t {
                    assert(pending@[base + 2 * k] == mid[base + 2 * k]);
                    assert(pending@[base + 2 * k + 1] == mid[base + 2 * k + 1]);
                }
            }
        }
        if resolution < trace.impact.tick {
            resolution = trace.impact.tick;
        }
        t = t + 1;
    }
    proof {
        assert(traces@.take(t as int) =~= traces@);
    }
    let ghost after_traces = base + 2 * traces@.len();
    let mut j: usize = 0;
    while j < strikes.len()
        invariant
            pending.wf(),
            j <= strikes@.len(),
            t == traces@.len(),
            base == before.len(),
            before == old(pending)@,
            after_traces == base + 2 * traces@.len(),
            total == after_traces + strikes@.len() + random_outcomes@.len(),
            pending@.len() == after_traces + j,
            pending@.subrange(0, base) == before,
            resolution == spec_resolution_tick(traces@),
            spec_trace_ids_distinct(traces@),
            forall|k: int| 0 <= k < t ==> spec_samples_ordered((#[trigger] traces@[k]).samples@),
            forall|k: int|
                0 <= k < t ==> spec_trace_pair(
                    pending@[base + 2 * k],
                    pending@[base + 2 * k + 1],
                    *owner_id,
                    *ability_id,
                    #[trigger] traces@[k],
                ),
            forall|i: int|
                0 <= i < j ==> match (#[trigger] strikes@[i]).delivery {
                    StrikeDelivery::Projectile { trace_sequence } => spec_has_trace(
                        traces@,
                        trace_sequence,
                    ),
                    _ => true,
                },
            forall|i: int|
                0 <= i < j ==> spec_strike_event(
                    pending@[after_traces + i],
                    *owner_id,
                    *ability_id,
                    traces@,
                    #[trigger] strikes@[i],
                    resolution,
                ),
        decreases strikes@.len() - j,
    {
        let strike = &strikes[j];
        let (tick, rank): (u32, u8) = match strike.delivery {
            StrikeDelivery::Projectile { trace_sequence } => {
                match trace_position(traces, trace_sequence, traces.len()) {
                    Some(i) => {
                        proof {
                            lemma_impact_tick_of(traces@, i as int);
                        }
                        (traces[i].impact.tick, 3)
                    },
                    None => {
                        assert(!spec_strikes_cite_traces(traces@, strikes@)) by {
                            assert(strikes@[j as int].delivery == strike.delivery);
                        }
                        return Err(SessionFault::ContractInvariant);
                    },
                }
            },
            StrikeDelivery::Melee => (0, 1),
            StrikeDelivery::Effect { .. } => (resolution, 4),
        };
        let ghost mid = pending@;
        let kind = PresentationEventKind::StrikeResolved {
            owner_id: owner_id.clone(),
            ability_id: ability_id.clone(),
            strike: copy_strike(strike),
        };
        match pending.push(tick, rank, kind) {
            Ok(()) => {},
            Err(fault) => {
                return Err(fault);
            },
        }
        proof {
            assert(pending@.subrange(0, base) =~= mid.subrange(0, base));
            assert forall|k: int|
                0 <= k < t implies spec_trace_pair(
                pending@[base + 2 * k],
                pending@[base + 2 * k + 1],
                *owner_id,
                *ability_id,
                #[trigger] traces@[k],
            ) by {
                assert(pending@[base + 2 * k] == mid[base + 2 * k]);
                assert(pending@[base + 2 * k + 1] == mid[base + 2 * k + 1]);
            }
            assert forall|i: int|
                0 <= i < j + 1 implies spec_strike_event(
                pending@[after_traces + i],
                *owner_id,
                *ability_id,
                traces@,
                #[trigger] strikes@[i],
                resolution,
            ) by {
                if i < j {
                    assert(pending@[after_traces + i] == mid[after_traces + i]);
                }
            }
        }
        j = j + 1;
    }
    let ghost after_strikes = after_traces + strikes@.len();
    let mut m: usize = 0;
    while m < random_outcomes.len()
        invariant
            pending.wf(),
            m <= random_outcomes@.len(),
            t == traces@.len(),
            j == strikes@.len(),
            base == before.len(),
            before == old(pending)@,
            after_traces == base + 2 * traces@.len(),
            after_strikes == after_traces + strikes@.len(),
            total == after_strikes + random_outcomes@.len(),
            pending@.len() == after_strikes + m,
            pending@.subrange(0, base) == before,
            resolution == spec_resolution_tick(traces@),
            spec_records_presentable(traces@, strikes@),
            forall|k: int|
                0 <= k < t ==> spec_trace_pair(
                    pending@[base + 2 * k],
                    pending@[base + 2 * k + 1],
                    *owner_id,
                    *ability_id,
                    #[trigger] traces@[k],
                ),
            forall|i: int|
                0 <= i < j ==> spec_strike_event(
                    pending@[after_traces + i],
                    *owner_id,
                    *ability_id,
                    traces@,
                    #[trigger] strikes@[i],
                    resolution,
                ),
            forall|q: int|
                0 <= q < m ==> spec_random_event(
                    pending@[after_strikes + q],
                    *owner_id,
                    *ability_id,
                    #[trigger] random_outcomes@[q],
                    resolution,
                ),
        decreases random_outcomes@.len() - m,
    {
        let ghost mid = pending@;
        let kind = PresentationEventKind::RandomOutcome {
            owner_id: owner_id.clone(),
            ability_id: ability_id.clone(),
            outcome: copy_random_outcome(&random_outcomes[m]),
        };
        match pending.push(resolution, 5, kind) {
            Ok(()) => {},
            Err(fault) => {
                return Err(fault);
            },
        }
        proof {
            assert(pending@.subrange(0, base) =~= mid.subrange(0, base));
            assert forall|k: int|
                0 <= k < t implies spec_trace_pair(
                pending@[base + 2 * k],
                pending@[base + 2 * k + 1],
                *owner_id,
                *ability_id,
                #[trigger] traces@[k],
            ) by {
                assert(pending@[base + 2 * k] == mid[base + 2 * k]);
                assert(pending@[base + 2 * k + 1] == mid[base + 2 * k + 1]);
            }
            assert forall|i: int|
                0 <= i < j implies spec_strike_event(
                pending@[after_traces + i],
                *owner_id,
                *ability_id,
                traces@,
                #[trigger] strikes@[i],
                resolution,
            ) by {
                assert(pending@[after_traces + i] == mid[after_traces + i]);
            }
            assert forall|q: int|
                0 <= q < m + 1 implies spec_random_event(
                pending@[after_strikes + q],
                *owner_id,
                *ability_id,
                #[trigger] random_outcomes@[q],
                resolution,
            ) by {
                if q < m {
                    assert(pending@[after_strikes + q] == mid[after_strikes + q]);
                }
            }
        }
        m = m + 1;
    }
    Ok(resolution)
}

/// A projectile-delivered strike is presented when its own projectile lands: in the ordered
/// events of a transition whose pending events include an ability's record events, the
/// event that presents the strike carries the impact tick of the trace it cites.
pub proof fn lemma_projectile_strike_at_impact_tick(
    events: Seq<PresentationEvent>,
    src: Seq<int>,
    pending: Seq<PendingEvent>,
    base: int,
    owner_id: String,
    ability_id: String,
    traces: Seq<ProjectileTrace>,
    strikes: Seq<StrikeResolution>,
    random_outcomes: Seq<RandomOutcome>,
    strike: int,
    trace: int,
    event: int,
)
    requires
        spec_record_events(pending, base, owner_id, ability_id, traces, strikes, random_outcomes),
        spec_trace_ids_distinct(traces),
        spec_ordered_from(events, pending, src),
        0 <= strike < strikes.len(),
        0 <= trace < traces.len(),
        strikes[strike].delivery == (StrikeDelivery::Projectile { trace_sequence: traces[trace].sequence }),
        0 <= event < events.len(),
        src[event] == base + 2 * traces.len() + strike,
    ensures
        events[event].presentation_tick == traces[trace].impact.tick,
        events[event].kind == (PresentationEventKind::StrikeResolved {
            owner_id,
            ability_id,
            strike: strikes[strike],
        }),
{
    lemma_impact_tick_of(traces, trace);
    assert(spec_strike_event(
        pending[base + 2 * traces.len() + strike],
        owner_id,
        ability_id,
        traces,
        strikes[strike],
        spec_resolution_tick(traces),
    ));
    assert(events[event].presentation_tick == pending[src[event]].presentation_tick);
}

// ---------------------------------------------------------------------------------------
// Events of the world around an action
// ---------------------------------------------------------------------------------------

/// Derives the terrain event of an action after the events already in `pending`: when the
/// terrain generation advanced, one `TerrainChanged` at the resolution tick carrying the new
/// generation and the dirty rectangles. Changed cells without a new generation (the coarse
/// terrain cache would go stale) are a contract fault, and so is a terrain pair the
/// rectangles cannot be computed for.
pub fn derive_terrain_event(
    pending: &mut PendingEvents,
    pre_state: &SimulationState,
    post_state: &SimulationState,
    resolution_tick: u32,
) -> (result: Result<(), SessionFault>)
    requires
        old(pending).wf(),
    ensures
        final(pending).wf(),
        match spec_terrain_dirty_rectangles(pre_state.terrain, post_state.terrain) {
            Err(fault) => result == Err::<(), SessionFault>(fault) && final(pending)@ == old(pending)@,
            Ok(rectangles) => {
                let changed = pre_state.next_terrain_sequence != post_state.next_terrain_sequence;
                &&& !changed && rectangles.len() > 0 ==> result == Err::<(), SessionFault>(
                    SessionFault::ContractInvariant,
                ) && final(pending)@ == old(pending)@
                &&& !changed && rectangles.len() == 0 ==> result is Ok && final(pending)@ == old(
                    pending,
                )@
                &&& changed && old(pending)@.len() > u32::MAX ==> result == Err::<(), SessionFault>(
                    SessionFault::ContractInvariant,
                ) && final(pending)@ == old(pending)@
                &&& changed && old(pending)@.len() <= u32::MAX ==> {
                    let event = final(pending)@[old(pending)@.len() as int];
                    &&& result is Ok
                    &&& final(pending)@.len() == old(pending)@.len() + 1
                    &&& final(pending)@.subrange(0, old(pending)@.len() as int) == old(pending)@
                    &&& event.presentation_tick == resolution_tick
                    &&& event.rank == 10
                    &&& event.insertion_order == old(pending)@.len()
                    &&& event.kind matches PresentationEventKind::TerrainChanged {
                        terrain_generation,
                        dirty_rectangles,
                    }
                    &&& terrain_generation == post_state.next_terrain_sequence
                    &&& dirty_rectangles@ == rectangles
                }
            },
        },
{
    let rectangles = match terrain_dirty_rectangles(pre_state, post_state) {
        Err(fault) => {
            return Err(fault);
        },
        Ok(rectangles) => rectangles,
    };
    let changed = pre_state.next_terrain_sequence != post_state.next_terrain_sequence;
    if rectangles.len() > 0 && !changed {
        return Err(SessionFault::ContractInvariant);
    }
    if changed {
        let ghost before = pending@;
        let ghost dirty = rectangles@;
        let kind = PresentationEventKind::TerrainChanged {
            terrain_generation: post_state.next_terrain_sequence,
            dirty_rectangles: rectangles,
        };
        let pushed = pending.push(resolution_tick, 10, kind);
        if pushed.is_err() {
            return Err(SessionFault::ContractInvariant);
        }
        assert(pending@.subrange(0, before.len() as int) =~= before);
    }
    Ok(())
}

/// A turn-end reason as the client sees it, reason for reason.
pub open spec fn spec_client_turn_end_reason(reason: TurnEndReason) -> ClientTurnEndReason {
    match reason {
        TurnEndReason::Attacked => ClientTurnEndReason::Attacked,
        TurnEndReason::Passed => ClientTurnEndReason::Passed,
        TurnEndReason::TimedOut => ClientTurnEndReason::TimedOut,
        TurnEndReason::Eliminated => ClientTurnEndReason::Eliminated,
    }
}

fn client_turn_end_reason(reason: TurnEndReason) -> (client: ClientTurnEndReason)
    ensures
        client == spec_client_turn_end_reason(reason),
{
    match reason {
        TurnEndReason::Attacked => ClientTurnEndReason::Attacked,
        TurnEndReason::Passed => ClientTurnEndReason::Passed,
        TurnEndReason::TimedOut => ClientTurnEndReason::TimedOut,
        TurnEndReason::Eliminated => ClientTurnEndReason::Eliminated,
    }
}

/// Whether an action ended the turn: another player is active, the turn number moved, or
/// the match completed.
pub open spec fn spec_turn_ended(pre_state: SimulationState, post_state: SimulationState) -> bool {
    ||| pre_state.active_player_id@ != post_state.active_player_id@
    ||| pre_state.turn_number != post_state.turn_number
    ||| pre_state.phase != MatchPhase::MatchComplete && post_state.phase == MatchPhase::MatchComplete
}

/// The turn events of an action, numbered from `base`: the turn's end (for a turn that had
/// an active player), the match's completion (when its outcome was newly decided), and the
/// next turn's opening (while the match goes on with an active player), all at the
/// resolution tick.
pub open spec fn spec_turn_events(
    base: int,
    pre_state: SimulationState,
    post_state: SimulationState,
    pre_outcome: ClientMatchOutcome,
    post_outcome: ClientMatchOutcome,
    resolution_tick: u32,
) -> Seq<PendingEvent> {
    let ended = spec_turn_ended(pre_state, post_state);
    let none = Seq::<PendingEvent>::empty();
    let with_end = if ended && pre_state.active_player_id@.len() > 0 {
        none.push(
            PendingEvent {
                presentation_tick: resolution_tick,
                rank: 19,
                insertion_order: base as u32,
                kind: PresentationEventKind::TurnEnded {
                    player_id: pre_state.active_player_id,
                    reason: spec_client_turn_end_reason(post_state.last_turn_end_reason),
                },
            },
        )
    } else {
        none
    };
    let with_outcome = if pre_outcome != post_outcome && !(post_outcome is InProgress) {
        with_end.push(
            PendingEvent {
                presentation_tick: resolution_tick,
                rank: 20,
                insertion_order: (base + with_end.len()) as u32,
                kind: PresentationEventKind::MatchCompleted { outcome: post_outcome },
            },
        )
    } else {
        with_end
    };
    if ended && post_state.phase != MatchPhase::MatchComplete && post_state.active_player_id@.len()
        > 0 {
        with_outcome.push(
            PendingEvent {
                presentation_tick: resolution_tick,
                rank: 21,
                insertion_order: (base + with_outcome.len()) as u32,
                kind: PresentationEventKind::TurnOpened {
                    player_id: post_state.active_player_id,
                    turn_number: post_state.turn_number,
                },
            },
        )
    } else {
        with_outcome
    }
}

/// Derives the turn events of an action (see [`spec_turn_events`]) after those already in
/// `pending`; more events than `u32` numbers are a contract fault.
pub fn derive_turn_events(
    pending: &mut PendingEvents,
    pre_state: &SimulationState,
    post_state: &SimulationState,
    pre_snapshot: &MatchSnapshot,
    post_snapshot: &MatchSnapshot,
    resolution_tick: u32,
) -> (result: Result<(), SessionFault>)
    requires
        old(pending).wf(),
    ensures
        final(pending).wf(),
        ({
            let events = spec_turn_events(
                old(pending)@.len() as int,
                *pre_state,
                *post_state,
                pre_snapshot.outcome,
                post_snapshot.outcome,
                resolution_tick,
            );
            &&& old(pending)@.len() + events.len() <= u32::MAX + 1 ==> result is Ok && final(pending)@
                == old(pending)@ + events
            &&& old(pending)@.len() + events.len() > u32::MAX + 1 ==> result == Err::<
                (),
                SessionFault,
            >(SessionFault::ContractInvariant)
        }),
{
    let ghost before = pending@;
    let ghost base = before.len() as int;
    let ended = pre_state.active_player_id != post_state.active_player_id || pre_state.turn_number
        != post_state.turn_number || (pre_state.phase != MatchPhase::MatchComplete
        && post_state.phase == MatchPhase::MatchComplete);
    let ghost with_end = if ended && pre_state.active_player_id@.len() > 0 {
        seq![
            PendingEvent {
                presentation_tick: resolution_tick,
                rank: 19u8,
                insertion_order: base as u32,
                kind: PresentationEventKind::TurnEnded {
                    player_id: pre_state.active_player_id,
                    reason: spec_client_turn_end_reason(post_state.last_turn_end_reason),
                },
            },
        ]
    } else {
        Seq::<PendingEvent>::empty()
    };
    if ended && !pre_state.active_player_id.as_str().is_empty() {
        let kind = PresentationEventKind::TurnEnded {
            player_id: pre_state.active_player_id.clone(),
            reason: client_turn_end_reason(post_state.last_turn_end_reason),
        };
        if pending.push(resolution_tick, 19, kind).is_err() {
            return Err(SessionFault::ContractInvariant);
        }
    }
    assert(pending@ =~= before + with_end);
    let ghost with_outcome = if pre_snapshot.outcome != post_snapshot.outcome
        && !(post_snapshot.outcome is InProgress) {
        with_end.push(
            PendingEvent {
                presentation_tick: resolution_tick,
                rank: 20,
                insertion_order: (base + with_end.len()) as u32,
                kind: PresentationEventKind::MatchCompleted { outcome: post_snapshot.outcome },
            },
        )
    } else {
        with_end
    };
    let decided = match post_snapshot.outcome {
        ClientMatchOutcome::InProgress => false,
        _ => true,
    };
    if pre_snapshot.outcome != post_snapshot.outcome && decided {
        let kind = PresentationEventKind::MatchCompleted { outcome: post_snapshot.outcome };
        if pending.push(resolution_tick, 20, kind).is_err() {
            return Err(SessionFault::ContractInvariant);
        }
    }
    assert(pending@ =~= before + with_outcome);
    if ended && post_state.phase != MatchPhase::MatchComplete
        && !post_state.active_player_id.as_str().is_empty() {
        let kind = PresentationEventKind::TurnOpened {
            player_id: post_state.active_player_id.clone(),
            turn_number: post_state.turn_number,
        };
        if pending.push(resolution_tick, 21, kind).is_err() {
            return Err(SessionFault::ContractInvariant);
        }
    }
    proof {
        let events = spec_turn_events(
            base,
            *pre_state,
            *post_state,
            pre_snapshot.outcome,
            post_snapshot.outcome,
            resolution_tick,
        );
        assert(pending@ =~= before + events);
    }
    Ok(())
}

/// Derives the passive-choice event after the events already in `pending`: when the action
/// moved the match into passive selection, one `PassiveChoiceRequired` at the resolution
/// tick for the newly active player, listing the passives its character offers sorted by
/// identifier. `character_passives` is what the character data offers that player's
/// character (`None` when the data does not know it). An active player missing from the
/// roster, an unknown character, or more events than `u32` numbers are a contract fault.
pub fn derive_passive_choice_event(
    pending: &mut PendingEvents,
    pre_state: &SimulationState,
    post_state: &SimulationState,
    character_passives: Option<&Vec<String>>,
    resolution_tick: u32,
) -> (result: Result<(), SessionFault>)
    requires
        old(pending).wf(),
    ensures
        final(pending).wf(),
        !(pre_state.phase != MatchPhase::PassiveSelection && post_state.phase
            == MatchPhase::PassiveSelection) ==> result is Ok && final(pending)@ == old(pending)@,
        pre_state.phase != MatchPhase::PassiveSelection && post_state.phase
            == MatchPhase::PassiveSelection ==> match (
            spec_find_player(post_state.players@, post_state.active_player_id@),
            character_passives,
        ) {
            (Some(i), Some(passives)) => {
                &&& old(pending)@.len() <= u32::MAX ==> {
                    let event = final(pending)@[old(pending)@.len() as int];
                    &&& result is Ok
                    &&& final(pending)@.len() == old(pending)@.len() + 1
                    &&& final(pending)@.subrange(0, old(pending)@.len() as int) == old(pending)@
                    &&& event.presentation_tick == resolution_tick
                    &&& event.rank == 18
                    &&& event.kind matches PresentationEventKind::PassiveChoiceRequired {
                        player_id,
                        passive_ids,
                    }
                    &&& player_id == post_state.players@[i].id
                    &&& spec_string_views(passive_ids@) == spec_sort_ids(spec_string_views(passives@))
                }
                &&& old(pending)@.len() > u32::MAX ==> result == Err::<(), SessionFault>(
                    SessionFault::ContractInvariant,
                )
            },
            _ => result == Err::<(), SessionFault>(SessionFault::ContractInvariant),
        },
{
    if !(pre_state.phase != MatchPhase::PassiveSelection && post_state.phase
        == MatchPhase::PassiveSelection) {
        return Ok(());
    }
    let player = match post_state.player(post_state.active_player_id.as_str()) {
        None => {
            return Err(SessionFault::ContractInvariant);
        },
        Some(player) => player,
    };
    let passives = match character_passives {
        None => {
            return Err(SessionFault::ContractInvariant);
        },
        Some(passives) => passives,
    };
    let mut sorted: Vec<String> = Vec::new();
    let mut i: usize = 0;
    assert(spec_string_views(sorted@) =~= spec_sort_ids(spec_string_views(passives@.take(0))));
    while i < passives.len()
        invariant
            i <= passives@.len(),
            spec_string_views(sorted@) == spec_sort_ids(spec_string_views(passives@.take(i as int))),
        decreases passives@.len() - i,
    {
        proof {
            let next = spec_string_views(passives@.take(i + 1));
            assert(next.drop_last() =~= spec_string_views(passives@.take(i as int)));
            assert(next.last() == passives@[i as int]@);
        }
        insert_sorted_id(&mut sorted, passives[i].clone());
        i = i + 1;
    }
    assert(passives@.take(i as int) =~= passives@);
    let ghost before = pending@;
    let kind = PresentationEventKind::PassiveChoiceRequired {
        player_id: player.id.clone(),
        passive_ids: sorted,
    };
    if pending.push(resolution_tick, 18, kind).is_err() {
        return Err(SessionFault::ContractInvariant);
    }
    assert(pending@.subrange(0, before.len() as int) =~= before);
    Ok(())
}

/// Whether two object snapshots show the same thing.
pub open spec fn spec_same_object(a: PersistentObjectSnapshot, b: PersistentObjectSnapshot) -> bool {
    &&& a.sequence == b.sequence
    &&& a.owner_id@ == b.owner_id@
    &&& a.kind == b.kind
    &&& a.position == b.position
    &&& a.health == b.health
    &&& a.turns_remaining == b.turns_remaining
}

/// The first of the first `n` objects numbered `sequence`, if any.
pub open spec fn spec_find_object(objects: Seq<PersistentObjectSnapshot>, sequence: u32, n: int) -> Option<
    int,
>
    decreases n,
{
    if n <= 0 {
        None
    } else {
        match spec_find_object(objects, sequence, n - 1) {
            Some(k) => Some(k),
            None => if objects[n - 1].sequence == sequence {
                Some(n - 1)
            } else {
                None
            },
        }
    }
}

/// The (previous, current) pairs of the first `n` post-snapshot objects that survived the
/// action (same sequence before) but changed in place, in post-snapshot order.
pub open spec fn spec_changed_objects(
    pre: Seq<PersistentObjectSnapshot>,
    post: Seq<PersistentObjectSnapshot>,
    n: int,
) -> Seq<(PersistentObjectSnapshot, PersistentObjectSnapshot)>
    decreases n,
{
    if n <= 0 {
        Seq::empty()
    } else {
        let earlier = spec_changed_objects(pre, post, n - 1);
        let current = post[n - 1];
        match spec_find_object(pre, current.sequence, pre.len() as int) {
            Some(k) => if !spec_same_object(pre[k], current) {
                earlier.push((pre[k], current))
            } else {
                earlier
            },
            None => earlier,
        }
    }
}

proof fn lemma_find_object_stays(objects: Seq<PersistentObjectSnapshot>, sequence: u32, m: int, n: int)
    requires
        0 <= m <= n,
    ensures
        spec_find_object(objects, sequence, m) matches Some(k) ==> spec_find_object(objects, sequence, n)
            == Some(k) && 0 <= k < m,
    decreases n,
{
    if n > m {
        lemma_find_object_stays(objects, sequence, m, n - 1);
    } else if n > 0 {
        lemma_find_object_stays(objects, sequence, n - 1, n - 1);
    }
}

fn find_object(objects: &Vec<PersistentObjectSnapshot>, sequence: u32) -> (found: Option<usize>)
    ensures
        match found {
            Some(k) => spec_find_object(objects@, sequence, objects@.len() as int) == Some(k as int),
            None => spec_find_object(objects@, sequence, objects@.len() as int) is None,
        },
{
    let mut i: usize = 0;
    while i < objects.len()
        invariant
            i <= objects@.len(),
            spec_find_object(objects@, sequence, i as int) is None,
        decreases objects@.len() - i,
    {
        if objects[i].sequence == sequence {
            proof {
                lemma_find_object_stays(objects@, sequence, i + 1, objects@.len() as int);
            }
            return Some(i);
        }
        i = i + 1;
    }
    None
}

fn copy_object(object: &PersistentObjectSnapshot) -> (copy: PersistentObjectSnapshot)
    ensures
        copy == *object,
{
    PersistentObjectSnapshot {
        sequence: object.sequence,
        owner_id: object.owner_id.clone(),
        kind: object.kind,
        position: object.position,
        health: object.health,
        turns_remaining: object.turns_remaining,
    }
}

/// Derives, after the events already in `pending`, one `ObjectChanged` at the resolution
/// tick for each object that survived the action but changed in place (see
/// [`spec_changed_objects`]); new and removed objects are told by their producers' records,
/// not here. More events than `u32` numbers are a contract fault.
pub fn derive_object_changed_events(
    pending: &mut PendingEvents,
    pre_snapshot: &MatchSnapshot,
    post_snapshot: &MatchSnapshot,
    resolution_tick: u32,
) -> (result: Result<(), SessionFault>)
    requires
        old(pending).wf(),
    ensures
        final(pending).wf(),
        ({
            let changed = spec_changed_objects(
                pre_snapshot.persistent_objects@,
                post_snapshot.persistent_objects@,
                post_snapshot.persistent_objects@.len() as int,
            );
            &&& result is Ok <==> old(pending)@.len() + changed.len() <= u32::MAX + 1
            &&& result is Err ==> result == Err::<(), SessionFault>(SessionFault::ContractInvariant)
            &&& result is Ok ==> final(pending)@.len() == old(pending)@.len() + changed.len()
                && final(pending)@.subrange(0, old(pending)@.len() as int) == old(pending)@
                && forall|k: int|
                0 <= k < changed.len() ==> {
                    let event = #[trigger] final(pending)@[old(pending)@.len() + k];
                    &&& event.presentation_tick == resolution_tick
                    &&& event.rank == 17
                    &&& event.kind == PresentationEventKind::ObjectChanged {
                        previous: changed[k].0,
                        current: changed[k].1,
                    }
                }
        }),
{
    let ghost before = pending@;
    let ghost base = before.len() as int;
    let ghost pre = pre_snapshot.persistent_objects@;
    let ghost post = post_snapshot.persistent_objects@;
    proof {
        pending.lemma_len_fits();
    }
    let mut n: usize = 0;
    while n < post_snapshot.persistent_objects.len()
        invariant
            pending.wf(),
            pending@.len() <= u32::MAX + 1,
            before == old(pending)@,
            base == before.len(),
            pre == pre_snapshot.persistent_objects@,
            post == post_snapshot.persistent_objects@,
            n <= post.len(),
            pending@.len() == base + spec_changed_objects(pre, post, n as int).len(),
            pending@.subrange(0, base) == before,
            forall|k: int|
                0 <= k < spec_changed_objects(pre, post, n as int).len() ==> {
                    let event = #[trigger] pending@[base + k];
                    &&& event.presentation_tick == resolution_tick
                    &&& event.rank == 17
                    &&& event.kind == PresentationEventKind::ObjectChanged {
                        previous: spec_changed_objects(pre, post, n as int)[k].0,
                        current: spec_changed_objects(pre, post, n as int)[k].1,
                    }
                },
        decreases post.len() - n,
    {
        let current = &post_snapshot.persistent_objects[n];
        let ghost earlier = spec_changed_objects(pre, post, n as int);
        proof {
            lemma_find_object_stays(pre, current.sequence, pre.len() as int, pre.len() as int);
            lemma_changed_objects_grow(pre, post, n + 1, post.len() as int);
        }
        match find_object(&pre_snapshot.persistent_objects, current.sequence) {
            Some(k) => {
                let previous = &pre_snapshot.persistent_objects[k];
                let same = previous.sequence == current.sequence && previous.owner_id
                    == current.owner_id && previous.kind == current.kind && previous.position
                    == current.position && previous.health == current.health
                    && previous.turns_remaining == current.turns_remaining;
                if !same {
                    let ghost prior = pending@;
                    let kind = PresentationEventKind::ObjectChanged {
                        previous: copy_object(previous),
                        current: copy_object(current),
                    };
                    if pending.push(resolution_tick, 17, kind).is_err() {
                        return Err(SessionFault::ContractInvariant);
                    }
                    proof {
                        pending.lemma_len_fits();
                        assert(pending@.subrange(0, base) =~= prior.subrange(0, base));
                        let changed = spec_changed_objects(pre, post, n + 1);
                        assert(changed == earlier.push((pre[k as int], post[n as int])));
                        assert forall|j: int| 0 <= j < changed.len() implies {
                            let event = #[trigger] pending@[base + j];
                            &&& event.presentation_tick == resolution_tick
                            &&& event.rank == 17
                            &&& event.kind == PresentationEventKind::ObjectChanged {
                                previous: changed[j].0,
                                current: changed[j].1,
                            }
                        } by {
                            if j < earlier.len() {
                                assert(pending@[base + j] == prior[base + j]);
                                assert(changed[j] == earlier[j]);
                            }
                        }
                    }
                }
            },
            None => {},
        }
        n = n + 1;
    }
    Ok(())
}

proof fn lemma_changed_objects_grow(
    pre: Seq<PersistentObjectSnapshot>,
    post: Seq<PersistentObjectSnapshot>,
    m: int,
    n: int,
)
    requires
        0 <= m <= n,
    ensures
        spec_changed_objects(pre, post, m).len() <= spec_changed_objects(pre, post, n).len(),
    decreases n - m,
{
    if m < n {
        lemma_changed_objects_grow(pre, post, m, n - 1);
    }
}

/// The resolution tick is the latest impact: no trace lands after it, and it is the impact
/// tick of some trace (zero when there is none).
pub proof fn lemma_resolution_tick_is_latest(traces: Seq<ProjectileTrace>)
    ensures
        forall|k: int| 0 <= k < traces.len() ==> (#[trigger] traces[k]).impact.tick <= spec_resolution_tick(traces),
        traces.len() == 0 ==> spec_resolution_tick(traces) == 0,
        traces.len() > 0 ==> exists|k: int|
            0 <= k < traces.len() && (#[trigger] traces[k]).impact.tick == spec_resolution_tick(traces),
    decreases traces.len(),
{
    if traces.len() > 0 {
        let rest = traces.drop_last();
        lemma_resolution_tick_is_latest(rest);
        assert forall|k: int| 0 <= k < traces.len() implies (#[trigger] traces[k]).impact.tick
            <= spec_resolution_tick(traces) by {
            if k < rest.len() {
                assert(traces[k] == rest[k]);
            }
        }
        if rest.len() > 0 && spec_resolution_tick(traces) == spec_resolution_tick(rest) {
            let k = choose|k: int| 0 <= k < rest.len() && (#[trigger] rest[k]).impact.tick
                == spec_resolution_tick(rest);
            assert(traces[k] == rest[k]);
        } else {
            assert(traces[traces.len() - 1].impact.tick == spec_resolution_tick(traces));
        }
    }
}

/// The turn event law: a turn-ended event (for the player who was active, with the recorded
/// reason) exactly when the turn ended with a player active; a match-completed event
/// exactly when the outcome was newly decided; a turn-opened event (for the newly active
/// player and the new turn number) exactly when the turn ended, the match goes on and a
/// player is active; in that order, at the resolution tick, numbered from `base`.
pub proof fn lemma_turn_events_law(
    base: int,
    pre_state: SimulationState,
    post_state: SimulationState,
    pre_outcome: ClientMatchOutcome,
    post_outcome: ClientMatchOutcome,
    tick: u32,
)
    ensures
        ({
            let events = spec_turn_events(base, pre_state, post_state, pre_outcome, post_outcome, tick);
            let ended = spec_turn_ended(pre_state, post_state);
            let end = ended && pre_state.active_player_id@.len() > 0;
            let complete = pre_outcome != post_outcome && !(post_outcome is InProgress);
            let open = ended && post_state.phase != MatchPhase::MatchComplete
                && post_state.active_player_id@.len() > 0;
            &&& events.len() == (if end { 1int } else { 0int }) + (if complete { 1int } else { 0int }) + (
            if open { 1int } else { 0int })
            &&& forall|k: int| 0 <= k < events.len() ==> (#[trigger] events[k]).presentation_tick == tick
                && events[k].insertion_order == (base + k) as u32
            &&& end ==> events[0].kind == (PresentationEventKind::TurnEnded {
                player_id: pre_state.active_player_id,
                reason: spec_client_turn_end_reason(post_state.last_turn_end_reason),
            })
            &&& complete ==> events[if end { 1int } else { 0int }].kind == (
            PresentationEventKind::MatchCompleted { outcome: post_outcome })
            &&& open ==> events[events.len() - 1].kind == (PresentationEventKind::TurnOpened {
                player_id: post_state.active_player_id,
                turn_number: post_state.turn_number,
            })
        }),
{
}

} // verus!

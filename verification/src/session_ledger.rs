//! The session's first-receipt ledger: the idempotency and publication state machine that
//! sits in front of the authoritative host.
//!
//! Every well-formed first receipt, client command or authority timeout alike, is retained
//! under its idempotency key together with the transition it produced, so that a retry
//! replays that first result instead of applying twice. Entries are never evicted; reaching
//! the entry or byte bound closes the ledger instead. The host's own work (resolving the
//! command, the presentation events and the post snapshot) happens between [`receive`] and
//! [`commit`]: the ledger decides, the host computes, the ledger publishes.
//!
//! [`receive`]: CommandLedger::receive
//! [`commit`]: CommandLedger::commit

use crate::match_session::{
    spec_optional_view, spec_retained_command_bytes, spec_retained_timeout_bytes,
    spec_string_bytes, spec_string_fits, retained_authority_timeout_bytes,
    retained_command_bytes, AuthorityTimeout, MatchCommand, MatchCommandKind,
    RetainedByteCounter, SessionFault, COMMAND_LEDGER_BYTE_LIMIT,
    RETAINED_TOP_LEVEL_HEADER_BYTES,
};
use crate::match_session::{
    spec_command_structure, spec_optional_id_valid, spec_timeout_structure,
    spec_valid_definition_id,
};
use crate::match_setup::spec_valid_match_local_id;
use crate::presentation::{retained_presentation_bytes, spec_presentation_bytes, Presentation};
use crate::types::AbilitySlot;
use vstd::prelude::*;
use vstd::utf8::encode_utf8;

verus! {

/// Maximum first-receipt results retained by one live session. Entries are never evicted:
/// forgetting a command would let a late retry apply twice.
pub const COMMAND_LEDGER_ENTRY_LIMIT: usize = 16_384;

/// Cosmetic hold, in ticks, after the last required presentation event.
pub const POST_ACTION_LOCK_TICKS: u32 = 0;

/// One retained first receipt's request, whoever authored it. Client commands and authority
/// actions share one identifier space, so that neither can claim the other's key.
#[derive(Debug)]
pub enum LedgerRequest {
    /// A normalized command received from a client.
    Client(MatchCommand),
    /// An action authored by the server itself.
    Authority(AuthorityTimeout),
}

/// A command kind with its strings taken as characters.
pub enum KindView {
    Move { dx: i32 },
    Ability {
        slot: AbilitySlot,
        angle_millidegrees: i32,
        power_basis_points: i32,
        target_player_id: Option<Seq<char>>,
        secondary_target_player_id: Option<Seq<char>>,
    },
    PassiveChoice { passive_id: Seq<char> },
    Pass,
}

/// A ledger request with its strings taken as characters: two requests are the same request
/// exactly when their views are equal.
pub enum RequestView {
    Client {
        schema_version: u32,
        command_id: Seq<char>,
        player_id: Seq<char>,
        expected_turn_number: u32,
        expected_snapshot_generation: u64,
        kind: KindView,
    },
    Authority {
        schema_version: u32,
        action_id: Seq<char>,
        player_id: Seq<char>,
        expected_turn_number: u32,
        expected_snapshot_generation: u64,
    },
}

/// The view of a command kind.
pub open spec fn spec_kind_view(kind: MatchCommandKind) -> KindView {
    match kind {
        MatchCommandKind::Move { dx } => KindView::Move { dx },
        MatchCommandKind::Ability {
            slot,
            angle_millidegrees,
            power_basis_points,
            target_player_id,
            secondary_target_player_id,
        } => KindView::Ability {
            slot,
            angle_millidegrees,
            power_basis_points,
            target_player_id: spec_optional_view(target_player_id),
            secondary_target_player_id: spec_optional_view(secondary_target_player_id),
        },
        MatchCommandKind::PassiveChoice { passive_id } => KindView::PassiveChoice {
            passive_id: passive_id@,
        },
        MatchCommandKind::Pass => KindView::Pass,
    }
}

impl View for LedgerRequest {
    type V = RequestView;

    open spec fn view(&self) -> RequestView {
        match *self {
            LedgerRequest::Client(command) => RequestView::Client {
                schema_version: command.schema_version,
                command_id: command.command_id@,
                player_id: command.player_id@,
                expected_turn_number: command.expected_turn_number,
                expected_snapshot_generation: command.expected_snapshot_generation,
                kind: spec_kind_view(command.kind),
            },
            LedgerRequest::Authority(timeout) => RequestView::Authority {
                schema_version: timeout.schema_version,
                action_id: timeout.action_id@,
                player_id: timeout.player_id@,
                expected_turn_number: timeout.expected_turn_number,
                expected_snapshot_generation: timeout.expected_snapshot_generation,
            },
        }
    }
}

impl RequestView {
    /// The idempotency key: the command id or the authority action id.
    pub open spec fn key(self) -> Seq<char> {
        match self {
            RequestView::Client { command_id, .. } => command_id,
            RequestView::Authority { action_id, .. } => action_id,
        }
    }

    /// The publication generation the request was constructed against.
    pub open spec fn expected_generation(self) -> u64 {
        match self {
            RequestView::Client { expected_snapshot_generation, .. } => expected_snapshot_generation,
            RequestView::Authority { expected_snapshot_generation, .. } =>
                expected_snapshot_generation,
        }
    }

    /// The schema version the request was constructed against.
    pub open spec fn schema_version(self) -> u32 {
        match self {
            RequestView::Client { schema_version, .. } => schema_version,
            RequestView::Authority { schema_version, .. } => schema_version,
        }
    }
}

/// The structural check of a request against the schema the ledger serves (see
/// [`spec_command_structure`] and [`spec_timeout_structure`], of which this is the view).
pub open spec fn spec_request_structure(request: RequestView, schema_version: u32) -> Result<
    (),
    SessionFault,
> {
    match request {
        RequestView::Client { schema_version: actual, command_id, player_id, kind, .. } => {
            if actual != schema_version {
                Err(SessionFault::UnsupportedSchema { expected: schema_version, actual })
            } else if !spec_valid_match_local_id(encode_utf8(command_id)) {
                Err(SessionFault::InvalidCommand { field: "command id" })
            } else if !spec_valid_match_local_id(encode_utf8(player_id)) {
                Err(SessionFault::InvalidCommand { field: "player id" })
            } else {
                match kind {
                    KindView::Ability { target_player_id, secondary_target_player_id, .. } => if
                    !spec_optional_id_valid(target_player_id) || !spec_optional_id_valid(
                        secondary_target_player_id,
                    ) {
                        Err(SessionFault::InvalidCommand { field: "target player id" })
                    } else {
                        Ok(())
                    },
                    KindView::PassiveChoice { passive_id } => if !spec_valid_definition_id(
                        encode_utf8(passive_id),
                    ) {
                        Err(SessionFault::InvalidCommand { field: "passive id" })
                    } else {
                        Ok(())
                    },
                    _ => Ok(()),
                }
            }
        },
        RequestView::Authority { schema_version: actual, action_id, player_id, .. } => {
            if actual != schema_version {
                Err(SessionFault::UnsupportedSchema { expected: schema_version, actual })
            } else if !spec_valid_match_local_id(encode_utf8(action_id)) {
                Err(SessionFault::InvalidCommand { field: "action_id" })
            } else if !spec_valid_match_local_id(encode_utf8(player_id)) {
                Err(SessionFault::InvalidCommand { field: "player_id" })
            } else {
                Ok(())
            }
        },
    }
}

/// The retained-byte measure of a request.
pub open spec fn spec_request_bytes(request: LedgerRequest) -> Option<u64> {
    match request {
        LedgerRequest::Client(command) => spec_retained_command_bytes(command),
        LedgerRequest::Authority(timeout) => spec_retained_timeout_bytes(timeout),
    }
}

fn same_optional(a: &Option<String>, b: &Option<String>) -> (same: bool)
    ensures
        same == (spec_optional_view(*a) == spec_optional_view(*b)),
{
    match (a, b) {
        (None, None) => true,
        (Some(x), Some(y)) => *x == *y,
        _ => false,
    }
}

fn copy_optional(text: &Option<String>) -> (copy: Option<String>)
    ensures
        spec_optional_view(copy) == spec_optional_view(*text),
{
    match text {
        None => None,
        Some(value) => Some(value.clone()),
    }
}

fn same_kind(a: &MatchCommandKind, b: &MatchCommandKind) -> (same: bool)
    ensures
        same == (spec_kind_view(*a) == spec_kind_view(*b)),
{
    match (a, b) {
        (MatchCommandKind::Move { dx: x }, MatchCommandKind::Move { dx: y }) => *x == *y,
        (
            MatchCommandKind::Ability {
                slot: s1,
                angle_millidegrees: a1,
                power_basis_points: p1,
                target_player_id: t1,
                secondary_target_player_id: u1,
            },
            MatchCommandKind::Ability {
                slot: s2,
                angle_millidegrees: a2,
                power_basis_points: p2,
                target_player_id: t2,
                secondary_target_player_id: u2,
            },
        ) => *s1 == *s2 && *a1 == *a2 && *p1 == *p2 && same_optional(t1, t2) && same_optional(
            u1,
            u2,
        ),
        (
            MatchCommandKind::PassiveChoice { passive_id: x },
            MatchCommandKind::PassiveChoice { passive_id: y },
        ) => *x == *y,
        (MatchCommandKind::Pass, MatchCommandKind::Pass) => true,
        _ => false,
    }
}

impl LedgerRequest {
    /// The request's idempotency key.
    pub fn key(&self) -> (key: &String)
        ensures
            key@ == self@.key(),
    {
        match self {
            LedgerRequest::Client(command) => &command.command_id,
            LedgerRequest::Authority(timeout) => &timeout.action_id,
        }
    }

    /// The publication generation the request names.
    pub fn expected_generation(&self) -> (generation: u64)
        ensures
            generation == self@.expected_generation(),
    {
        match self {
            LedgerRequest::Client(command) => command.expected_snapshot_generation,
            LedgerRequest::Authority(timeout) => timeout.expected_snapshot_generation,
        }
    }

    /// Whether two requests are the same request: same author kind and equal content.
    pub fn same_as(&self, other: &LedgerRequest) -> (same: bool)
        ensures
            same == (self@ == other@),
    {
        match (self, other) {
            (LedgerRequest::Client(a), LedgerRequest::Client(b)) => {
                a.schema_version == b.schema_version && a.command_id == b.command_id
                    && a.player_id == b.player_id && a.expected_turn_number
                    == b.expected_turn_number && a.expected_snapshot_generation
                    == b.expected_snapshot_generation && same_kind(&a.kind, &b.kind)
            },
            (LedgerRequest::Authority(a), LedgerRequest::Authority(b)) => {
                a.schema_version == b.schema_version && a.action_id == b.action_id
                    && a.player_id == b.player_id && a.expected_turn_number
                    == b.expected_turn_number && a.expected_snapshot_generation
                    == b.expected_snapshot_generation
            },
            _ => false,
        }
    }

    /// A copy of the request with the same content.
    pub fn duplicate(&self) -> (copy: LedgerRequest)
        ensures
            copy@ == self@,
    {
        match self {
            LedgerRequest::Client(command) => {
                let kind = match &command.kind {
                    MatchCommandKind::Move { dx } => MatchCommandKind::Move { dx: *dx },
                    MatchCommandKind::Ability {
                        slot,
                        angle_millidegrees,
                        power_basis_points,
                        target_player_id,
                        secondary_target_player_id,
                    } => MatchCommandKind::Ability {
                        slot: *slot,
                        angle_millidegrees: *angle_millidegrees,
                        power_basis_points: *power_basis_points,
                        target_player_id: copy_optional(target_player_id),
                        secondary_target_player_id: copy_optional(secondary_target_player_id),
                    },
                    MatchCommandKind::PassiveChoice { passive_id } => MatchCommandKind::PassiveChoice {
                        passive_id: passive_id.clone(),
                    },
                    MatchCommandKind::Pass => MatchCommandKind::Pass,
                };
                LedgerRequest::Client(
                    MatchCommand {
                        schema_version: command.schema_version,
                        command_id: command.command_id.clone(),
                        player_id: command.player_id.clone(),
                        expected_turn_number: command.expected_turn_number,
                        expected_snapshot_generation: command.expected_snapshot_generation,
                        kind,
                    },
                )
            },
            LedgerRequest::Authority(timeout) => LedgerRequest::Authority(
                AuthorityTimeout {
                    schema_version: timeout.schema_version,
                    action_id: timeout.action_id.clone(),
                    player_id: timeout.player_id.clone(),
                    expected_turn_number: timeout.expected_turn_number,
                    expected_snapshot_generation: timeout.expected_snapshot_generation,
                },
            ),
        }
    }

    /// Refuses a request whose schema is not `schema_version` or whose identifiers are
    /// malformed (see [`spec_request_structure`]).
    pub fn validate_structure(&self, schema_version: u32) -> (result: Result<(), SessionFault>)
        ensures
            result == spec_request_structure(self@, schema_version),
    {
        match self {
            LedgerRequest::Client(command) => command.validate_structure(schema_version),
            LedgerRequest::Authority(timeout) => timeout.validate_structure(schema_version),
        }
    }

    /// The request's retained logical bytes (see [`spec_request_bytes`]).
    pub fn retained_bytes(&self) -> (bytes: Option<u64>)
        ensures
            bytes == spec_request_bytes(*self),
    {
        match self {
            LedgerRequest::Client(command) => retained_command_bytes(command),
            LedgerRequest::Authority(timeout) => retained_authority_timeout_bytes(timeout),
        }
    }
}

/// An authority timeout in the shape of a client `Pass` for the host's event derivation: same
/// schema, key, player, turn and generation, with no gameplay payload. Keeping this local
/// keeps the client command kinds free of a timeout variant.
pub fn timeout_as_pass(timeout: &AuthorityTimeout) -> (command: MatchCommand)
    ensures
        command.schema_version == timeout.schema_version,
        command.command_id@ == timeout.action_id@,
        command.player_id@ == timeout.player_id@,
        command.expected_turn_number == timeout.expected_turn_number,
        command.expected_snapshot_generation == timeout.expected_snapshot_generation,
        command.kind == MatchCommandKind::Pass,
{
    MatchCommand {
        schema_version: timeout.schema_version,
        command_id: timeout.action_id.clone(),
        player_id: timeout.player_id.clone(),
        expected_turn_number: timeout.expected_turn_number,
        expected_snapshot_generation: timeout.expected_snapshot_generation,
        kind: MatchCommandKind::Pass,
    }
}

/// Whether a transition is a new success, a new refusal, or a replayed first result.
#[derive(Debug, Clone, Copy, PartialEq, Eq, Structural)]
pub enum TransitionDisposition {
    /// The first receipt was accepted.
    Accepted,
    /// The first receipt, or a conflicting reuse of its key, was rejected.
    Rejected,
    /// The exact original first result is being replayed without mutation.
    DuplicateReplay,
}

/// Why the authoritative command layer refused a gameplay intent.
#[derive(Debug, Clone, Copy, PartialEq, Eq, Structural)]
pub enum CommandRejection {
    DuplicateCommand,
    NotActivePlayer,
    WrongPhase,
    TurnVersionMismatch,
    AbilityNotAvailable,
    GaugeNotReady,
    AlreadyAttacked,
    InputOutOfRange,
    PlayerEliminated,
    InvalidTarget,
    UnknownCharacter,
    InvalidPassive,
    PassiveAlreadyChosen,
}

/// Why a well-formed request was refused.
#[derive(Debug, Clone, Copy, PartialEq, Eq, Structural)]
pub enum TransitionRejection {
    /// The request targeted a stale or future publication generation.
    SnapshotGenerationMismatch {
        /// Generation named by the request.
        expected: u64,
        /// Current generation when first received.
        actual: u64,
    },
    /// An existing key was reused for a different request.
    CommandIdConflict,
    /// The authoritative command layer refused the gameplay intent.
    Core(CommandRejection),
}

/// The session-owned part of the atomic response to one request: who it binds to, what
/// happened, and which publication generations it spans. The presentation events and the
/// post snapshot that travel with it are built by the host from client-contract types; the
/// ledger is handed their retained size when it commits.
#[derive(Debug)]
pub struct TransitionEnvelope {
    /// Client-contract schema version.
    pub schema_version: u32,
    /// Key this response binds to.
    pub command_id: String,
    /// Whether this is a new acceptance or refusal, or an exact replay.
    pub disposition: TransitionDisposition,
    /// Refusal detail; preserved when a rejected first receipt is replayed.
    pub rejection_reason: Option<TransitionRejection>,
    /// Generation observed before the original first receipt.
    pub pre_snapshot_generation: u64,
    /// Generation after the original first receipt.
    pub post_snapshot_generation: u64,
    /// Tick rate of `input_lock_ticks` and the events' presentation ticks.
    pub presentation_tick_rate: u32,
    /// Earliest relative tick at which a subsequent planning window may open.
    pub input_lock_ticks: u32,
    /// Authoritative state hash after the original receipt.
    pub post_state_hash: String,
}

/// A transition envelope with its strings taken as characters.
pub struct EnvelopeView {
    pub schema_version: u32,
    pub command_id: Seq<char>,
    pub disposition: TransitionDisposition,
    pub rejection_reason: Option<TransitionRejection>,
    pub pre_snapshot_generation: u64,
    pub post_snapshot_generation: u64,
    pub presentation_tick_rate: u32,
    pub input_lock_ticks: u32,
    pub post_state_hash: Seq<char>,
}

impl View for TransitionEnvelope {
    type V = EnvelopeView;

    open spec fn view(&self) -> EnvelopeView {
        EnvelopeView {
            schema_version: self.schema_version,
            command_id: self.command_id@,
            disposition: self.disposition,
            rejection_reason: self.rejection_reason,
            pre_snapshot_generation: self.pre_snapshot_generation,
            post_snapshot_generation: self.post_snapshot_generation,
            presentation_tick_rate: self.presentation_tick_rate,
            input_lock_ticks: self.input_lock_ticks,
            post_state_hash: self.post_state_hash@,
        }
    }
}

impl TransitionEnvelope {
    /// A field-for-field copy with the given disposition.
    pub fn with_disposition(&self, disposition: TransitionDisposition) -> (copy: TransitionEnvelope)
        ensures
            copy@ == (EnvelopeView { disposition, ..self@ }),
    {
        TransitionEnvelope {
            schema_version: self.schema_version,
            command_id: self.command_id.clone(),
            disposition,
            rejection_reason: self.rejection_reason,
            pre_snapshot_generation: self.pre_snapshot_generation,
            post_snapshot_generation: self.post_snapshot_generation,
            presentation_tick_rate: self.presentation_tick_rate,
            input_lock_ticks: self.input_lock_ticks,
            post_state_hash: self.post_state_hash.clone(),
        }
    }
}

/// Retained bytes of an optional refusal: a one-byte presence flag, then a one-byte tag and
/// the variant's payload (two generations; nothing; a one-byte core tag).
pub open spec fn spec_rejection_bytes(rejection: Option<TransitionRejection>) -> int {
    match rejection {
        None => 1int,
        Some(TransitionRejection::SnapshotGenerationMismatch { .. }) => 1int + 1 + 8 + 8,
        Some(TransitionRejection::CommandIdConflict) => 1int + 1,
        Some(TransitionRejection::Core(_)) => 1int + 1 + 1,
    }
}

/// The retained-byte measure of a transition: the header, the schema version, the key, the
/// disposition tag, the optional refusal, the two generations, the tick rate and lock, the
/// host-measured presentation part (the event list with its length prefix, then the post
/// snapshot), and the state hash. `None` when a string is too long for its prefix, the
/// presentation part could not be measured, or the total does not fit in `u64`.
pub open spec fn spec_transition_bytes(transition: EnvelopeView, presentation_bytes: Option<u64>)
    -> Option<u64> {
    match presentation_bytes {
        None => None,
        Some(presentation) => {
            let total = RETAINED_TOP_LEVEL_HEADER_BYTES + 4 + spec_string_bytes(
                transition.command_id,
            ) + 1 + spec_rejection_bytes(transition.rejection_reason) + 8 + 8 + 4 + 4
                + presentation + spec_string_bytes(transition.post_state_hash);
            if spec_string_fits(transition.command_id) && spec_string_fits(
                transition.post_state_hash,
            ) && total <= u64::MAX {
                Some(total as u64)
            } else {
                None
            }
        },
    }
}

/// The retained-byte measure of one ledger entry: its request and its transition.
pub open spec fn spec_entry_bytes(
    request: LedgerRequest,
    transition: EnvelopeView,
    presentation_bytes: Option<u64>,
) -> Option<u64> {
    match (spec_request_bytes(request), spec_transition_bytes(transition, presentation_bytes)) {
        (Some(a), Some(b)) => if a + b <= u64::MAX {
            Some((a + b) as u64)
        } else {
            None
        },
        _ => None,
    }
}

/// The retained logical bytes of a transition (see [`spec_transition_bytes`]), given the
/// host's measure of its presentation events and post snapshot.
pub fn retained_transition_bytes(transition: &TransitionEnvelope, presentation_bytes: Option<u64>)
    -> (bytes: Option<u64>)
    ensures
        bytes == spec_transition_bytes(transition@, presentation_bytes),
{
    let presentation = match presentation_bytes {
        None => return None,
        Some(value) => value,
    };
    let rejection: u64 = match transition.rejection_reason {
        None => 1,
        Some(TransitionRejection::SnapshotGenerationMismatch { .. }) => 18,
        Some(TransitionRejection::CommandIdConflict) => 2,
        Some(TransitionRejection::Core(_)) => 3,
    };
    let mut counter = RetainedByteCounter { bytes: 0 };
    if !counter.add(RETAINED_TOP_LEVEL_HEADER_BYTES) || !counter.add(4) || !counter.string(
        transition.command_id.as_str(),
    ) || !counter.add(1) || !counter.add(rejection) || !counter.add(8) || !counter.add(8)
        || !counter.add(4) || !counter.add(4) || !counter.add(presentation) || !counter.string(
        transition.post_state_hash.as_str(),
    ) {
        return None;
    }
    Some(counter.bytes)
}

/// The retained logical bytes of one ledger entry (see [`spec_entry_bytes`]).
pub fn retained_ledger_entry_bytes(
    request: &LedgerRequest,
    transition: &TransitionEnvelope,
    presentation_bytes: Option<u64>,
) -> (bytes: Option<u64>)
    ensures
        bytes == spec_entry_bytes(*request, transition@, presentation_bytes),
{
    let request_bytes = match request.retained_bytes() {
        None => return None,
        Some(value) => value,
    };
    let transition_bytes = match retained_transition_bytes(transition, presentation_bytes) {
        None => return None,
        Some(value) => value,
    };
    request_bytes.checked_add(transition_bytes)
}

/// One retained first receipt: the request, the transition it produced, and the
/// transition's presentation part.
#[derive(Debug)]
pub struct LedgerEntry {
    pub request: LedgerRequest,
    pub transition: TransitionEnvelope,
    pub presentation: Presentation,
}

/// A retained entry viewed as request, transition and its retained-byte measure, computed
/// from the entry itself (`None` when it cannot be measured).
pub type EntryView = (RequestView, EnvelopeView, Option<u64>);

/// A measure counted as bytes, nothing when unmeasurable.
pub open spec fn spec_some_bytes(bytes: Option<u64>) -> int {
    match bytes {
        Some(value) => value as int,
        None => 0,
    }
}

/// The ledger's abstract state.
pub struct LedgerView {
    /// Current publication generation.
    pub generation: u64,
    /// Retained first receipts, in receipt order.
    pub entries: Seq<EntryView>,
    /// Bound on the number of entries.
    pub entry_limit: usize,
    /// Sum of the entries' retained bytes.
    pub bytes: u64,
    /// Bound on `bytes`.
    pub byte_limit: u64,
    /// Whether a terminal fault closed the ledger; only disposal is valid afterwards.
    pub closed: bool,
    /// The client-contract schema version the ledger serves.
    pub schema_version: u32,
}

/// Sum of the entries' retained bytes.
pub open spec fn spec_total_bytes(entries: Seq<EntryView>) -> int
    decreases entries.len(),
{
    if entries.len() == 0 {
        0
    } else {
        spec_total_bytes(entries.drop_last()) + spec_some_bytes(entries.last().2)
    }
}

/// Whether some entry is retained under `key`.
pub open spec fn spec_holds_key(entries: Seq<EntryView>, key: Seq<char>) -> bool {
    exists|i: int| 0 <= i < entries.len() && (#[trigger] entries[i]).0.key() == key
}

/// The index of the entry retained under `key` (meaningful when [`spec_holds_key`]).
pub open spec fn spec_index_of(entries: Seq<EntryView>, key: Seq<char>) -> int {
    choose|i: int| 0 <= i < entries.len() && (#[trigger] entries[i]).0.key() == key
}

/// Whether no two entries share a key.
pub open spec fn spec_keys_unique(entries: Seq<EntryView>) -> bool {
    forall|i: int, j: int|
        0 <= i < j < entries.len() ==> (#[trigger] entries[i]).0.key() != (
        #[trigger] entries[j]).0.key()
}

/// Whether a retained transition is one the session can have produced: it spans at most one
/// generation step; an acceptance carries no refusal and, when it changed nothing, no lock;
/// a refusal carries its reason, changes no generation and has no lock; a replay marking is
/// never retained.
pub open spec fn spec_envelope_valid(transition: EnvelopeView) -> bool {
    &&& transition.pre_snapshot_generation <= transition.post_snapshot_generation
    &&& transition.post_snapshot_generation <= transition.pre_snapshot_generation + 1
    &&& match transition.disposition {
        TransitionDisposition::Accepted => transition.rejection_reason is None && (
        transition.post_snapshot_generation == transition.pre_snapshot_generation
            ==> transition.input_lock_ticks == 0),
        TransitionDisposition::Rejected => transition.rejection_reason is Some
            && transition.pre_snapshot_generation == transition.post_snapshot_generation
            && transition.input_lock_ticks == 0,
        TransitionDisposition::DuplicateReplay => false,
    }
}

/// Whether an entry's transition binds to its request's key and is valid.
pub open spec fn spec_entry_restorable(entry: EntryView) -> bool {
    entry.1.command_id == entry.0.key() && spec_envelope_valid(entry.1)
}

/// The generation published before entry `k` was committed: zero before the first entry,
/// the previous entry's post generation afterwards.
pub open spec fn spec_generation_before(entries: Seq<EntryView>, k: int) -> u64 {
    if k <= 0 {
        0
    } else {
        entries[k - 1].1.post_snapshot_generation
    }
}

/// Whether the entries form the publication history that ends at `generation`: keys are
/// unique, every entry is restorable, each starts where the previous one ended, and the
/// last one ends at `generation`.
pub open spec fn spec_entries_coherent(entries: Seq<EntryView>, generation: u64) -> bool {
    &&& spec_keys_unique(entries)
    &&& forall|i: int| 0 <= i < entries.len() ==> spec_entry_restorable(#[trigger] entries[i])
    &&& forall|i: int|
        0 <= i < entries.len() ==> (#[trigger] entries[i]).1.pre_snapshot_generation
            == spec_generation_before(entries, i)
    &&& generation == spec_generation_before(entries, entries.len() as int)
}

/// Whether every entry can be measured and its request is well-formed for `schema_version`.
pub open spec fn spec_entries_sound(entries: Seq<EntryView>, schema_version: u32) -> bool {
    forall|i: int|
        0 <= i < entries.len() ==> (#[trigger] entries[i]).2 is Some && spec_request_structure(
            entries[i].0,
            schema_version,
        ) is Ok
}

impl LedgerView {
    /// The ledger's invariant: both bounds hold and are within the session maxima, `bytes`
    /// is exactly the entries' total, and the entries are coherent with the generation.
    pub open spec fn wf(self) -> bool {
        &&& self.entries.len() <= self.entry_limit
        &&& self.entry_limit <= COMMAND_LEDGER_ENTRY_LIMIT
        &&& self.byte_limit <= COMMAND_LEDGER_BYTE_LIMIT
        &&& self.bytes == spec_total_bytes(self.entries)
        &&& self.bytes <= self.byte_limit
        &&& spec_entries_coherent(self.entries, self.generation)
        &&& spec_entries_sound(self.entries, self.schema_version)
    }

    /// This ledger, closed.
    pub open spec fn closing(self) -> LedgerView {
        LedgerView { closed: true, ..self }
    }
}

/// What receiving a request decides before any host work.
#[derive(Debug)]
pub enum Receipt {
    /// The exact request was received before: its first transition, marked as a replay.
    Replay(TransitionEnvelope),
    /// The key is retained for a different request; nothing is recorded.
    Conflict,
    /// The request names another generation; its refusal is to be committed.
    StaleGeneration {
        /// Generation named by the request.
        expected: u64,
        /// Current generation.
        actual: u64,
    },
    /// A first receipt for the current generation: the host is to resolve it.
    Fresh,
}

/// A receipt with its transition taken as a view.
pub enum ReceiptView {
    Replay(EnvelopeView),
    Conflict,
    StaleGeneration { expected: u64, actual: u64 },
    Fresh,
}

/// The view of a receive result.
pub open spec fn spec_receipt_view(result: Result<Receipt, SessionFault>) -> Result<
    ReceiptView,
    SessionFault,
> {
    match result {
        Ok(Receipt::Replay(transition)) => Ok(ReceiptView::Replay(transition@)),
        Ok(Receipt::Conflict) => Ok(ReceiptView::Conflict),
        Ok(Receipt::StaleGeneration { expected, actual }) => Ok(
            ReceiptView::StaleGeneration { expected, actual },
        ),
        Ok(Receipt::Fresh) => Ok(ReceiptView::Fresh),
        Err(fault) => Err(fault),
    }
}

/// The view of a commit result.
pub open spec fn spec_published_view(result: Result<TransitionEnvelope, SessionFault>) -> Result<
    EnvelopeView,
    SessionFault,
> {
    match result {
        Ok(transition) => Ok(transition@),
        Err(fault) => Err(fault),
    }
}

/// Receiving `request`: a closed ledger refuses; a retained key replays its first transition
/// when the request is the same, and is a conflict otherwise; a full ledger closes with a
/// resource fault; a request for another generation is stale; anything else is fresh. Only
/// the full-ledger case changes the ledger, and only by closing it.
pub open spec fn spec_receive(ledger: LedgerView, request: RequestView) -> (
    LedgerView,
    Result<ReceiptView, SessionFault>,
) {
    if ledger.closed {
        (ledger, Err(SessionFault::Closed))
    } else if spec_request_structure(request, ledger.schema_version) is Err {
        (ledger, Err(spec_request_structure(request, ledger.schema_version)->Err_0))
    } else if spec_holds_key(ledger.entries, request.key()) {
        let entry = ledger.entries[spec_index_of(ledger.entries, request.key())];
        if entry.0 == request {
            (
                ledger,
                Ok(
                    ReceiptView::Replay(
                        EnvelopeView { disposition: TransitionDisposition::DuplicateReplay, ..entry.1 },
                    ),
                ),
            )
        } else {
            (ledger, Ok(ReceiptView::Conflict))
        }
    } else if ledger.entries.len() >= ledger.entry_limit {
        (ledger.closing(), Err(SessionFault::ResourceLimit))
    } else if request.expected_generation() != ledger.generation {
        (
            ledger,
            Ok(
                ReceiptView::StaleGeneration {
                    expected: request.expected_generation(),
                    actual: ledger.generation,
                },
            ),
        )
    } else {
        (ledger, Ok(ReceiptView::Fresh))
    }
}

/// Committing a first receipt: a closed ledger refuses, and a malformed request is refused
/// with its structural fault, both without any change; otherwise every failure closes the
/// ledger and changes nothing else (a full ledger, an unmeasurable entry, or one that would
/// cross the byte bound is a resource fault; a key already retained, or a transition that
/// does not bind to the request's key, is not valid, or does not start at the current
/// generation, is a contract fault); success appends the entry, adds its bytes and
/// publishes the transition's post generation.
pub open spec fn spec_commit(
    ledger: LedgerView,
    request: LedgerRequest,
    transition: EnvelopeView,
    presentation: Presentation,
) -> (LedgerView, Result<EnvelopeView, SessionFault>) {
    if ledger.closed {
        (ledger, Err(SessionFault::Closed))
    } else if spec_request_structure(request@, ledger.schema_version) is Err {
        (ledger, Err(spec_request_structure(request@, ledger.schema_version)->Err_0))
    } else if ledger.entries.len() >= ledger.entry_limit {
        (ledger.closing(), Err(SessionFault::ResourceLimit))
    } else {
        match spec_entry_bytes(request, transition, spec_presentation_bytes(presentation)) {
            None => (ledger.closing(), Err(SessionFault::ResourceLimit)),
            Some(entry_bytes) => if ledger.bytes + entry_bytes > ledger.byte_limit {
                (ledger.closing(), Err(SessionFault::ResourceLimit))
            } else if spec_holds_key(ledger.entries, request@.key()) {
                (ledger.closing(), Err(SessionFault::ContractInvariant))
            } else if transition.command_id != request@.key() || !spec_envelope_valid(transition)
                || transition.pre_snapshot_generation != ledger.generation {
                (ledger.closing(), Err(SessionFault::ContractInvariant))
            } else {
                (
                    LedgerView {
                        generation: transition.post_snapshot_generation,
                        entries: ledger.entries.push((request@, transition, Some(entry_bytes))),
                        bytes: (ledger.bytes + entry_bytes) as u64,
                        ..ledger
                    },
                    Ok(transition),
                )
            },
        }
    }
}

/// With unique keys, the entry found under a key is the one [`spec_index_of`] names.
proof fn lemma_index_of_unique(entries: Seq<EntryView>, key: Seq<char>, i: int)
    requires
        0 <= i < entries.len(),
        entries[i].0.key() == key,
        forall|a: int, b: int|
            0 <= a < b < entries.len() ==> (#[trigger] entries[a]).0.key() != (
            #[trigger] entries[b]).0.key(),
    ensures
        spec_holds_key(entries, key),
        spec_index_of(entries, key) == i,
{
    assert(spec_holds_key(entries, key));
    let k = spec_index_of(entries, key);
    if k < i {
        assert(entries[k].0.key() != entries[i].0.key());
    } else if k > i {
        assert(entries[i].0.key() != entries[k].0.key());
    }
}

/// Appending a fresh, valid entry that starts at the current generation, within both
/// bounds, and publishing its post generation keeps the invariant.
proof fn lemma_push_keeps_wf(
    ledger: LedgerView,
    request: RequestView,
    transition: EnvelopeView,
    entry_bytes: u64,
)
    requires
        ledger.wf(),
        !spec_holds_key(ledger.entries, request.key()),
        transition.command_id == request.key(),
        spec_envelope_valid(transition),
        transition.pre_snapshot_generation == ledger.generation,
        ledger.entries.len() < ledger.entry_limit,
        ledger.bytes + entry_bytes <= ledger.byte_limit,
        spec_request_structure(request, ledger.schema_version) is Ok,
    ensures
        (LedgerView {
            generation: transition.post_snapshot_generation,
            entries: ledger.entries.push((request, transition, Some(entry_bytes))),
            bytes: (ledger.bytes + entry_bytes) as u64,
            ..ledger
        }).wf(),
{
    let old_entries = ledger.entries;
    let entries = old_entries.push((request, transition, Some(entry_bytes)));
    let n = old_entries.len() as int;
    lemma_total_push(old_entries, (request, transition, Some(entry_bytes)));
    assert forall|i: int| 0 <= i < entries.len() implies (#[trigger] entries[i]).2 is Some
        && spec_request_structure(entries[i].0, ledger.schema_version) is Ok by {
        if i < n {
            assert(entries[i] == old_entries[i]);
        }
    }
    assert forall|i: int, j: int| 0 <= i < j < entries.len() implies (#[trigger] entries[i]).0.key()
        != (#[trigger] entries[j]).0.key() by {
        assert(entries[i] == old_entries[i]);
        if j < n {
            assert(entries[j] == old_entries[j]);
        } else if old_entries[i].0.key() == request.key() {
            assert(spec_holds_key(old_entries, request.key()));
        }
    }
    assert forall|i: int| 0 <= i < entries.len() implies spec_entry_restorable(
        #[trigger] entries[i],
    ) by {
        if i < n {
            assert(entries[i] == old_entries[i]);
        }
    }
    assert forall|i: int| 0 <= i < entries.len() implies (#[trigger] entries[i]).1.pre_snapshot_generation
        == spec_generation_before(entries, i) by {
        if i < n {
            assert(entries[i] == old_entries[i]);
            if i > 0 {
                assert(entries[i - 1] == old_entries[i - 1]);
            }
        } else if i > 0 {
            assert(entries[i - 1] == old_entries[i - 1]);
        }
    }
}

/// Appending an entry adds its bytes to the total.
proof fn lemma_total_push(entries: Seq<EntryView>, entry: EntryView)
    ensures
        spec_total_bytes(entries.push(entry)) == spec_total_bytes(entries) + spec_some_bytes(entry.2),
{
    assert(entries.push(entry).drop_last() =~= entries);
}

/// The earliest relative tick at which the next planning window may open: the last
/// presentation event's tick plus [`POST_ACTION_LOCK_TICKS`], saturating; zero without events.
pub open spec fn spec_input_lock_ticks(last_event_tick: Option<u32>) -> u32 {
    match last_event_tick {
        None => 0,
        Some(tick) => if tick + POST_ACTION_LOCK_TICKS <= u32::MAX {
            (tick + POST_ACTION_LOCK_TICKS) as u32
        } else {
            u32::MAX
        },
    }
}

/// See [`spec_input_lock_ticks`].
pub fn input_lock_ticks(last_event_tick: Option<u32>) -> (ticks: u32)
    ensures
        ticks == spec_input_lock_ticks(last_event_tick),
{
    match last_event_tick {
        None => 0,
        Some(tick) => tick.saturating_add(POST_ACTION_LOCK_TICKS),
    }
}

/// The refusal transition for `request` at `generation` (see [`CommandLedger::rejection`]).
pub open spec fn spec_rejection(
    generation: u64,
    request: RequestView,
    reason: TransitionRejection,
    presentation_tick_rate: u32,
    post_state_hash: Seq<char>,
) -> EnvelopeView {
    EnvelopeView {
        schema_version: request.schema_version(),
        command_id: request.key(),
        disposition: TransitionDisposition::Rejected,
        rejection_reason: Some(reason),
        pre_snapshot_generation: generation,
        post_snapshot_generation: generation,
        presentation_tick_rate,
        input_lock_ticks: 0,
        post_state_hash,
    }
}

/// Publishing a resolution the host accepted: a closed ledger refuses; a mutation at the last
/// generation closes the ledger as exhausted; otherwise the acceptance spanning the current
/// generation (and the next one when the match mutated), locked until the last event, is
/// committed.
pub open spec fn spec_accept(
    ledger: LedgerView,
    request: LedgerRequest,
    mutated: bool,
    last_event_tick: Option<u32>,
    presentation_tick_rate: u32,
    post_state_hash: Seq<char>,
    presentation: Presentation,
) -> (LedgerView, Result<EnvelopeView, SessionFault>) {
    if ledger.closed {
        (ledger, Err(SessionFault::Closed))
    } else if mutated && ledger.generation == u64::MAX {
        (ledger.closing(), Err(SessionFault::GenerationExhausted))
    } else {
        let transition = EnvelopeView {
            schema_version: request@.schema_version(),
            command_id: request@.key(),
            disposition: TransitionDisposition::Accepted,
            rejection_reason: None,
            pre_snapshot_generation: ledger.generation,
            post_snapshot_generation: if mutated {
                (ledger.generation + 1) as u64
            } else {
                ledger.generation
            },
            presentation_tick_rate,
            input_lock_ticks: spec_input_lock_ticks(last_event_tick),
            post_state_hash,
        };
        spec_commit(ledger, request, transition, presentation)
    }
}

/// Whether a transition is valid for retention (see [`spec_envelope_valid`]).
fn envelope_valid(transition: &TransitionEnvelope) -> (valid: bool)
    ensures
        valid == spec_envelope_valid(transition@),
{
    let pre = transition.pre_snapshot_generation;
    let post = transition.post_snapshot_generation;
    if post < pre || post - pre > 1 {
        return false;
    }
    match transition.disposition {
        TransitionDisposition::Accepted => transition.rejection_reason.is_none() && (post != pre
            || transition.input_lock_ticks == 0),
        TransitionDisposition::Rejected => transition.rejection_reason.is_some() && pre == post
            && transition.input_lock_ticks == 0,
        TransitionDisposition::DuplicateReplay => false,
    }
}

/// A complete restore unit of a ledger: the history, its declared size and byte total, and
/// the bounds it was kept under. The host travels beside it; restoring revalidates the whole
/// history before anything is accepted.
#[derive(Debug)]
pub struct LedgerCheckpoint {
    pub schema_version: u32,
    pub generation: u64,
    pub entries: Vec<LedgerEntry>,
    pub declared_len: usize,
    pub declared_bytes: u64,
    pub entry_limit: usize,
    pub byte_limit: u64,
}

/// A checkpoint with its entries taken as views.
pub struct CheckpointView {
    pub schema_version: u32,
    pub generation: u64,
    pub entries: Seq<EntryView>,
    pub declared_len: usize,
    pub declared_bytes: u64,
    pub entry_limit: usize,
    pub byte_limit: u64,
}

impl View for LedgerCheckpoint {
    type V = CheckpointView;

    open spec fn view(&self) -> CheckpointView {
        CheckpointView {
            schema_version: self.schema_version,
            generation: self.generation,
            entries: self.entries@.map_values(|entry: LedgerEntry| spec_entry_view(entry)),
            declared_len: self.declared_len,
            declared_bytes: self.declared_bytes,
            entry_limit: self.entry_limit,
            byte_limit: self.byte_limit,
        }
    }
}

/// The checkpoint of a ledger: its history, declaring its own length and byte total.
pub open spec fn spec_checkpoint_of(ledger: LedgerView) -> CheckpointView {
    CheckpointView {
        schema_version: ledger.schema_version,
        generation: ledger.generation,
        entries: ledger.entries,
        declared_len: ledger.entries.len() as usize,
        declared_bytes: ledger.bytes,
        entry_limit: ledger.entry_limit,
        byte_limit: ledger.byte_limit,
    }
}

/// The structural fault of the first of the first `n` entries whose request is malformed
/// for `schema_version`, in history order.
pub open spec fn spec_first_structure_fault(entries: Seq<EntryView>, schema_version: u32, n: int) -> Option<
    SessionFault,
>
    decreases n,
{
    if n <= 0 {
        None
    } else {
        match spec_first_structure_fault(entries, schema_version, n - 1) {
            Some(fault) => Some(fault),
            None => match spec_request_structure(entries[n - 1].0, schema_version) {
                Err(fault) => Some(fault),
                Ok(_) => None,
            },
        }
    }
}

/// Whether every entry's retained bytes, recomputed from the entry, can be measured.
pub open spec fn spec_entries_measured(entries: Seq<EntryView>) -> bool {
    forall|i: int| 0 <= i < entries.len() ==> (#[trigger] entries[i]).2 is Some
}

/// Restoring a checkpoint: a declared length that is not the history's is a contract fault;
/// bounds beyond the session maxima, or a history longer than its entry bound, are a
/// resource fault; the first malformed request is refused with its structural fault; a
/// history that is not coherent with the generation is a contract fault; an entry whose
/// bytes cannot be measured, or a recomputed byte total beyond the byte bound, is a resource
/// fault, and a recomputed total other than the declared one a contract fault. Otherwise
/// the open ledger with that history.
pub open spec fn spec_restore(checkpoint: CheckpointView) -> Result<LedgerView, SessionFault> {
    let total = spec_total_bytes(checkpoint.entries);
    if checkpoint.declared_len != checkpoint.entries.len() {
        Err(SessionFault::ContractInvariant)
    } else if checkpoint.entry_limit > COMMAND_LEDGER_ENTRY_LIMIT || checkpoint.byte_limit
        > COMMAND_LEDGER_BYTE_LIMIT || checkpoint.entries.len() > checkpoint.entry_limit {
        Err(SessionFault::ResourceLimit)
    } else if spec_first_structure_fault(
        checkpoint.entries,
        checkpoint.schema_version,
        checkpoint.entries.len() as int,
    ) is Some {
        Err(
            spec_first_structure_fault(
                checkpoint.entries,
                checkpoint.schema_version,
                checkpoint.entries.len() as int,
            )->Some_0,
        )
    } else if !spec_entries_coherent(checkpoint.entries, checkpoint.generation) {
        Err(SessionFault::ContractInvariant)
    } else if !spec_entries_measured(checkpoint.entries) || total > checkpoint.byte_limit {
        Err(SessionFault::ResourceLimit)
    } else if total != checkpoint.declared_bytes {
        Err(SessionFault::ContractInvariant)
    } else {
        Ok(
            LedgerView {
                generation: checkpoint.generation,
                entries: checkpoint.entries,
                entry_limit: checkpoint.entry_limit,
                bytes: checkpoint.declared_bytes,
                byte_limit: checkpoint.byte_limit,
                closed: false,
                schema_version: checkpoint.schema_version,
            },
        )
    }
}

/// Once a structural fault is found among the first `n` entries it stays the first.
proof fn lemma_first_fault_stays(entries: Seq<EntryView>, schema_version: u32, n: int)
    requires
        0 < n,
        spec_first_structure_fault(entries, schema_version, n - 1) is None,
        spec_request_structure(entries[n - 1].0, schema_version) is Err,
    ensures
        spec_first_structure_fault(entries, schema_version, n) == Some(
            spec_request_structure(entries[n - 1].0, schema_version)->Err_0,
        ),
{
}

/// A structural fault found among the first `m` entries is the first among any longer prefix.
proof fn lemma_first_fault_persists(entries: Seq<EntryView>, schema_version: u32, m: int, n: int)
    requires
        0 <= m <= n,
        spec_first_structure_fault(entries, schema_version, m) is Some,
    ensures
        spec_first_structure_fault(entries, schema_version, n) == spec_first_structure_fault(
            entries,
            schema_version,
            m,
        ),
    decreases n - m,
{
    if n > m {
        lemma_first_fault_persists(entries, schema_version, m, n - 1);
    }
}

/// Without a structural fault among the first `n` entries, each of their requests is
/// well-formed.
proof fn lemma_no_fault_sound(entries: Seq<EntryView>, schema_version: u32, n: int)
    requires
        0 <= n <= entries.len(),
        spec_first_structure_fault(entries, schema_version, n) is None,
    ensures
        forall|i: int| 0 <= i < n ==> spec_request_structure(#[trigger] entries[i].0, schema_version) is Ok,
    decreases n,
{
    if n > 0 {
        lemma_no_fault_sound(entries, schema_version, n - 1);
    }
}

/// No request of a sound history is malformed.
proof fn lemma_sound_has_no_fault(entries: Seq<EntryView>, schema_version: u32, n: int)
    requires
        0 <= n <= entries.len(),
        spec_entries_sound(entries, schema_version),
    ensures
        spec_first_structure_fault(entries, schema_version, n) is None,
    decreases n,
{
    if n > 0 {
        lemma_sound_has_no_fault(entries, schema_version, n - 1);
        assert(spec_request_structure(entries[n - 1].0, schema_version) is Ok);
    }
}

/// The total of a prefix grows one entry at a time and never exceeds the whole total.
proof fn lemma_total_prefix(entries: Seq<EntryView>, j: int)
    requires
        0 <= j <= entries.len(),
    ensures
        spec_total_bytes(entries.take(j)) <= spec_total_bytes(entries),
        j < entries.len() ==> spec_total_bytes(entries.take(j + 1)) == spec_total_bytes(
            entries.take(j),
        ) + spec_some_bytes(entries[j].2),
    decreases entries.len(),
{
    if j < entries.len() {
        assert(entries.take(j + 1).drop_last() =~= entries.take(j));
    }
    if entries.len() > 0 {
        if j == entries.len() {
            assert(entries.take(j) =~= entries);
        } else {
            lemma_total_prefix(entries.drop_last(), j);
            assert(entries.drop_last().take(j) =~= entries.take(j));
        }
    }
}

/// A history with an entry that is not restorable, or does not start where the previous one
/// ended, is refused as a contract fault once the size and bounds have passed.
proof fn lemma_restore_fails_at(checkpoint: CheckpointView, i: int)
    requires
        checkpoint.declared_len == checkpoint.entries.len(),
        checkpoint.entry_limit <= COMMAND_LEDGER_ENTRY_LIMIT,
        checkpoint.byte_limit <= COMMAND_LEDGER_BYTE_LIMIT,
        checkpoint.entries.len() <= checkpoint.entry_limit,
        spec_first_structure_fault(
            checkpoint.entries,
            checkpoint.schema_version,
            checkpoint.entries.len() as int,
        ) is None,
        0 <= i < checkpoint.entries.len(),
        !(spec_entry_restorable(checkpoint.entries[i])
            && checkpoint.entries[i].1.pre_snapshot_generation == spec_generation_before(
            checkpoint.entries,
            i,
        )),
    ensures
        spec_restore(checkpoint) == Err::<LedgerView, SessionFault>(SessionFault::ContractInvariant),
{
    assert(!spec_entries_coherent(checkpoint.entries, checkpoint.generation));
}

/// A checkpoint of an open ledger restores to that same ledger.
pub proof fn lemma_checkpoint_round_trip(ledger: LedgerView)
    requires
        ledger.wf(),
        !ledger.closed,
    ensures
        spec_restore(spec_checkpoint_of(ledger)) == Ok::<LedgerView, SessionFault>(ledger),
{
    lemma_sound_has_no_fault(ledger.entries, ledger.schema_version, ledger.entries.len() as int);
}

/// The first-receipt ledger of one live session (see the module documentation).
pub struct CommandLedger {
    schema_version: u32,
    generation: u64,
    entries: Vec<LedgerEntry>,
    entry_limit: usize,
    bytes: u64,
    byte_limit: u64,
    closed: bool,
}

/// The view of a retained entry.
pub open spec fn spec_entry_view(entry: LedgerEntry) -> EntryView {
    (
        entry.request@,
        entry.transition@,
        spec_entry_bytes(entry.request, entry.transition@, spec_presentation_bytes(entry.presentation)),
    )
}

impl View for CommandLedger {
    type V = LedgerView;

    closed spec fn view(&self) -> LedgerView {
        LedgerView {
            generation: self.generation,
            entries: self.entries@.map_values(|entry: LedgerEntry| spec_entry_view(entry)),
            entry_limit: self.entry_limit,
            bytes: self.bytes,
            byte_limit: self.byte_limit,
            closed: self.closed,
            schema_version: self.schema_version,
        }
    }
}

impl CommandLedger {
    /// An open, empty ledger at generation zero with the session maxima as its bounds,
    /// serving the client-contract schema `schema_version`.
    pub fn new(schema_version: u32) -> (ledger: CommandLedger)
        ensures
            ledger@.wf(),
            ledger@ == (LedgerView {
                generation: 0,
                entries: Seq::empty(),
                entry_limit: COMMAND_LEDGER_ENTRY_LIMIT,
                bytes: 0,
                byte_limit: COMMAND_LEDGER_BYTE_LIMIT,
                closed: false,
                schema_version,
            }),
    {
        let ledger = CommandLedger {
            schema_version,
            generation: 0,
            entries: Vec::new(),
            entry_limit: COMMAND_LEDGER_ENTRY_LIMIT,
            bytes: 0,
            byte_limit: COMMAND_LEDGER_BYTE_LIMIT,
            closed: false,
        };
        proof {
            assert(ledger@.entries =~= Seq::empty());
        }
        ledger
    }

    /// An open, empty ledger with tighter bounds.
    pub fn with_limits(schema_version: u32, entry_limit: usize, byte_limit: u64) -> (ledger:
        CommandLedger)
        requires
            entry_limit <= COMMAND_LEDGER_ENTRY_LIMIT,
            byte_limit <= COMMAND_LEDGER_BYTE_LIMIT,
        ensures
            ledger@.wf(),
            ledger@ == (LedgerView {
                generation: 0,
                entries: Seq::empty(),
                entry_limit,
                bytes: 0,
                byte_limit,
                closed: false,
                schema_version,
            }),
    {
        let ledger = CommandLedger {
            schema_version,
            generation: 0,
            entries: Vec::new(),
            entry_limit,
            bytes: 0,
            byte_limit,
            closed: false,
        };
        proof {
            assert(ledger@.entries =~= Seq::empty());
        }
        ledger
    }

    /// Current publication generation.
    pub fn generation(&self) -> (generation: u64)
        ensures
            generation == self@.generation,
    {
        self.generation
    }

    /// Number of retained first receipts.
    pub fn ledger_len(&self) -> (len: usize)
        ensures
            len == self@.entries.len(),
    {
        self.entries.len()
    }

    /// Retained logical bytes of all first receipts.
    pub fn ledger_bytes(&self) -> (bytes: u64)
        ensures
            bytes == self@.bytes,
    {
        self.bytes
    }

    /// Whether a terminal fault has closed the ledger.
    pub fn is_closed(&self) -> (closed: bool)
        ensures
            closed == self@.closed,
    {
        self.closed
    }

    /// Turns the ledger into its complete restore unit: the history with its presentations,
    /// moved rather than copied (retained presentations have no specified copy). A closed
    /// ledger is disposal-only and yields no checkpoint; the session continues from
    /// [`Self::restore`].
    pub fn checkpoint(self) -> (result: Result<LedgerCheckpoint, SessionFault>)
        ensures
            match result {
                Ok(checkpoint) => !self@.closed && checkpoint@ == spec_checkpoint_of(self@),
                Err(fault) => self@.closed && fault == SessionFault::Closed,
            },
    {
        if self.closed {
            return Err(SessionFault::Closed);
        }
        let declared_len = self.entries.len();
        Ok(
            LedgerCheckpoint {
                schema_version: self.schema_version,
                generation: self.generation,
                entries: self.entries,
                declared_len,
                declared_bytes: self.bytes,
                entry_limit: self.entry_limit,
                byte_limit: self.byte_limit,
            },
        )
    }

    /// Restores a checkpoint after revalidating its whole history (see [`spec_restore`]).
    /// No partially restored ledger is ever returned.
    #[verifier::rlimit(60)]
    #[verifier::spinoff_prover]
    pub fn restore(checkpoint: LedgerCheckpoint) -> (result: Result<CommandLedger, SessionFault>)
        ensures
            match result {
                Ok(ledger) => spec_restore(checkpoint@) == Ok::<LedgerView, SessionFault>(ledger@)
                    && ledger@.wf(),
                Err(fault) => spec_restore(checkpoint@) == Err::<LedgerView, SessionFault>(fault),
            },
    {
        let ghost view = checkpoint@;
        let len = checkpoint.entries.len();
        if checkpoint.declared_len != len {
            return Err(SessionFault::ContractInvariant);
        }
        if checkpoint.entry_limit > COMMAND_LEDGER_ENTRY_LIMIT || checkpoint.byte_limit
            > COMMAND_LEDGER_BYTE_LIMIT || len > checkpoint.entry_limit {
            return Err(SessionFault::ResourceLimit);
        }
        let mut i: usize = 0;
        while i < len
            invariant
                i <= len,
                len == checkpoint.entries@.len(),
                view == checkpoint@,
                spec_first_structure_fault(view.entries, view.schema_version, i as int) is None,
                checkpoint.declared_len == len,
                checkpoint.entry_limit <= COMMAND_LEDGER_ENTRY_LIMIT,
                checkpoint.byte_limit <= COMMAND_LEDGER_BYTE_LIMIT,
                len <= checkpoint.entry_limit,
            decreases len - i,
        {
            proof {
                assert(view.entries[i as int] == spec_entry_view(checkpoint.entries@[i as int]));
            }
            match checkpoint.entries[i].request.validate_structure(checkpoint.schema_version) {
                Err(fault) => {
                    proof {
                        lemma_first_fault_stays(view.entries, view.schema_version, i as int + 1);
                        lemma_first_fault_persists(
                            view.entries,
                            view.schema_version,
                            i as int + 1,
                            len as int,
                        );
                    }
                    return Err(fault);
                },
                Ok(()) => {},
            }
            i = i + 1;
        }
        let mut previous: u64 = 0;
        let mut i: usize = 0;
        while i < len
            invariant
                i <= len,
                len == checkpoint.entries@.len(),
                view == checkpoint@,
                checkpoint.declared_len == len,
                checkpoint.entry_limit <= COMMAND_LEDGER_ENTRY_LIMIT,
                checkpoint.byte_limit <= COMMAND_LEDGER_BYTE_LIMIT,
                len <= checkpoint.entry_limit,
                spec_first_structure_fault(view.entries, view.schema_version, len as int) is None,
                previous == spec_generation_before(view.entries, i as int),
                forall|j: int| 0 <= j < i ==> spec_entry_restorable(#[trigger] view.entries[j]),
                forall|j: int|
                    0 <= j < i ==> (#[trigger] view.entries[j]).1.pre_snapshot_generation
                        == spec_generation_before(view.entries, j),
            decreases len - i,
        {
            let entry = &checkpoint.entries[i];
            proof {
                assert(view.entries[i as int] == spec_entry_view(checkpoint.entries@[i as int]));
            }
            if entry.transition.command_id != *entry.request.key() || !envelope_valid(
                &entry.transition,
            ) || entry.transition.pre_snapshot_generation != previous {
                proof {
                    lemma_restore_fails_at(view, i as int);
                }
                return Err(SessionFault::ContractInvariant);
            }
            previous = entry.transition.post_snapshot_generation;
            i = i + 1;
        }
        if previous != checkpoint.generation {
            return Err(SessionFault::ContractInvariant);
        }
        let mut i: usize = 0;
        while i < len
            invariant
                i <= len,
                len == checkpoint.entries@.len(),
                view == checkpoint@,
                checkpoint.declared_len == len,
                checkpoint.entry_limit <= COMMAND_LEDGER_ENTRY_LIMIT,
                checkpoint.byte_limit <= COMMAND_LEDGER_BYTE_LIMIT,
                len <= checkpoint.entry_limit,
                spec_first_structure_fault(view.entries, view.schema_version, len as int) is None,
                forall|a: int, b: int|
                    0 <= a < b < i ==> (#[trigger] view.entries[a]).0.key() != (
                    #[trigger] view.entries[b]).0.key(),
            decreases len - i,
        {
            let mut j: usize = 0;
            while j < i
                invariant
                    j <= i < len,
                    len == checkpoint.entries@.len(),
                    view == checkpoint@,
                    checkpoint.declared_len == len,
                    checkpoint.entry_limit <= COMMAND_LEDGER_ENTRY_LIMIT,
                    checkpoint.byte_limit <= COMMAND_LEDGER_BYTE_LIMIT,
                    len <= checkpoint.entry_limit,
                    spec_first_structure_fault(view.entries, view.schema_version, len as int) is None,
                spec_first_structure_fault(view.entries, view.schema_version, len as int) is None,
                    forall|a: int| 0 <= a < j ==> (#[trigger] view.entries[a]).0.key() != view.entries[i as int].0.key(),
                decreases i - j,
            {
                proof {
                    assert(view.entries[i as int] == spec_entry_view(checkpoint.entries@[i as int]));
                    assert(view.entries[j as int] == spec_entry_view(checkpoint.entries@[j as int]));
                }
                if *checkpoint.entries[j].request.key() == *checkpoint.entries[i].request.key() {
                    return Err(SessionFault::ContractInvariant);
                }
                j = j + 1;
            }
            i = i + 1;
        }
        let mut total: u64 = 0;
        let mut i: usize = 0;
        while i < len
            invariant
                i <= len,
                len == checkpoint.entries@.len(),
                view == checkpoint@,
                checkpoint.declared_len == len,
                checkpoint.entry_limit <= COMMAND_LEDGER_ENTRY_LIMIT,
                checkpoint.byte_limit <= COMMAND_LEDGER_BYTE_LIMIT,
                len <= checkpoint.entry_limit,
                spec_first_structure_fault(view.entries, view.schema_version, len as int) is None,
                spec_entries_coherent(view.entries, view.generation),
                total == spec_total_bytes(view.entries.take(i as int)),
                total <= checkpoint.byte_limit,
                forall|j: int| 0 <= j < i ==> (#[trigger] view.entries[j]).2 is Some,
            decreases len - i,
        {
            proof {
                assert(view.entries[i as int] == spec_entry_view(checkpoint.entries@[i as int]));
                lemma_total_prefix(view.entries, i as int);
                lemma_total_prefix(view.entries, i + 1);
            }
            let entry = &checkpoint.entries[i];
            let measured = retained_presentation_bytes(&entry.presentation);
            let entry_bytes = match retained_ledger_entry_bytes(
                &entry.request,
                &entry.transition,
                measured,
            ) {
                None => return Err(SessionFault::ResourceLimit),
                Some(value) => value,
            };
            let next = match total.checked_add(entry_bytes) {
                None => return Err(SessionFault::ResourceLimit),
                Some(value) => value,
            };
            if next > checkpoint.byte_limit {
                return Err(SessionFault::ResourceLimit);
            }
            total = next;
            i = i + 1;
        }
        proof {
            assert(view.entries.take(len as int) =~= view.entries);
            lemma_no_fault_sound(view.entries, view.schema_version, len as int);
        }
        if total != checkpoint.declared_bytes {
            return Err(SessionFault::ContractInvariant);
        }
        let ledger = CommandLedger {
            schema_version: checkpoint.schema_version,
            generation: checkpoint.generation,
            entries: checkpoint.entries,
            entry_limit: checkpoint.entry_limit,
            bytes: checkpoint.declared_bytes,
            byte_limit: checkpoint.byte_limit,
            closed: false,
        };
        Ok(ledger)
    }

    /// The presentation retained with entry `index`.
    pub closed spec fn spec_presentation_at(self, index: int) -> Presentation {
        self.entries@[index].presentation
    }

    /// The presentation (events and post snapshot) retained with entry `index`, for
    /// publishing a replay in full; its measure is the one the entry was charged.
    pub fn presentation_at(&self, index: usize) -> (presentation: &Presentation)
        requires
            index < self@.entries.len(),
        ensures
            *presentation == self.spec_presentation_at(index as int),
            self@.entries[index as int].2 == spec_entry_bytes(
                self.spec_request_at(index as int),
                self@.entries[index as int].1,
                spec_presentation_bytes(*presentation),
            ),
    {
        &self.entries[index].presentation
    }

    /// The request retained with entry `index`.
    pub closed spec fn spec_request_at(self, index: int) -> LedgerRequest {
        self.entries@[index].request
    }

    /// The position of the entry retained under `key`, if any.
    pub fn position_of(&self, key: &String) -> (index: Option<usize>)
        requires
            self@.wf(),
        ensures
            match index {
                Some(i) => i < self@.entries.len() && self@.entries[i as int].0.key() == key@,
                None => !spec_holds_key(self@.entries, key@),
            },
    {
        self.find(key)
    }

    /// The index of the entry retained under `key`, if any.
    fn find(&self, key: &String) -> (index: Option<usize>)
        requires
            self@.wf(),
        ensures
            match index {
                Some(i) => i < self@.entries.len() && self@.entries[i as int].0.key() == key@
                    && spec_holds_key(self@.entries, key@) && spec_index_of(self@.entries, key@)
                    == i,
                None => !spec_holds_key(self@.entries, key@),
            },
    {
        let mut i: usize = 0;
        while i < self.entries.len()
            invariant
                i <= self.entries.len(),
                self@.wf(),
                forall|j: int| 0 <= j < i ==> (#[trigger] self@.entries[j]).0.key() != key@,
            decreases self.entries.len() - i,
        {
            if *self.entries[i].request.key() == *key {
                proof {
                    assert(self@.entries[i as int] == spec_entry_view(self.entries@[i as int]));
                    lemma_index_of_unique(self@.entries, key@, i as int);
                }
                return Some(i);
            }
            proof {
                assert(self@.entries[i as int] == spec_entry_view(self.entries@[i as int]));
            }
            i = i + 1;
        }
        None
    }

    /// Decides what to do with `request` before any host work (see [`spec_receive`]).
    pub fn receive(&mut self, request: &LedgerRequest) -> (result: Result<Receipt, SessionFault>)
        requires
            old(self)@.wf(),
        ensures
            final(self)@.wf(),
            (final(self)@, spec_receipt_view(result)) == spec_receive(old(self)@, request@),
    {
        if self.closed {
            return Err(SessionFault::Closed);
        }
        match request.validate_structure(self.schema_version) {
            Err(fault) => return Err(fault),
            Ok(()) => {},
        }
        match self.find(request.key()) {
            Some(i) => {
                proof {
                    assert(self@.entries[i as int] == spec_entry_view(self.entries@[i as int]));
                }
                if self.entries[i].request.same_as(request) {
                    let replay = self.entries[i].transition.with_disposition(
                        TransitionDisposition::DuplicateReplay,
                    );
                    return Ok(Receipt::Replay(replay));
                }
                return Ok(Receipt::Conflict);
            },
            None => {},
        }
        if self.entries.len() >= self.entry_limit {
            self.closed = true;
            return Err(SessionFault::ResourceLimit);
        }
        let expected = request.expected_generation();
        if expected != self.generation {
            return Ok(Receipt::StaleGeneration { expected, actual: self.generation });
        }
        Ok(Receipt::Fresh)
    }

    /// The refusal transition for `request` at the current generation: bound to its key,
    /// rejected for `reason`, spanning no generation change, with no lock, over the current
    /// state hash.
    pub fn rejection(
        &self,
        request: &LedgerRequest,
        reason: TransitionRejection,
        presentation_tick_rate: u32,
        post_state_hash: String,
    ) -> (transition: TransitionEnvelope)
        ensures
            transition@ == spec_rejection(
                self@.generation,
                request@,
                reason,
                presentation_tick_rate,
                post_state_hash@,
            ),
    {
        let schema_version = match request {
            LedgerRequest::Client(command) => command.schema_version,
            LedgerRequest::Authority(timeout) => timeout.schema_version,
        };
        TransitionEnvelope {
            schema_version,
            command_id: request.key().clone(),
            disposition: TransitionDisposition::Rejected,
            rejection_reason: Some(reason),
            pre_snapshot_generation: self.generation,
            post_snapshot_generation: self.generation,
            presentation_tick_rate,
            input_lock_ticks: 0,
            post_state_hash,
        }
    }

    /// Publishes a first receipt: retains `request` with `transition` and the transition's
    /// post generation, together with the transition's presentation part (its events and
    /// post snapshot), whose retained bytes the ledger measures itself (see [`spec_commit`]).
    /// Nothing is published unless everything is.
    pub fn commit(
        &mut self,
        request: LedgerRequest,
        transition: TransitionEnvelope,
        presentation: Presentation,
    ) -> (result: Result<TransitionEnvelope, SessionFault>)
        requires
            old(self)@.wf(),
        ensures
            final(self)@.wf(),
            (final(self)@, spec_published_view(result)) == spec_commit(
                old(self)@,
                request,
                transition@,
                presentation,
            ),
    {
        if self.closed {
            return Err(SessionFault::Closed);
        }
        match request.validate_structure(self.schema_version) {
            Err(fault) => return Err(fault),
            Ok(()) => {},
        }
        if self.entries.len() >= self.entry_limit {
            self.closed = true;
            return Err(SessionFault::ResourceLimit);
        }
        let measured = retained_presentation_bytes(&presentation);
        let entry_bytes = match retained_ledger_entry_bytes(&request, &transition, measured) {
            None => {
                self.closed = true;
                return Err(SessionFault::ResourceLimit);
            },
            Some(value) => value,
        };
        let next_bytes = match self.bytes.checked_add(entry_bytes) {
            None => {
                self.closed = true;
                return Err(SessionFault::ResourceLimit);
            },
            Some(value) => value,
        };
        if next_bytes > self.byte_limit {
            self.closed = true;
            return Err(SessionFault::ResourceLimit);
        }
        if self.find(request.key()).is_some() {
            self.closed = true;
            return Err(SessionFault::ContractInvariant);
        }
        let post = transition.post_snapshot_generation;
        if transition.command_id != *request.key() || !envelope_valid(&transition)
            || transition.pre_snapshot_generation != self.generation {
            self.closed = true;
            return Err(SessionFault::ContractInvariant);
        }
        let retained = transition.with_disposition(transition.disposition);
        let ghost before = self@;
        let entry = LedgerEntry { request, transition: retained, presentation };
        proof {
            assert(spec_entry_view(entry) == (request@, transition@, Some(entry_bytes)));
        }
        self.entries.push(entry);
        self.generation = post;
        self.bytes = next_bytes;
        proof {
            assert(self@.entries =~= before.entries.push((request@, transition@, Some(entry_bytes))));
            lemma_push_keeps_wf(before, request@, transition@, entry_bytes);
        }
        Ok(transition)
    }

    /// Records the refusal of a first receipt (a stale generation, or a gameplay refusal by
    /// the host) and returns it: the refusal transition committed as by [`Self::commit`].
    pub fn refuse(
        &mut self,
        request: LedgerRequest,
        reason: TransitionRejection,
        presentation_tick_rate: u32,
        post_state_hash: String,
        presentation: Presentation,
    ) -> (result: Result<TransitionEnvelope, SessionFault>)
        requires
            old(self)@.wf(),
        ensures
            final(self)@.wf(),
            (final(self)@, spec_published_view(result)) == spec_commit(
                old(self)@,
                request,
                spec_rejection(
                    old(self)@.generation,
                    request@,
                    reason,
                    presentation_tick_rate,
                    post_state_hash@,
                ),
                presentation,
            ),
    {
        let transition = self.rejection(&request, reason, presentation_tick_rate, post_state_hash);
        self.commit(request, transition, presentation)
    }

    /// Publishes a resolution the host accepted (see [`spec_accept`]): `mutated` says whether
    /// the match changed, `last_event_tick` is the presentation tick of the last event, and
    /// `presentation` the events and post snapshot the host derived.
    pub fn accept(
        &mut self,
        request: LedgerRequest,
        mutated: bool,
        last_event_tick: Option<u32>,
        presentation_tick_rate: u32,
        post_state_hash: String,
        presentation: Presentation,
    ) -> (result: Result<TransitionEnvelope, SessionFault>)
        requires
            old(self)@.wf(),
        ensures
            final(self)@.wf(),
            (final(self)@, spec_published_view(result)) == spec_accept(
                old(self)@,
                request,
                mutated,
                last_event_tick,
                presentation_tick_rate,
                post_state_hash@,
                presentation,
            ),
    {
        if self.closed {
            return Err(SessionFault::Closed);
        }
        let post = match self.next_generation(mutated) {
            Ok(generation) => generation,
            Err(fault) => return Err(fault),
        };
        let schema_version = match &request {
            LedgerRequest::Client(command) => command.schema_version,
            LedgerRequest::Authority(timeout) => timeout.schema_version,
        };
        let transition = TransitionEnvelope {
            schema_version,
            command_id: request.key().clone(),
            disposition: TransitionDisposition::Accepted,
            rejection_reason: None,
            pre_snapshot_generation: self.generation,
            post_snapshot_generation: post,
            presentation_tick_rate,
            input_lock_ticks: input_lock_ticks(last_event_tick),
            post_state_hash,
        };
        self.commit(request, transition, presentation)
    }

    /// The generation a resolved request publishes: the next one when it mutated the match,
    /// the current one otherwise. Advancing past `u64::MAX` closes the ledger.
    pub fn next_generation(&mut self, mutated: bool) -> (result: Result<u64, SessionFault>)
        requires
            old(self)@.wf(),
        ensures
            final(self)@.wf(),
            !mutated ==> result == Ok::<u64, SessionFault>(old(self)@.generation) && final(self)@
                == old(self)@,
            mutated && old(self)@.generation < u64::MAX ==> result == Ok::<u64, SessionFault>(
                (old(self)@.generation + 1) as u64,
            ) && final(self)@ == old(self)@,
            mutated && old(self)@.generation == u64::MAX ==> result == Err::<u64, SessionFault>(
                SessionFault::GenerationExhausted,
            ) && final(self)@ == old(self)@.closing(),
    {
        if !mutated {
            return Ok(self.generation);
        }
        if self.generation == u64::MAX {
            self.closed = true;
            return Err(SessionFault::GenerationExhausted);
        }
        Ok(self.generation + 1)
    }
}

/// A retained request replays its first result: receiving the exact request retained at
/// position `i` of an open ledger returns that entry's transition marked as a replay, and
/// changes nothing, however far the ledger has advanced since.
pub proof fn lemma_retained_request_replays(ledger: LedgerView, i: int)
    requires
        ledger.wf(),
        !ledger.closed,
        0 <= i < ledger.entries.len(),
    ensures
        spec_receive(ledger, ledger.entries[i].0) == (
            ledger,
            Ok::<ReceiptView, SessionFault>(
                ReceiptView::Replay(
                    EnvelopeView {
                        disposition: TransitionDisposition::DuplicateReplay,
                        ..ledger.entries[i].1
                    },
                ),
            ),
        ),
{
    lemma_index_of_unique(ledger.entries, ledger.entries[i].0.key(), i);
}

/// A successful commit keeps every earlier entry where it was, appends exactly the committed
/// request and transition, keeps the invariant, and publishes the current generation or the
/// next one; a failed commit changes nothing but, unless the ledger was already closed,
/// closes it.
pub proof fn lemma_commit_is_atomic(
    ledger: LedgerView,
    request: LedgerRequest,
    transition: EnvelopeView,
    presentation: Presentation,
)
    requires
        ledger.wf(),
    ensures
        ({
            let (after, result) = spec_commit(ledger, request, transition, presentation);
            &&& after.wf()
            &&& result is Ok ==> {
                &&& after.entries.len() == ledger.entries.len() + 1
                &&& after.entries.take(ledger.entries.len() as int) == ledger.entries
                &&& after.entries.last().0 == request@
                &&& after.entries.last().1 == transition
                &&& after.generation == ledger.generation || after.generation == ledger.generation
                    + 1
                &&& result == Ok::<EnvelopeView, SessionFault>(transition)
            }
            &&& result is Err ==> after == ledger || after == ledger.closing()
        }),
{
    let (after, result) = spec_commit(ledger, request, transition, presentation);
    if result is Ok {
        assert(after.entries.take(ledger.entries.len() as int) =~= ledger.entries);
        match spec_entry_bytes(request, transition, spec_presentation_bytes(presentation)) {
            Some(entry_bytes) => {
                lemma_push_keeps_wf(ledger, request@, transition, entry_bytes);
            },
            None => {},
        }
    }
}

/// Receiving never records or publishes anything: the entries, the byte total and the
/// generation stay as they were, and the only possible change is closing a full ledger.
pub proof fn lemma_receive_records_nothing(ledger: LedgerView, request: RequestView)
    requires
        ledger.wf(),
    ensures
        ({
            let (after, result) = spec_receive(ledger, request);
            &&& after.wf()
            &&& after == ledger || (after == ledger.closing() && result
                == Err::<ReceiptView, SessionFault>(SessionFault::ResourceLimit))
        }),
{
}

/// A closed ledger is inert: every receive and every commit is refused as closed and changes
/// nothing.
pub proof fn lemma_closed_ledger_is_inert(
    ledger: LedgerView,
    request: LedgerRequest,
    transition: EnvelopeView,
    presentation: Presentation,
)
    requires
        ledger.closed,
    ensures
        spec_receive(ledger, request@) == (ledger, Err::<ReceiptView, SessionFault>(
            SessionFault::Closed,
        )),
        spec_commit(ledger, request, transition, presentation) == (ledger, Err::<
            EnvelopeView,
            SessionFault,
        >(SessionFault::Closed)),
{
}

} // verus!

//! Pieces of the transport-free match session boundary: the normalized command union and
//! the authority's timeout action, their deterministic retained-byte accounting, and the
//! terrain diff a client repaints after an action.

use crate::error::SimError;
use crate::match_setup::{is_valid_match_local_id, spec_valid_match_local_id, MAX_PLAYER_ID_BYTES};
use crate::terrain::TerrainMask;
use crate::types::{AbilitySlot, SimulationState};
use vstd::prelude::*;
use vstd::utf8::encode_utf8;

verus! {

/// Maximum canonical request/response bytes retained by one live session (64 MiB), in the
/// logical-byte measure of [`retained_command_bytes`].
pub const COMMAND_LEDGER_BYTE_LIMIT: u64 = 64 * 1024 * 1024;

/// Bytes of the canonical encoding header and domain separator carried by every top-level
/// retained request or response.
pub const RETAINED_TOP_LEVEL_HEADER_BYTES: u64 = 4 + 2;

/// One closed, normalized command submitted to a match session. Typed equality is the
/// request's identity, so wire formatting can never affect idempotency.
#[derive(Debug, Clone, PartialEq, Eq)]
pub struct MatchCommand {
    /// Client-contract schema version used to interpret this command.
    pub schema_version: u32,
    /// Deterministic match-unique idempotency key.
    pub command_id: String,
    /// Claimed actor, validated against the active player.
    pub player_id: String,
    /// Turn number observed when the command was constructed.
    pub expected_turn_number: u32,
    /// Session snapshot generation observed when the command was constructed.
    pub expected_snapshot_generation: u64,
    /// Closed gameplay intent and its bounded payload.
    pub kind: MatchCommandKind,
}

/// Closed gameplay command kinds accepted from a client.
#[derive(Debug, Clone, PartialEq, Eq)]
pub enum MatchCommandKind {
    /// Move horizontally by a fixed-point delta, bounded by the authoritative allowance.
    Move {
        /// Requested signed fixed-point horizontal displacement.
        dx: i32,
    },
    /// Commit one character ability.
    Ability {
        /// Character ability slot.
        slot: AbilitySlot,
        /// Launch angle in integer millidegrees.
        angle_millidegrees: i32,
        /// Launch power in basis points.
        power_basis_points: i32,
        /// Optional primary player target.
        target_player_id: Option<String>,
        /// Optional secondary player target.
        secondary_target_player_id: Option<String>,
    },
    /// Resolve the one-time passive selection interrupt.
    PassiveChoice {
        /// Stable passive definition identifier.
        passive_id: String,
    },
    /// End the active turn without attacking.
    Pass,
}

/// A turn ended by the authority because its planning deadline expired. It is deliberately
/// not a client command kind: no client bytes decode into it, yet it shares the session
/// ledger's idempotency key space.
#[derive(Debug, Clone, PartialEq, Eq)]
pub struct AuthorityTimeout {
    /// Client-contract schema version used to interpret this action.
    pub schema_version: u32,
    /// Deterministic match-unique idempotency key, sharing the client command id space.
    pub action_id: String,
    /// The player whose turn is being ended, validated against the active player.
    pub player_id: String,
    /// Turn number the authority observed when the deadline expired.
    pub expected_turn_number: u32,
    /// Session snapshot generation the authority observed when the deadline expired.
    pub expected_snapshot_generation: u64,
}

/// Whether `byte` may appear in a definition identifier: a lowercase ASCII letter, a digit, or
/// `-`.
pub open spec fn spec_definition_byte_allowed(byte: u8) -> bool {
    ||| 0x30 <= byte <= 0x39
    ||| 0x61 <= byte <= 0x7A
    ||| byte == 0x2D
}

/// Whether `bytes` form a definition identifier: non-empty, at most
/// [`MAX_PLAYER_ID_BYTES`] long, lowercase letters, digits and `-` only.
pub open spec fn spec_valid_definition_id(bytes: Seq<u8>) -> bool {
    &&& 0 < bytes.len() <= MAX_PLAYER_ID_BYTES
    &&& forall|i: int| 0 <= i < bytes.len() ==> spec_definition_byte_allowed(#[trigger] bytes[i])
}

/// Whether `id` is a definition identifier (see [`spec_valid_definition_id`]).
pub fn is_valid_definition_id(id: &str) -> (valid: bool)
    ensures
        valid == spec_valid_definition_id(encode_utf8(id@)),
{
    let bytes = id.as_bytes();
    if bytes.len() == 0 || bytes.len() > MAX_PLAYER_ID_BYTES {
        return false;
    }
    let mut i: usize = 0;
    while i < bytes.len()
        invariant
            i <= bytes@.len(),
            bytes@ == encode_utf8(id@),
            forall|j: int| 0 <= j < i ==> spec_definition_byte_allowed(#[trigger] bytes@[j]),
        decreases bytes@.len() - i,
    {
        let byte = bytes[i];
        if !((0x30 <= byte && byte <= 0x39) || (0x61 <= byte && byte <= 0x7A) || byte == 0x2D) {
            return false;
        }
        i = i + 1;
    }
    true
}

/// Whether an optional identifier is absent or a match-local identifier.
pub open spec fn spec_optional_id_valid(id: Option<Seq<char>>) -> bool {
    match id {
        None => true,
        Some(text) => spec_valid_match_local_id(encode_utf8(text)),
    }
}

fn optional_id_valid(id: &Option<String>) -> (valid: bool)
    ensures
        valid == spec_optional_id_valid(spec_optional_view(*id)),
{
    match id {
        None => true,
        Some(text) => is_valid_match_local_id(text.as_str()),
    }
}

/// The structural check of a command against the schema this build implements: the schema
/// first, then the command id, the player id, and the kind's own identifiers.
pub open spec fn spec_command_structure(command: MatchCommand, supported_schema: u32) -> Result<
    (),
    SessionFault,
> {
    if command.schema_version != supported_schema {
        Err(SessionFault::UnsupportedSchema { expected: supported_schema, actual: command.schema_version })
    } else if !spec_valid_match_local_id(encode_utf8(command.command_id@)) {
        Err(SessionFault::InvalidCommand { field: "command id" })
    } else if !spec_valid_match_local_id(encode_utf8(command.player_id@)) {
        Err(SessionFault::InvalidCommand { field: "player id" })
    } else {
        match command.kind {
            MatchCommandKind::Ability { target_player_id, secondary_target_player_id, .. } => if
            !spec_optional_id_valid(spec_optional_view(target_player_id)) || !spec_optional_id_valid(
                spec_optional_view(secondary_target_player_id),
            ) {
                Err(SessionFault::InvalidCommand { field: "target player id" })
            } else {
                Ok(())
            },
            MatchCommandKind::PassiveChoice { passive_id } => if !spec_valid_definition_id(
                encode_utf8(passive_id@),
            ) {
                Err(SessionFault::InvalidCommand { field: "passive id" })
            } else {
                Ok(())
            },
            _ => Ok(()),
        }
    }
}

/// The structural check of an authority timeout: the schema, then the action id and the
/// player id.
pub open spec fn spec_timeout_structure(timeout: AuthorityTimeout, supported_schema: u32) -> Result<
    (),
    SessionFault,
> {
    if timeout.schema_version != supported_schema {
        Err(SessionFault::UnsupportedSchema { expected: supported_schema, actual: timeout.schema_version })
    } else if !spec_valid_match_local_id(encode_utf8(timeout.action_id@)) {
        Err(SessionFault::InvalidCommand { field: "action_id" })
    } else if !spec_valid_match_local_id(encode_utf8(timeout.player_id@)) {
        Err(SessionFault::InvalidCommand { field: "player_id" })
    } else {
        Ok(())
    }
}

impl MatchCommand {
    /// Refuses a command whose schema is not `supported_schema` (the client-contract version
    /// this build implements) or whose identifiers are malformed (see
    /// [`spec_command_structure`]).
    pub fn validate_structure(&self, supported_schema: u32) -> (result: Result<(), SessionFault>)
        ensures
            result == spec_command_structure(*self, supported_schema),
    {
        if self.schema_version != supported_schema {
            return Err(
                SessionFault::UnsupportedSchema {
                    expected: supported_schema,
                    actual: self.schema_version,
                },
            );
        }
        if !is_valid_match_local_id(self.command_id.as_str()) {
            return Err(SessionFault::InvalidCommand { field: "command id" });
        }
        if !is_valid_match_local_id(self.player_id.as_str()) {
            return Err(SessionFault::InvalidCommand { field: "player id" });
        }
        match &self.kind {
            MatchCommandKind::Ability { target_player_id, secondary_target_player_id, .. } => {
                if !optional_id_valid(target_player_id) || !optional_id_valid(
                    secondary_target_player_id,
                ) {
                    return Err(SessionFault::InvalidCommand { field: "target player id" });
                }
            },
            MatchCommandKind::PassiveChoice { passive_id } => {
                if !is_valid_definition_id(passive_id.as_str()) {
                    return Err(SessionFault::InvalidCommand { field: "passive id" });
                }
            },
            _ => {},
        }
        Ok(())
    }
}

impl AuthorityTimeout {
    /// Refuses a timeout whose schema is not `supported_schema` or whose identifiers are
    /// malformed (see [`spec_timeout_structure`]).
    pub fn validate_structure(&self, supported_schema: u32) -> (result: Result<(), SessionFault>)
        ensures
            result == spec_timeout_structure(*self, supported_schema),
    {
        if self.schema_version != supported_schema {
            return Err(
                SessionFault::UnsupportedSchema {
                    expected: supported_schema,
                    actual: self.schema_version,
                },
            );
        }
        if !is_valid_match_local_id(self.action_id.as_str()) {
            return Err(SessionFault::InvalidCommand { field: "action_id" });
        }
        if !is_valid_match_local_id(self.player_id.as_str()) {
            return Err(SessionFault::InvalidCommand { field: "player_id" });
        }
        Ok(())
    }
}

/// One read-only ability-guide request. It has no command id and so can never enter the
/// idempotency ledger.
#[derive(Debug, Clone, PartialEq, Eq)]
pub struct AbilityPreviewRequest {
    /// Client-contract schema version used to interpret this request.
    pub schema_version: u32,
    /// Session generation the guide was constructed against.
    pub expected_snapshot_generation: u64,
    /// Opaque player requesting the guide.
    pub player_id: String,
    /// Ability slot to inspect.
    pub slot: AbilitySlot,
    /// Fixed-point launch angle in millidegrees.
    pub angle_millidegrees: i32,
    /// Launch power in basis points.
    pub power_basis_points: i32,
    /// Optional primary target selection.
    pub target_player_id: Option<String>,
    /// Optional secondary target selection.
    pub secondary_target_player_id: Option<String>,
}

/// The structural check of a preview request: the schema, the player id, then each present
/// target id.
pub open spec fn spec_preview_structure(request: AbilityPreviewRequest, supported_schema: u32) -> Result<
    (),
    SessionFault,
> {
    if request.schema_version != supported_schema {
        Err(SessionFault::UnsupportedSchema { expected: supported_schema, actual: request.schema_version })
    } else if !spec_valid_match_local_id(encode_utf8(request.player_id@)) {
        Err(SessionFault::InvalidCommand { field: "player id" })
    } else if !spec_optional_id_valid(spec_optional_view(request.target_player_id))
        || !spec_optional_id_valid(spec_optional_view(request.secondary_target_player_id)) {
        Err(SessionFault::InvalidCommand { field: "target player id" })
    } else {
        Ok(())
    }
}

impl AbilityPreviewRequest {
    /// Refuses a preview whose schema is not `supported_schema` or whose identifiers are
    /// malformed (see [`spec_preview_structure`]).
    pub fn validate_structure(&self, supported_schema: u32) -> (result: Result<(), SessionFault>)
        ensures
            result == spec_preview_structure(*self, supported_schema),
    {
        if self.schema_version != supported_schema {
            return Err(
                SessionFault::UnsupportedSchema {
                    expected: supported_schema,
                    actual: self.schema_version,
                },
            );
        }
        if !is_valid_match_local_id(self.player_id.as_str()) {
            return Err(SessionFault::InvalidCommand { field: "player id" });
        }
        if !optional_id_valid(&self.target_player_id) || !optional_id_valid(
            &self.secondary_target_player_id,
        ) {
            return Err(SessionFault::InvalidCommand { field: "target player id" });
        }
        Ok(())
    }
}

/// Whether a string's UTF-8 length fits the four-byte length prefix.
pub open spec fn spec_string_fits(text: Seq<char>) -> bool {
    encode_utf8(text).len() <= u32::MAX
}

/// Retained bytes of a string: a four-byte length, then its UTF-8 bytes.
pub open spec fn spec_string_bytes(text: Seq<char>) -> int {
    4 + encode_utf8(text).len() as int
}

/// Whether an optional string's text fits its length prefix.
pub open spec fn spec_optional_fits(text: Option<Seq<char>>) -> bool {
    match text {
        None => true,
        Some(value) => spec_string_fits(value),
    }
}

/// Retained bytes of an optional string: a one-byte presence flag, then the string if any.
pub open spec fn spec_optional_bytes(text: Option<Seq<char>>) -> int {
    match text {
        None => 1,
        Some(value) => 1 + spec_string_bytes(value),
    }
}

/// An optional string viewed as its characters.
pub open spec fn spec_optional_view(text: Option<String>) -> Option<Seq<char>> {
    match text {
        None => None,
        Some(value) => Some(value@),
    }
}

/// Whether every string of a command kind fits its length prefix.
pub open spec fn spec_kind_fits(kind: MatchCommandKind) -> bool {
    match kind {
        MatchCommandKind::Ability { target_player_id, secondary_target_player_id, .. } =>
            spec_optional_fits(spec_optional_view(target_player_id)) && spec_optional_fits(
            spec_optional_view(secondary_target_player_id),
        ),
        MatchCommandKind::PassiveChoice { passive_id } => spec_string_fits(passive_id@),
        _ => true,
    }
}

/// Retained bytes of a command kind's payload after its one-byte tag.
pub open spec fn spec_kind_bytes(kind: MatchCommandKind) -> int {
    match kind {
        MatchCommandKind::Move { .. } => 4,
        MatchCommandKind::Ability { target_player_id, secondary_target_player_id, .. } => 1 + 4 + 4
            + spec_optional_bytes(spec_optional_view(target_player_id)) + spec_optional_bytes(
            spec_optional_view(secondary_target_player_id),
        ),
        MatchCommandKind::PassiveChoice { passive_id } => spec_string_bytes(passive_id@),
        MatchCommandKind::Pass => 0,
    }
}

/// The retained-byte measure of a command: the header, the fixed-width fields at their wire
/// widths, each string as a length and its bytes, and the tagged kind. `None` when a string
/// is too long for its prefix or the total does not fit in `u64`.
pub open spec fn spec_retained_command_bytes(command: MatchCommand) -> Option<u64> {
    let total = RETAINED_TOP_LEVEL_HEADER_BYTES + 4 + spec_string_bytes(command.command_id@)
        + spec_string_bytes(command.player_id@) + 4 + 8 + 1 + spec_kind_bytes(command.kind);
    if spec_string_fits(command.command_id@) && spec_string_fits(command.player_id@)
        && spec_kind_fits(command.kind) && total <= u64::MAX {
        Some(total as u64)
    } else {
        None
    }
}

/// The retained-byte measure of an authority timeout, laid out like a command without a
/// kind.
pub open spec fn spec_retained_timeout_bytes(timeout: AuthorityTimeout) -> Option<u64> {
    let total = RETAINED_TOP_LEVEL_HEADER_BYTES + 4 + spec_string_bytes(timeout.action_id@)
        + spec_string_bytes(timeout.player_id@) + 4 + 8;
    if spec_string_fits(timeout.action_id@) && spec_string_fits(timeout.player_id@) && total
        <= u64::MAX {
        Some(total as u64)
    } else {
        None
    }
}

/// A running count of retained logical bytes; every addition is checked.
pub(crate) struct RetainedByteCounter {
    pub(crate) bytes: u64,
}

impl RetainedByteCounter {
    /// Adds `bytes`, or reports that the total no longer fits (the counter is then spent).
    pub(crate) fn add(&mut self, bytes: u64) -> (added: bool)
        ensures
            added <==> old(self).bytes + bytes <= u64::MAX,
            added ==> final(self).bytes == old(self).bytes + bytes,
    {
        if self.bytes > u64::MAX - bytes {
            return false;
        }
        self.bytes = self.bytes + bytes;
        true
    }

    /// Adds a string: its length as four bytes, then its bytes. Refused when the length does
    /// not fit in `u32` or the total overflows.
    pub(crate) fn string(&mut self, text: &str) -> (added: bool)
        ensures
            added <==> spec_string_fits(text@) && old(self).bytes + spec_string_bytes(text@)
                <= u64::MAX,
            added ==> final(self).bytes == old(self).bytes + spec_string_bytes(text@),
    {
        let length = text.as_bytes().len();
        if length > 4294967295 {
            return false;
        }
        if !self.add(4) {
            return false;
        }
        self.add(length as u64)
    }

    /// Adds an optional string: a one-byte presence flag, then the string if present.
    fn optional_string(&mut self, text: &Option<String>) -> (added: bool)
        ensures
            added <==> spec_optional_fits(spec_optional_view(*text)) && old(self).bytes
                + spec_optional_bytes(spec_optional_view(*text)) <= u64::MAX,
            added ==> final(self).bytes == old(self).bytes + spec_optional_bytes(
                spec_optional_view(*text),
            ),
    {
        if !self.add(1) {
            return false;
        }
        match text {
            None => true,
            Some(value) => self.string(value.as_str()),
        }
    }
}

/// The retained logical bytes of `command` (see [`spec_retained_command_bytes`]): the
/// measure the session ledger charges against [`COMMAND_LEDGER_BYTE_LIMIT`], independent of
/// allocator capacity and platform word size.
pub fn retained_command_bytes(command: &MatchCommand) -> (bytes: Option<u64>)
    ensures
        bytes == spec_retained_command_bytes(*command),
{
    let mut counter = RetainedByteCounter { bytes: 0 };
    if !counter.add(RETAINED_TOP_LEVEL_HEADER_BYTES) || !counter.add(4) || !counter.string(
        command.command_id.as_str(),
    ) || !counter.string(command.player_id.as_str()) || !counter.add(4) || !counter.add(8)
        || !counter.add(1) {
        return None;
    }
    let added = match &command.kind {
        MatchCommandKind::Move { .. } => counter.add(4),
        MatchCommandKind::Ability { target_player_id, secondary_target_player_id, .. } => {
            counter.add(1) && counter.add(4) && counter.add(4) && counter.optional_string(
                target_player_id,
            ) && counter.optional_string(secondary_target_player_id)
        },
        MatchCommandKind::PassiveChoice { passive_id } => counter.string(passive_id.as_str()),
        MatchCommandKind::Pass => true,
    };
    if !added {
        return None;
    }
    Some(counter.bytes)
}

/// The retained logical bytes of an authority timeout (see [`spec_retained_timeout_bytes`]).
pub fn retained_authority_timeout_bytes(timeout: &AuthorityTimeout) -> (bytes: Option<u64>)
    ensures
        bytes == spec_retained_timeout_bytes(*timeout),
{
    let mut counter = RetainedByteCounter { bytes: 0 };
    if !counter.add(RETAINED_TOP_LEVEL_HEADER_BYTES) || !counter.add(4) || !counter.string(
        timeout.action_id.as_str(),
    ) || !counter.string(timeout.player_id.as_str()) || !counter.add(4) || !counter.add(8) {
        return None;
    }
    Some(counter.bytes)
}

/// A non-gameplay failure at the session boundary.
#[derive(Debug, Clone, Copy, PartialEq, Eq)]
pub enum SessionFault {
    /// A typed command still violated a normalized-field constraint.
    InvalidCommand {
        /// Stable field label suitable for adapter diagnostics.
        field: &'static str,
    },
    /// The command schema is not the contract this build implements.
    UnsupportedSchema {
        /// Schema supported by this build.
        expected: u32,
        /// Schema supplied by the caller.
        actual: u32,
    },
    /// The authoritative simulation returned an internal fallible error.
    Simulation(SimError),
    /// Retaining another first result would cross a session resource limit.
    ResourceLimit,
    /// The publication generation reached `u64::MAX` and cannot advance safely.
    GenerationExhausted,
    /// A supposedly impossible mismatch was found between host, snapshot and outcome.
    ContractInvariant,
    /// A prior terminal fault closed the session; only disposal is valid afterwards.
    Closed,
}

/// Inclusive-origin rectangle in authoritative terrain-cell coordinates.
#[derive(Debug, Clone, Copy, PartialEq, Eq, PartialOrd, Ord, Hash, Structural)]
pub struct CellRectangle {
    /// Leftmost cell coordinate.
    pub x: i32,
    /// Topmost cell coordinate.
    pub y: i32,
    /// Width in cells; always positive for emitted rectangles.
    pub width: u32,
    /// Height in cells; always positive for emitted rectangles.
    pub height: u32,
}

/// The runs after changed cell `(x, y)` is visited: it extends the last run when that run
/// ends just left of it on the same row, and starts a new one-cell run otherwise. A
/// coordinate or a run width past `i32::MAX` cannot be reported (`None`).
pub open spec fn spec_extend_runs(runs: Seq<CellRectangle>, x: int, y: int) -> Option<Seq<CellRectangle>> {
    if x > i32::MAX || y > i32::MAX {
        None
    } else if runs.len() > 0 && runs.last().width > i32::MAX {
        None
    } else if runs.len() > 0 && runs.last().y == y && runs.last().x + runs.last().width == x {
        Some(
            runs.update(
                runs.len() - 1,
                CellRectangle { width: (runs.last().width + 1) as u32, ..runs.last() },
            ),
        )
    } else {
        Some(runs.push(CellRectangle { x: x as i32, y: y as i32, width: 1, height: 1 }))
    }
}

/// The row runs of changed cells among the first `n` cells of two row-major grids of
/// `width` columns, in cell order.
pub open spec fn spec_dirty_runs(before: Seq<u8>, after: Seq<u8>, width: int, n: int) -> Option<
    Seq<CellRectangle>,
>
    decreases n,
{
    if n <= 0 {
        Some(Seq::empty())
    } else {
        match spec_dirty_runs(before, after, width, n - 1) {
            None => None,
            Some(runs) => if before[n - 1] == after[n - 1] {
                Some(runs)
            } else {
                spec_extend_runs(runs, (n - 1) % width, (n - 1) / width)
            },
        }
    }
}

/// The dirty rectangles between two terrain masks: a contract fault when their dimensions
/// differ, a cell list does not hold exactly `width * height` cells, or a run cannot be
/// reported; otherwise the changed-cell row runs in row-major order.
pub open spec fn spec_terrain_dirty_rectangles(previous: TerrainMask, current: TerrainMask) -> Result<
    Seq<CellRectangle>,
    SessionFault,
> {
    let count = previous.width * previous.height;
    if previous.width != current.width || previous.height != current.height {
        Err(SessionFault::ContractInvariant)
    } else if count > usize::MAX || previous.cells@.len() != count || current.cells@.len() != count {
        Err(SessionFault::ContractInvariant)
    } else {
        match spec_dirty_runs(previous.cells@, current.cells@, previous.width as int, count) {
            None => Err(SessionFault::ContractInvariant),
            Some(runs) => Ok(runs),
        }
    }
}

/// Once the runs cannot be reported, no longer prefix can report them either.
proof fn lemma_dirty_runs_stays_none(before: Seq<u8>, after: Seq<u8>, width: int, m: int, n: int)
    requires
        m <= n,
        spec_dirty_runs(before, after, width, m) is None,
    ensures
        spec_dirty_runs(before, after, width, n) is None,
    decreases n - m,
{
    if m < n {
        lemma_dirty_runs_stays_none(before, after, width, m, n - 1);
    }
}

/// Whether rectangle `r` covers cell `(x, y)`.
pub open spec fn spec_covers(r: CellRectangle, x: int, y: int) -> bool {
    r.y == y && r.x <= x < r.x + r.width
}

/// Row-major order on cells: `(x1, y1)` comes strictly before `(x2, y2)`.
pub open spec fn spec_cell_before(x1: int, y1: int, x2: int, y2: int) -> bool {
    y1 < y2 || (y1 == y2 && x1 < x2)
}

/// The shape facts of the runs over the first `n` cells of a `width`-column grid: every run
/// is one row high, at least one cell wide and inside the columns, every run ends before
/// cell `n`, the runs come in row-major order, and no run could absorb its successor.
pub open spec fn spec_runs_shaped(runs: Seq<CellRectangle>, width: int, n: int) -> bool {
    &&& forall|i: int|
        0 <= i < runs.len() ==> #[trigger] runs[i].height == 1 && runs[i].width >= 1 && 0
            <= runs[i].x && runs[i].x + runs[i].width <= width && 0 <= runs[i].y
    &&& forall|i: int| #![trigger runs[i]]
        0 <= i < runs.len() ==> spec_cell_before(
            runs[i].x + runs[i].width - 1,
            runs[i].y as int,
            n % width,
            n / width,
        )
    &&& forall|i: int, j: int| #![trigger runs[i], runs[j]]
        0 <= i < j < runs.len() ==> spec_cell_before(
            runs[i].x + runs[i].width - 1,
            runs[i].y as int,
            runs[j].x as int,
            runs[j].y as int,
        )
    &&& forall|i: int|
        0 <= i < runs.len() - 1 ==> !(#[trigger] runs[i].y == runs[i + 1].y && runs[i].x
            + runs[i].width == runs[i + 1].x)
}

/// Whether some run covers the cell of index `k`.
pub open spec fn spec_some_run_covers(runs: Seq<CellRectangle>, width: int, k: int) -> bool {
    exists|i: int| 0 <= i < runs.len() && #[trigger] spec_covers(runs[i], k % width, k / width)
}

proof fn lemma_cell_order(width: int, a: int, b: int)
    requires
        width > 0,
        0 <= a < b,
    ensures
        spec_cell_before(a % width, a / width, b % width, b / width),
        0 <= a % width < width,
        0 <= b % width < width,
        0 <= a / width,
{
    assert(a == width * (a / width) + a % width && 0 <= a % width < width) by (nonlinear_arith)
        requires
            width > 0,
    ;
    assert(b == width * (b / width) + b % width && 0 <= b % width < width) by (nonlinear_arith)
        requires
            width > 0,
    ;
    assert(0 <= a / width) by (nonlinear_arith)
        requires
            width > 0,
            a >= 0,
    ;
    assert(a / width <= b / width) by (nonlinear_arith)
        requires
            width > 0,
            a < b,
    ;
    if a / width == b / width {
        assert(a % width < b % width) by (nonlinear_arith)
            requires
                a == width * (a / width) + a % width,
                b == width * (b / width) + b % width,
                a / width == b / width,
                a < b,
        ;
    }
}

proof fn lemma_cell_unique(width: int, a: int, b: int)
    requires
        width > 0,
        0 <= a,
        0 <= b,
        a / width == b / width,
        a % width == b % width,
    ensures
        a == b,
{
    assert(a == width * (a / width) + a % width) by (nonlinear_arith)
        requires
            width > 0,
    ;
    assert(b == width * (b / width) + b % width) by (nonlinear_arith)
        requires
            width > 0,
    ;
}

/// The runs over every prefix are shaped, and cover a cell of the prefix exactly when it
/// changed.
#[verifier::spinoff_prover]
#[verifier::rlimit(30)]
proof fn lemma_dirty_runs_exact(before: Seq<u8>, after: Seq<u8>, width: int, n: int)
    requires
        width > 0,
        0 <= n <= before.len(),
        before.len() == after.len(),
        spec_dirty_runs(before, after, width, n) is Some,
    ensures
        spec_runs_shaped(spec_dirty_runs(before, after, width, n)->Some_0, width, n),
        forall|k: int|
            0 <= k < n ==> (before[k] != after[k] <==> #[trigger] spec_some_run_covers(
                spec_dirty_runs(before, after, width, n)->Some_0,
                width,
                k,
            )),
    decreases n,
{
    if n > 0 {
        let m = n - 1;
        lemma_dirty_runs_exact(before, after, width, m);
        let runs = spec_dirty_runs(before, after, width, m)->Some_0;
        let next = spec_dirty_runs(before, after, width, n)->Some_0;
        let x = m % width;
        let y = m / width;
        lemma_cell_order(width, m, n);
        assert forall|i: int| 0 <= i < runs.len() implies !spec_covers(#[trigger] runs[i], x, y) by {
            assert(spec_cell_before(runs[i].x + runs[i].width - 1, runs[i].y as int, x, y));
        }
        if before[m] == after[m] {
            assert(next == runs);
            assert(spec_runs_shaped(runs, width, m));
            assert forall|i: int| #![trigger next[i]] 0 <= i < next.len() implies spec_cell_before(
                next[i].x + next[i].width - 1,
                next[i].y as int,
                n % width,
                n / width,
            ) by {
                assert(spec_cell_before(next[i].x + next[i].width - 1, next[i].y as int, x, y));
            }
            assert forall|k: int| 0 <= k < n implies (before[k] != after[k]
                <==> #[trigger] spec_some_run_covers(next, width, k)) by {
                if k == m {
                    if spec_some_run_covers(next, width, k) {
                        let i = choose|i: int|
                            0 <= i < next.len() && #[trigger] spec_covers(
                                next[i],
                                k % width,
                                k / width,
                            );
                        assert(!spec_covers(runs[i], x, y));
                    }
                }
            }
        } else {
            let extend = runs.len() > 0 && runs.last().y == y && runs.last().x + runs.last().width
                == x;
            if extend {
                let last = runs.len() - 1;
                assert(next == runs.update(
                    last,
                    CellRectangle { width: (runs.last().width + 1) as u32, ..runs.last() },
                ));
                assert(next[last].width == runs[last].width + 1);
                assert forall|i: int| 0 <= i < next.len() implies #[trigger] next[i].height == 1
                    && next[i].width >= 1 && 0 <= next[i].x && next[i].x + next[i].width <= width
                    && 0 <= next[i].y by {
                    if i < last {
                        assert(next[i] == runs[i]);
                    }
                }
                assert forall|i: int| #![trigger next[i]] 0 <= i < next.len() implies spec_cell_before(
                    next[i].x + next[i].width - 1,
                    next[i].y as int,
                    n % width,
                    n / width,
                ) by {
                    if i < last {
                        assert(next[i] == runs[i]);
                        assert(spec_cell_before(runs[i].x + runs[i].width - 1, runs[i].y as int, x, y));
                    }
                }
                assert forall|i: int, j: int| #![trigger next[i], next[j]] 0 <= i < j < next.len() implies spec_cell_before(
                    next[i].x + next[i].width - 1,
                    next[i].y as int,
                    next[j].x as int,
                    next[j].y as int,
                ) by {
                    assert(next[i] == runs[i]);
                    assert(spec_cell_before(runs[i].x + runs[i].width - 1, runs[i].y as int, runs[j].x as int, runs[j].y as int));
                }
                assert forall|i: int| 0 <= i < next.len() - 1 implies !(#[trigger] next[i].y
                    == next[i + 1].y && next[i].x + next[i].width == next[i + 1].x) by {
                    assert(next[i] == runs[i]);
                    assert(next[i + 1].x == runs[i + 1].x && next[i + 1].y == runs[i + 1].y as int);
                }
                assert forall|k: int| 0 <= k < n implies (before[k] != after[k]
                    <==> #[trigger] spec_some_run_covers(next, width, k)) by {
                    if k == m {
                        assert(spec_covers(next[last], k % width, k / width));
                    } else {
                        if k % width == x && k / width == y {
                            lemma_cell_unique(width, k, m);
                        }
                        if spec_some_run_covers(runs, width, k) {
                            let i = choose|i: int|
                                0 <= i < runs.len() && #[trigger] spec_covers(
                                    runs[i],
                                    k % width,
                                    k / width,
                                );
                            assert(spec_covers(next[i], k % width, k / width));
                        }
                        if spec_some_run_covers(next, width, k) {
                            let i = choose|i: int|
                                0 <= i < next.len() && #[trigger] spec_covers(
                                    next[i],
                                    k % width,
                                    k / width,
                                );
                            assert(spec_covers(runs[i], k % width, k / width));
                        }
                    }
                }
            } else {
                let fresh = CellRectangle { x: x as i32, y: y as i32, width: 1, height: 1 };
                assert(next == runs.push(fresh));
                assert forall|i: int| 0 <= i < next.len() implies #[trigger] next[i].height == 1
                    && next[i].width >= 1 && 0 <= next[i].x && next[i].x + next[i].width <= width
                    && 0 <= next[i].y by {
                    if i < runs.len() {
                        assert(next[i] == runs[i]);
                    }
                }
                assert forall|i: int| #![trigger next[i]] 0 <= i < next.len() implies spec_cell_before(
                    next[i].x + next[i].width - 1,
                    next[i].y as int,
                    n % width,
                    n / width,
                ) by {
                    if i < runs.len() {
                        assert(next[i] == runs[i]);
                        assert(spec_cell_before(runs[i].x + runs[i].width - 1, runs[i].y as int, x, y));
                    }
                }
                assert forall|i: int, j: int| #![trigger next[i], next[j]] 0 <= i < j < next.len() implies spec_cell_before(
                    next[i].x + next[i].width - 1,
                    next[i].y as int,
                    next[j].x as int,
                    next[j].y as int,
                ) by {
                    assert(next[i] == runs[i]);
                    if j < runs.len() {
                        assert(next[j] == runs[j]);
                    } else {
                        assert(spec_cell_before(runs[i].x + runs[i].width - 1, runs[i].y as int, x, y));
                    }
                }
                assert forall|i: int| 0 <= i < next.len() - 1 implies !(#[trigger] next[i].y
                    == next[i + 1].y && next[i].x + next[i].width == next[i + 1].x) by {
                    assert(next[i] == runs[i]);
                    if i + 1 < runs.len() {
                        assert(next[i + 1] == runs[i + 1]);
                    }
                }
                assert forall|k: int| 0 <= k < n implies (before[k] != after[k]
                    <==> #[trigger] spec_some_run_covers(next, width, k)) by {
                    if k == m {
                        assert(spec_covers(next[runs.len() as int], k % width, k / width));
                    } else {
                        if k % width == x && k / width == y {
                            lemma_cell_unique(width, k, m);
                        }
                        if spec_some_run_covers(runs, width, k) {
                            let i = choose|i: int|
                                0 <= i < runs.len() && #[trigger] spec_covers(
                                    runs[i],
                                    k % width,
                                    k / width,
                                );
                            assert(spec_covers(next[i], k % width, k / width));
                        }
                        if spec_some_run_covers(next, width, k) {
                            let i = choose|i: int|
                                0 <= i < next.len() && #[trigger] spec_covers(
                                    next[i],
                                    k % width,
                                    k / width,
                                );
                            if i < runs.len() {
                                assert(spec_covers(runs[i], k % width, k / width));
                            }
                        }
                    }
                }
            }
        }
    }
}

/// The dirty rectangles are exactly the changed cells' row runs: each is one row high, at
/// least one cell wide and inside the grid; a cell is covered by some rectangle exactly when
/// it changed; the rectangles come in row-major order without overlap; and no rectangle
/// could be merged with the next.
#[verifier::spinoff_prover]
pub proof fn lemma_dirty_rectangles_exact(previous: TerrainMask, current: TerrainMask)
    requires
        spec_terrain_dirty_rectangles(previous, current) is Ok,
    ensures
        ({
            let runs = spec_terrain_dirty_rectangles(previous, current)->Ok_0;
            let width = previous.width as int;
            &&& forall|i: int|
                0 <= i < runs.len() ==> #[trigger] runs[i].height == 1 && runs[i].width >= 1 && 0
                    <= runs[i].x && runs[i].x + runs[i].width <= width && 0 <= runs[i].y
                    < previous.height
            &&& forall|k: int|
                0 <= k < previous.cells@.len() ==> (previous.cells@[k] != current.cells@[k]
                    <==> #[trigger] spec_some_run_covers(runs, width, k))
            &&& forall|i: int, j: int| #![trigger runs[i], runs[j]]
                0 <= i < j < runs.len() ==> spec_cell_before(
                    runs[i].x + runs[i].width - 1,
                    runs[i].y as int,
                    runs[j].x as int,
                    runs[j].y as int,
                )
            &&& forall|i: int|
                0 <= i < runs.len() - 1 ==> !(#[trigger] runs[i].y == runs[i + 1].y && runs[i].x
                    + runs[i].width == runs[i + 1].x)
        }),
{
    let count = previous.width * previous.height;
    let width = previous.width as int;
    if count > 0 {
        assert(width > 0) by (nonlinear_arith)
            requires
                count == width * previous.height,
                count > 0,
                previous.height >= 0,
                width >= 0,
        ;
        lemma_dirty_runs_exact(previous.cells@, current.cells@, width, count);
        let runs = spec_terrain_dirty_rectangles(previous, current)->Ok_0;
        assert(count / width == previous.height && count % width == 0) by (nonlinear_arith)
            requires
                count == width * previous.height,
                width > 0,
        ;
        assert forall|i: int| #![trigger runs[i]] 0 <= i < runs.len() implies runs[i].y < previous.height by {
            assert(spec_cell_before(runs[i].x + runs[i].width - 1, runs[i].y as int, count % width, count / width));
        }
    }
}

/// How many cells the mask of `state` must hold, when that fits in `usize`.
fn terrain_cell_count(state: &SimulationState) -> (count: Result<usize, SessionFault>)
    ensures
        ({
            let cells = state.terrain.width * state.terrain.height;
            match count {
                Ok(n) => cells <= usize::MAX && n == cells,
                Err(fault) => cells > usize::MAX && fault == SessionFault::ContractInvariant,
            }
        }),
{
    let width: u64 = state.terrain.width as u64;
    let height: u64 = state.terrain.height as u64;
    assert(width * height <= 0xFFFF_FFFF * 0xFFFF_FFFF) by (nonlinear_arith)
        requires
            width <= 0xFFFF_FFFF,
            height <= 0xFFFF_FFFF,
    ;
    let cells: u64 = width * height;
    if cells > usize::MAX as u64 {
        return Err(SessionFault::ContractInvariant);
    }
    Ok(cells as usize)
}

/// The terrain cells changed between `previous` and `current`, as row runs of height one in
/// row-major order (see [`spec_terrain_dirty_rectangles`]).
pub fn terrain_dirty_rectangles(previous: &SimulationState, current: &SimulationState) -> (result:
    Result<Vec<CellRectangle>, SessionFault>)
    ensures
        match result {
            Ok(rectangles) => spec_terrain_dirty_rectangles(previous.terrain, current.terrain) == Ok::<
                Seq<CellRectangle>,
                SessionFault,
            >(rectangles@),
            Err(fault) => spec_terrain_dirty_rectangles(previous.terrain, current.terrain) == Err::<
                Seq<CellRectangle>,
                SessionFault,
            >(fault),
        },
{
    let before = &previous.terrain;
    let after = &current.terrain;
    if before.width != after.width || before.height != after.height {
        return Err(SessionFault::ContractInvariant);
    }
    let expected_len = match terrain_cell_count(previous) {
        Err(fault) => {
            return Err(fault);
        },
        Ok(count) => count,
    };
    if before.cells.len() != expected_len || after.cells.len() != expected_len {
        return Err(SessionFault::ContractInvariant);
    }
    let width: usize = before.width as usize;
    let ghost w: int = before.width as int;
    let mut rectangles: Vec<CellRectangle> = Vec::new();
    let mut index: usize = 0;
    while index < expected_len
        invariant
            index <= expected_len,
            *before == previous.terrain,
            *after == current.terrain,
            before.width == after.width,
            before.height == after.height,
            expected_len == before.cells@.len(),
            expected_len == after.cells@.len(),
            expected_len == before.width * before.height,
            width == w,
            w == before.width,
            spec_dirty_runs(before.cells@, after.cells@, w, index as int) == Some(rectangles@),
        decreases expected_len - index,
    {
        let ghost runs = rectangles@;
        if before.cells[index] != after.cells[index] {
            assert(w > 0) by (nonlinear_arith)
                requires
                    index < expected_len,
                    expected_len == w * before.height,
                    before.height >= 0,
                    w >= 0,
            ;
            let x_index = index % width;
            let y_index = index / width;
            if x_index > 2147483647 || y_index > 2147483647 {
                assert(spec_dirty_runs(before.cells@, after.cells@, w, index + 1) is None);
                proof {
                    lemma_dirty_runs_stays_none(
                        before.cells@,
                        after.cells@,
                        w,
                        index + 1,
                        expected_len as int,
                    );
                }
                return Err(SessionFault::ContractInvariant);
            }
            let x: i32 = x_index as i32;
            let y: i32 = y_index as i32;
            let count = rectangles.len();
            let mut extended = false;
            if count > 0 {
                let last = rectangles[count - 1];
                if last.width > 2147483647 {
                    assert(spec_dirty_runs(before.cells@, after.cells@, w, index + 1) is None);
                    proof {
                        lemma_dirty_runs_stays_none(
                            before.cells@,
                            after.cells@,
                            w,
                            index + 1,
                            expected_len as int,
                        );
                    }
                    return Err(SessionFault::ContractInvariant);
                }
                if last.y == y && last.x as i64 + last.width as i64 == x as i64 {
                    rectangles.set(count - 1, CellRectangle { width: last.width + 1, ..last });
                    extended = true;
                }
            }
            if !extended {
                rectangles.push(CellRectangle { x, y, width: 1, height: 1 });
            }
            assert(spec_extend_runs(runs, index as int % w, index as int / w) == Some(rectangles@));
        }
        index = index + 1;
    }
    Ok(rectangles)
}

} // verus!

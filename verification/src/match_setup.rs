//! Roster limits, the scheduler model and the opaque match-local identifier alphabet that
//! match construction and the session boundary share.

use crate::error::{SimError, SimResult};
use vstd::prelude::*;
use vstd::utf8::encode_utf8;

verus! {

/// Minimum supported roster size for the turn-based mode.
pub const MIN_MATCH_PLAYERS: usize = 2;

/// Maximum supported roster size for the first playable mode.
pub const MAX_MATCH_PLAYERS: usize = 4;

/// Maximum byte length of an opaque match-local ASCII identifier.
pub const MAX_PLAYER_ID_BYTES: usize = 64;

/// The scheduler model selected for a match. Only the turn-based one exists; naming it keeps
/// a later mode from silently reinterpreting an old match envelope.
#[derive(Debug, Clone, Copy, PartialEq, Eq, Structural)]
pub enum MatchMode {
    /// One active player plans and commits an action at a time.
    TurnBased,
}

/// Whether `byte` may appear in a match-local identifier: an ASCII letter or digit, or one
/// of `-`, `_`, `.` and `:`.
pub open spec fn spec_id_byte_allowed(byte: u8) -> bool {
    ||| 0x30 <= byte <= 0x39
    ||| 0x41 <= byte <= 0x5A
    ||| 0x61 <= byte <= 0x7A
    ||| byte == 0x2D
    ||| byte == 0x5F
    ||| byte == 0x2E
    ||| byte == 0x3A
}

/// Whether `bytes` form a match-local identifier: non-empty, at most
/// [`MAX_PLAYER_ID_BYTES`] long, and made of allowed bytes only.
pub open spec fn spec_valid_match_local_id(bytes: Seq<u8>) -> bool {
    &&& 0 < bytes.len() <= MAX_PLAYER_ID_BYTES
    &&& forall|i: int| 0 <= i < bytes.len() ==> spec_id_byte_allowed(#[trigger] bytes[i])
}

fn id_byte_allowed(byte: u8) -> (allowed: bool)
    ensures
        allowed == spec_id_byte_allowed(byte),
{
    (0x30 <= byte && byte <= 0x39) || (0x41 <= byte && byte <= 0x5A) || (0x61 <= byte && byte
        <= 0x7A) || byte == 0x2D || byte == 0x5F || byte == 0x2E || byte == 0x3A
}

/// Whether `id` satisfies the shared match-local opaque identifier contract. Player ids and
/// command ids use the same bounded alphabet, so adapters cannot disagree about which bytes
/// are safe to retain and echo.
pub fn is_valid_match_local_id(id: &str) -> (valid: bool)
    ensures
        valid == spec_valid_match_local_id(encode_utf8(id@)),
{
    let bytes = id.as_bytes();
    if bytes.len() == 0 || bytes.len() > MAX_PLAYER_ID_BYTES {
        return false;
    }
    let mut i: usize = 0;
    while i < bytes.len()
        invariant
            i <= bytes@.len(),
            bytes@ == encode_utf8(id@),
            forall|j: int| 0 <= j < i ==> spec_id_byte_allowed(#[trigger] bytes@[j]),
        decreases bytes@.len() - i,
    {
        if !id_byte_allowed(bytes[i]) {
            return false;
        }
        i = i + 1;
    }
    true
}

/// The three item definitions a player brings.
#[derive(Debug)]
pub struct Loadout {
    pub main: String,
    pub secondary: String,
    pub melee_tool: String,
}

/// A player's cosmetic selection.
#[derive(Debug)]
pub struct Appearance {
    pub skin_id: String,
    pub ability_skin_ids: Vec<String>,
    pub victory_pose_id: String,
}

/// One lobby seat of a match configuration.
#[derive(Debug)]
pub struct MatchPlayerConfig {
    pub player_id: String,
    pub team: u8,
    pub loadout: Loadout,
    pub appearance: Appearance,
}

/// Whether an item identifier is legal in a loadout: non-empty and free of NUL.
pub open spec fn spec_item_id_legal(bytes: Seq<u8>) -> bool {
    &&& bytes.len() > 0
    &&& forall|i: int| 0 <= i < bytes.len() ==> #[trigger] bytes[i] != 0
}

/// Whether all three loadout identifiers are legal.
pub open spec fn spec_loadout_legal(loadout: Loadout) -> bool {
    &&& spec_item_id_legal(encode_utf8(loadout.main@))
    &&& spec_item_id_legal(encode_utf8(loadout.secondary@))
    &&& spec_item_id_legal(encode_utf8(loadout.melee_tool@))
}

fn item_id_legal(id: &String) -> (legal: bool)
    ensures
        legal == spec_item_id_legal(encode_utf8(id@)),
{
    let bytes = id.as_str().as_bytes();
    if bytes.len() == 0 {
        return false;
    }
    let mut i: usize = 0;
    while i < bytes.len()
        invariant
            i <= bytes@.len(),
            bytes@ == encode_utf8(id@),
            forall|j: int| 0 <= j < i ==> #[trigger] bytes@[j] != 0,
        decreases bytes@.len() - i,
    {
        if bytes[i] == 0 {
            return false;
        }
        i = i + 1;
    }
    true
}

/// Whether a loadout's identifiers are legal (see [`spec_loadout_legal`]).
pub fn loadout_ids_are_legal(loadout: &Loadout) -> (legal: bool)
    ensures
        legal == spec_loadout_legal(*loadout),
{
    item_id_legal(&loadout.main) && item_id_legal(&loadout.secondary) && item_id_legal(
        &loadout.melee_tool,
    )
}

/// The fault of seat `i`, given the seats before it: a malformed id or one an earlier seat
/// already took; then an illegal loadout; then a loadout the character data does not
/// resolve (`resolved[i]` false).
pub open spec fn spec_seat_fault(players: Seq<MatchPlayerConfig>, resolved: Seq<bool>, i: int) -> Option<
    SimError,
> {
    if !spec_valid_match_local_id(encode_utf8(players[i].player_id@)) || exists|j: int|
        0 <= j < i && (#[trigger] players[j]).player_id@ == players[i].player_id@ {
        Some(SimError::OutOfRange { field: "player id" })
    } else if !spec_loadout_legal(players[i].loadout) {
        Some(SimError::OutOfRange { field: "loadout" })
    } else if !resolved[i] {
        Some(SimError::UnknownDefinition)
    } else {
        None
    }
}

/// The fault of the first faulty seat among the first `n`, in lobby order.
pub open spec fn spec_roster_fault(players: Seq<MatchPlayerConfig>, resolved: Seq<bool>, n: int) -> Option<
    SimError,
>
    decreases n,
{
    if n <= 0 {
        None
    } else {
        match spec_roster_fault(players, resolved, n - 1) {
            Some(error) => Some(error),
            None => spec_seat_fault(players, resolved, n - 1),
        }
    }
}

/// Whether the roster seats at least two teams.
pub open spec fn spec_has_opponents(players: Seq<MatchPlayerConfig>) -> bool {
    exists|i: int, j: int|
        0 <= i < players.len() && 0 <= j < players.len() && (#[trigger] players[i]).team != (
        #[trigger] players[j]).team
}

/// The roster check: the first faulty seat's error, else a team-count error unless two
/// teams are seated.
pub open spec fn spec_validate_roster(players: Seq<MatchPlayerConfig>, resolved: Seq<bool>) -> SimResult<
    (),
> {
    match spec_roster_fault(players, resolved, players.len() as int) {
        Some(error) => Err(error),
        None => if spec_has_opponents(players) {
            Ok(())
        } else {
            Err(SimError::OutOfRange { field: "team count" })
        },
    }
}

/// Validates a lobby roster (see [`spec_validate_roster`]): every seat has a well-formed,
/// unique id and a legal loadout that the character data resolves, and at least two teams
/// are seated. `resolved[i]` is whether the character data resolves seat `i`'s loadout.
pub fn validate_roster(players: &Vec<MatchPlayerConfig>, resolved: &Vec<bool>) -> (result:
    SimResult<()>)
    requires
        players.len() == resolved.len(),
    ensures
        result == spec_validate_roster(players@, resolved@),
{
    let mut i: usize = 0;
    while i < players.len()
        invariant
            i <= players.len() == resolved.len(),
            spec_roster_fault(players@, resolved@, i as int) is None,
        decreases players.len() - i,
    {
        let player = &players[i];
        let mut valid = is_valid_match_local_id(player.player_id.as_str());
        let mut j: usize = 0;
        while j < i
            invariant
                j <= i < players.len(),
                player == players@[i as int],
                valid == (spec_valid_match_local_id(encode_utf8(player.player_id@)) && forall|k: int|
                    0 <= k < j ==> (#[trigger] players@[k]).player_id@ != player.player_id@),
            decreases i - j,
        {
            if players[j].player_id == player.player_id {
                valid = false;
            }
            j = j + 1;
        }
        let fault = if !valid {
            Some(SimError::OutOfRange { field: "player id" })
        } else if !loadout_ids_are_legal(&player.loadout) {
            Some(SimError::OutOfRange { field: "loadout" })
        } else if !resolved[i] {
            Some(SimError::UnknownDefinition)
        } else {
            None
        };
        proof {
            assert(fault == spec_seat_fault(players@, resolved@, i as int));
        }
        match fault {
            Some(error) => {
                proof {
                    lemma_roster_fault_persists(players@, resolved@, i as int + 1, players@.len() as int);
                }
                return Err(error);
            },
            None => {},
        }
        i = i + 1;
    }
    if players.len() == 0 {
        return Err(SimError::OutOfRange { field: "team count" });
    }
    let first_team = players[0].team;
    let mut k: usize = 1;
    while k < players.len()
        invariant
            1 <= k <= players.len(),
            first_team == players@[0].team,
            players.len() == resolved.len(),
            spec_roster_fault(players@, resolved@, players@.len() as int) is None,
            forall|m: int| 0 <= m < k ==> (#[trigger] players@[m]).team == first_team,
        decreases players.len() - k,
    {
        if players[k].team != first_team {
            proof {
                assert(players@[0].team != players@[k as int].team);
            }
            return Ok(());
        }
        k = k + 1;
    }
    proof {
        assert forall|a: int, b: int|
            0 <= a < players@.len() && 0 <= b < players@.len() implies (#[trigger] players@[a]).team
            == (#[trigger] players@[b]).team by {
            assert(players@[a].team == first_team);
            assert(players@[b].team == first_team);
        }
    }
    Err(SimError::OutOfRange { field: "team count" })
}

/// A fault found among the first `m` seats is the first among any longer prefix.
proof fn lemma_roster_fault_persists(players: Seq<MatchPlayerConfig>, resolved: Seq<bool>, m: int, n: int)
    requires
        0 <= m <= n,
        spec_roster_fault(players, resolved, m) is Some,
    ensures
        spec_roster_fault(players, resolved, n) == spec_roster_fault(players, resolved, m),
    decreases n - m,
{
    if n > m {
        lemma_roster_fault_persists(players, resolved, m, n - 1);
    }
}

/// The roster-size check of match creation: between [`MIN_MATCH_PLAYERS`] and
/// [`MAX_MATCH_PLAYERS`] seats, else a player-count error.
pub fn validate_player_count(count: usize) -> (result: SimResult<()>)
    ensures
        result == if MIN_MATCH_PLAYERS <= count <= MAX_MATCH_PLAYERS {
            Ok::<(), SimError>(())
        } else {
            Err(SimError::OutOfRange { field: "player count" })
        },
{
    if count < MIN_MATCH_PLAYERS || count > MAX_MATCH_PLAYERS {
        return Err(SimError::OutOfRange { field: "player count" });
    }
    Ok(())
}

} // verus!

//! The authoritative match-state vocabulary shared by every resolver.

use crate::fixed::FixedPoint;
use crate::terrain::{TerrainMask, TerrainOperation};
use vstd::prelude::*;

verus! {

/// Reference attack value that percent-based damage is measured against.
pub const BASE_ATTACK: i32 = 100;

/// Every special-effect behavior an ability may carry.
///
/// The derived order is the canonical order of a player's status list.
#[derive(Debug, Clone, Copy, PartialEq, Eq, PartialOrd, Ord, Hash, Structural)]
pub enum EffectKind {
    /// Radial displacement away from the impact.
    Knockback,
    /// Radial displacement away from the impact (read as a shove).
    Push,
    /// Harpoon pull toward or onto the target.
    Pull,
    /// Displaces the actor away from the impact.
    Recoil,
    /// Bonus damage to targets driven into terrain.
    WallImpact,
    /// Relocates the actor.
    Teleport,
    /// Throws one character onto another.
    Relocate,
    /// Spawns a line-of-sight-blocking cloud.
    Obscure,
    /// Spawns an owned turret.
    SpawnTurret,
    /// Embeds a persistent knife.
    EmbedProjectile,
    /// Detonates chains of embedded knives.
    ChainDetonate,
    /// Reduces the victim's next movement allowance.
    Chill,
    /// Marks units near the impact with a burning status.
    Embers,
    /// Prevents movement and displacement.
    Lockdown,
    /// Repeats the attack several times.
    MultiStrike,
    /// Forces the next attacks to crit.
    GuaranteeCrit,
    /// Splits into submunitions.
    Cluster,
    /// Outbound-and-return path hitting twice.
    Return,
    /// Bores through soft terrain.
    Tunnel,
    /// Restores health.
    Heal,
    /// Moves health from one player to another.
    HealthTransfer,
    /// Damages the actor.
    SelfDamage,
}

/// Canonical rank of an effect kind (its declaration position).
pub open spec fn spec_kind_rank(kind: EffectKind) -> int {
    match kind {
        EffectKind::Knockback => 0,
        EffectKind::Push => 1,
        EffectKind::Pull => 2,
        EffectKind::Recoil => 3,
        EffectKind::WallImpact => 4,
        EffectKind::Teleport => 5,
        EffectKind::Relocate => 6,
        EffectKind::Obscure => 7,
        EffectKind::SpawnTurret => 8,
        EffectKind::EmbedProjectile => 9,
        EffectKind::ChainDetonate => 10,
        EffectKind::Chill => 11,
        EffectKind::Embers => 12,
        EffectKind::Lockdown => 13,
        EffectKind::MultiStrike => 14,
        EffectKind::GuaranteeCrit => 15,
        EffectKind::Cluster => 16,
        EffectKind::Return => 17,
        EffectKind::Tunnel => 18,
        EffectKind::Heal => 19,
        EffectKind::HealthTransfer => 20,
        EffectKind::SelfDamage => 21,
    }
}

/// Distinct kinds have distinct ranks.
pub proof fn lemma_kind_rank_injective(a: EffectKind, b: EffectKind)
    ensures
        spec_kind_rank(a) == spec_kind_rank(b) <==> a == b,
{
}

impl EffectKind {
    /// Canonical rank of this kind (its declaration position).
    pub fn rank(self) -> (rank: u8)
        ensures
            rank as int == spec_kind_rank(self),
    {
        match self {
            EffectKind::Knockback => 0,
            EffectKind::Push => 1,
            EffectKind::Pull => 2,
            EffectKind::Recoil => 3,
            EffectKind::WallImpact => 4,
            EffectKind::Teleport => 5,
            EffectKind::Relocate => 6,
            EffectKind::Obscure => 7,
            EffectKind::SpawnTurret => 8,
            EffectKind::EmbedProjectile => 9,
            EffectKind::ChainDetonate => 10,
            EffectKind::Chill => 11,
            EffectKind::Embers => 12,
            EffectKind::Lockdown => 13,
            EffectKind::MultiStrike => 14,
            EffectKind::GuaranteeCrit => 15,
            EffectKind::Cluster => 16,
            EffectKind::Return => 17,
            EffectKind::Tunnel => 18,
            EffectKind::Heal => 19,
            EffectKind::HealthTransfer => 20,
            EffectKind::SelfDamage => 21,
        }
    }
}

/// A character's ability slot.
#[derive(Debug, Clone, Copy, PartialEq, Eq, Hash, Structural)]
pub enum AbilitySlot {
    /// The basic attack.
    Basic,
    /// The alternate basic attack.
    BasicAlt,
    /// The gauge-powered special.
    Special,
}

/// When an effect fires.
#[derive(Debug, Clone, Copy, PartialEq, Eq, Hash, Structural)]
pub enum EffectTrigger {
    /// As the ability is used.
    OnFire,
    /// When the attack lands.
    OnImpact,
}

/// One authored special effect attached to an ability.
#[derive(Debug, Clone, Copy, PartialEq, Eq, Hash, Structural)]
pub struct SpecialEffect {
    /// When it fires.
    pub trigger: EffectTrigger,
    /// What it does.
    pub kind: EffectKind,
    /// Primary magnitude; meaning depends on `kind`.
    pub magnitude: i32,
    /// Secondary magnitude; meaning depends on `kind`.
    pub magnitude_secondary: i32,
    /// Duration in turns, or a small per-kind parameter for instantaneous effects.
    pub duration_turns: u8,
}

/// A status attached to a player.
#[derive(Debug, Clone, Copy, PartialEq, Eq, Hash, Structural)]
pub struct StatusEffect {
    /// Which status.
    pub kind: EffectKind,
    /// Per-kind strength (for `GuaranteeCrit`, the remaining forced crits).
    pub magnitude: i32,
    /// Affected turns left.
    pub turns_remaining: u8,
}

/// One recorded step in a status's life.
#[derive(Debug, Clone, Copy, PartialEq, Eq, Hash, Structural)]
pub enum StatusTransition {
    /// Newly attached.
    Applied {
        /// Applied magnitude.
        magnitude: i32,
        /// Applied duration.
        turns_remaining: u8,
    },
    /// Reapplied over an existing status of the same kind, replacing it.
    Refreshed {
        /// New magnitude.
        magnitude: i32,
        /// New duration.
        turns_remaining: u8,
        /// Magnitude that was replaced.
        replaced_magnitude: i32,
        /// Duration that was replaced.
        replaced_turns_remaining: u8,
    },
    /// One charge of a count-based status was spent.
    ChargeConsumed {
        /// Charges left afterwards.
        remaining: i32,
    },
    /// Survived a turn boundary with this many turns left.
    Ticked {
        /// Turns left after the tick.
        turns_remaining: u8,
    },
    /// The last charge of a count-based status was spent and it was removed.
    Exhausted,
    /// Reached zero turns and was removed.
    Expired,
}

impl StatusTransition {
    /// Whether this transition removes the status from its player.
    pub open spec fn spec_removes_status(self) -> bool {
        self is Expired || self is Exhausted
    }

    /// Whether this transition removes the status from its player.
    pub fn removes_status(&self) -> (removes: bool)
        ensures
            removes == self.spec_removes_status(),
    {
        match self {
            StatusTransition::Expired | StatusTransition::Exhausted => true,
            _ => false,
        }
    }
}

/// A status transition and whom it happened to.
#[derive(Debug, Clone, PartialEq, Eq, Hash)]
pub struct StatusChange {
    /// Affected player.
    pub player_id: String,
    /// Which status.
    pub kind: EffectKind,
    /// What happened.
    pub transition: StatusTransition,
}

/// One character in the match.
#[derive(Debug, Clone, PartialEq, Eq, Hash)]
pub struct PlayerState {
    /// Match-unique identifier.
    pub id: String,
    /// Players sharing a team are allies.
    pub team: u8,
    /// Current health; zero means eliminated.
    pub health: u16,
    /// Health cap.
    pub max_health: u16,
    /// Feet position in fixed-point units.
    pub position: FixedPoint,
    /// Authored character identifier.
    pub character_id: String,
    /// Active statuses, kept sorted by kind with at most one per kind.
    pub statuses: Vec<StatusEffect>,
}

/// What a player says, with its strings as character sequences and statuses as a sequence.
pub struct PlayerView {
    /// Match-unique identifier.
    pub id: Seq<char>,
    /// Team.
    pub team: u8,
    /// Current health.
    pub health: u16,
    /// Health cap.
    pub max_health: u16,
    /// Feet position.
    pub position: FixedPoint,
    /// Authored character identifier.
    pub character_id: Seq<char>,
    /// Active statuses.
    pub statuses: Seq<StatusEffect>,
}

impl View for PlayerState {
    type V = PlayerView;

    open spec fn view(&self) -> PlayerView {
        PlayerView {
            id: self.id@,
            team: self.team,
            health: self.health,
            max_health: self.max_health,
            position: self.position,
            character_id: self.character_id@,
            statuses: self.statuses@,
        }
    }
}

/// The views of a roster.
pub open spec fn spec_player_views(players: Seq<PlayerState>) -> Seq<PlayerView> {
    players.map_values(|player: PlayerState| player@)
}

/// Index of the first player view whose id is `id`, if any.
pub open spec fn spec_find_view(players: Seq<PlayerView>, id: Seq<char>) -> Option<int>
    decreases players.len(),
{
    if players.len() == 0 {
        None
    } else {
        match spec_find_view(players.drop_last(), id) {
            Some(i) => Some(i),
            None => if players.last().id == id {
                Some(players.len() - 1)
            } else {
                None
            },
        }
    }
}

/// Finding a player by id agrees on a roster and on its views.
pub proof fn lemma_find_view(players: Seq<PlayerState>, id: Seq<char>)
    ensures
        spec_find_player(players, id) == spec_find_view(spec_player_views(players), id),
    decreases players.len(),
{
    if players.len() > 0 {
        lemma_find_view(players.drop_last(), id);
        assert(spec_player_views(players).drop_last() =~= spec_player_views(players.drop_last()));
    }
}

/// Two rosters with the same ids in the same order find the same index for every id.
pub proof fn lemma_find_view_same_ids(a: Seq<PlayerView>, b: Seq<PlayerView>, id: Seq<char>)
    requires
        a.len() == b.len(),
        forall|j: int| 0 <= j < a.len() ==> a[j].id == b[j].id,
    ensures
        spec_find_view(a, id) == spec_find_view(b, id),
    decreases a.len(),
{
    if a.len() > 0 {
        lemma_find_view_same_ids(a.drop_last(), b.drop_last(), id);
    }
}

impl PlayerState {
    /// Whether this player has been eliminated.
    pub open spec fn spec_is_eliminated(&self) -> bool {
        self.health == 0
    }

    /// Whether this player has been eliminated.
    pub fn is_eliminated(&self) -> (eliminated: bool)
        ensures
            eliminated == self.spec_is_eliminated(),
    {
        self.health == 0
    }
}

/// Kind of persistent world object.
#[derive(Debug, Clone, Copy, PartialEq, Eq, Hash, Structural)]
pub enum PersistentObjectKind {
    /// A destructible owned turret.
    Turret,
    /// A knife embedded in the world, waiting to chain.
    EmbeddedKnife,
    /// A line-of-sight-blocking cloud.
    GasCloud,
}

/// An object that outlives the action that created it.
#[derive(Debug, Clone, PartialEq, Eq, Hash)]
pub struct PersistentObject {
    /// Creation order; unique and increasing within a match.
    pub sequence: u32,
    /// Player who created it.
    pub owner_id: String,
    /// What it is.
    pub kind: PersistentObjectKind,
    /// Where it is.
    pub position: FixedPoint,
    /// Remaining health; zero removes it.
    pub health: u16,
    /// Turns left (`u8::MAX` never expires on its own).
    pub turns_remaining: u8,
}

/// What a persistent object says, with its owner's id as a character sequence.
pub struct ObjectView {
    /// Creation order.
    pub sequence: u32,
    /// Player who created it.
    pub owner_id: Seq<char>,
    /// What it is.
    pub kind: PersistentObjectKind,
    /// Where it is.
    pub position: FixedPoint,
    /// Remaining health.
    pub health: u16,
    /// Turns left.
    pub turns_remaining: u8,
}

impl View for PersistentObject {
    type V = ObjectView;

    open spec fn view(&self) -> ObjectView {
        ObjectView {
            sequence: self.sequence,
            owner_id: self.owner_id@,
            kind: self.kind,
            position: self.position,
            health: self.health,
            turns_remaining: self.turns_remaining,
        }
    }
}

/// Lifecycle step of a persistent object.
#[derive(Debug, Clone, Copy, PartialEq, Eq, Hash, Structural)]
pub enum PersistentObjectTransition {
    /// Entered the world.
    Spawned,
    /// Left the world.
    Removed,
}

/// A persistent-object lifecycle record.
#[derive(Debug, Clone, PartialEq, Eq, Hash)]
pub struct PersistentObjectChange {
    /// The object as of the transition.
    pub object: PersistentObject,
    /// What happened.
    pub transition: PersistentObjectTransition,
}

impl View for PersistentObjectChange {
    type V = (ObjectView, PersistentObjectTransition);

    open spec fn view(&self) -> (ObjectView, PersistentObjectTransition) {
        (self.object@, self.transition)
    }
}

/// Itemized effect of one action on one player.
#[derive(Debug, Clone, PartialEq, Eq, Hash)]
pub struct DamageEvent {
    /// Affected player.
    pub player_id: String,
    /// Direct-hit damage.
    pub direct: u16,
    /// Area damage.
    pub splash: u16,
    /// Damage reflected onto the actor.
    pub backlash: u16,
    /// Environmental damage.
    pub hazard: u16,
    /// Bonus damage from being driven into terrain.
    pub wall_impact: u16,
    /// Health restored.
    pub healed: u16,
    /// Whether any hit was critical.
    pub was_critical: bool,
    /// Net displacement applied.
    pub knockback: FixedPoint,
    /// Whether this action eliminated the player.
    pub eliminated: bool,
}

/// What a damage entry says, with its owner's id as a character sequence.
pub struct DamageView {
    /// Affected player.
    pub player_id: Seq<char>,
    /// Direct-hit damage.
    pub direct: u16,
    /// Area damage.
    pub splash: u16,
    /// Damage reflected onto the actor.
    pub backlash: u16,
    /// Environmental damage.
    pub hazard: u16,
    /// Bonus damage from being driven into terrain.
    pub wall_impact: u16,
    /// Health restored.
    pub healed: u16,
    /// Whether any hit was critical.
    pub was_critical: bool,
    /// Net displacement applied.
    pub knockback: FixedPoint,
    /// Whether this action eliminated the player.
    pub eliminated: bool,
}

impl View for DamageEvent {
    type V = DamageView;

    open spec fn view(&self) -> DamageView {
        DamageView {
            player_id: self.player_id@,
            direct: self.direct,
            splash: self.splash,
            backlash: self.backlash,
            hazard: self.hazard,
            wall_impact: self.wall_impact,
            healed: self.healed,
            was_critical: self.was_critical,
            knockback: self.knockback,
            eliminated: self.eliminated,
        }
    }
}

/// A public, bounded random result produced while resolving an action.
#[derive(Debug, Clone, PartialEq, Eq, Hash)]
pub enum RandomOutcome {
    /// The teleport target drawn for a chain strike.
    ArzumChainStrikeTeleportTarget {
        /// Eligible candidates.
        candidate_count: u32,
        /// Drawn index into the sorted candidates.
        selected_index: u32,
        /// Chosen player.
        target_player_id: String,
        /// Where the actor lands.
        destination: FixedPoint,
    },
    /// The point drawn for a radius teleport and its legal correction.
    AlephVeilstepTeleportPoint {
        /// Per-axis draw bound.
        axis_bound: u32,
        /// Last x draw.
        x_result: u32,
        /// Last y draw.
        y_result: u32,
        /// Whether every attempt missed and the center was used.
        fallback_used: bool,
        /// The drawn point before correction.
        drawn_point: FixedPoint,
        /// The legal landing point.
        destination: FixedPoint,
    },
}

/// Phase of the turn state machine.
#[derive(Debug, Clone, Copy, PartialEq, Eq, Hash, Structural)]
pub enum MatchPhase {
    /// Before the first turn.
    MatchIntro,
    /// Turn bookkeeping.
    TurnStart,
    /// A passive must be chosen.
    PassiveSelection,
    /// The active player may walk.
    Movement,
    /// The active player aims and selects.
    AimingAndSelection,
    /// A command has been committed.
    CommandLocked,
    /// The action resolves.
    Resolution,
    /// Gravity settles characters.
    Settling,
    /// Statuses tick.
    StatusResolution,
    /// Eliminations are evaluated.
    VictoryCheck,
    /// The match is over.
    MatchComplete,
}

/// Why a turn ended.
#[derive(Debug, Clone, Copy, PartialEq, Eq, Hash, Structural)]
pub enum TurnEndReason {
    /// The player passed.
    Passed,
    /// The player attacked.
    Attacked,
    /// The deadline expired.
    TimedOut,
    /// The player was eliminated.
    Eliminated,
}

/// Complete authoritative match state.
#[derive(Debug, Clone, PartialEq, Eq, Hash)]
pub struct SimulationState {
    /// Simulation rules version.
    pub simulation_version: u32,
    /// Authored content version.
    pub content_version: u32,
    /// Authority tick.
    pub tick: u64,
    /// Current turn number.
    pub turn_number: u32,
    /// Current phase.
    pub phase: MatchPhase,
    /// Whose turn it is.
    pub active_player_id: String,
    /// Wind acceleration per tick.
    pub wind_per_tick: i32,
    /// Horizontal walking allowance left this turn, in fixed-point units.
    pub movement_remaining: i32,
    /// Whether the active player has attacked.
    pub has_attacked_this_turn: bool,
    /// Destructible terrain.
    pub terrain: TerrainMask,
    /// Roster, sorted by id.
    pub players: Vec<PlayerState>,
    /// Persistent objects, sorted by sequence.
    pub objects: Vec<PersistentObject>,
    /// Command ids already applied.
    pub processed_command_ids: Vec<String>,
    /// Next terrain-operation sequence number.
    pub next_terrain_sequence: u32,
    /// Next persistent-object sequence number.
    pub next_object_sequence: u32,
    /// Seed-derived generator state.
    pub rng_state: u64,
    /// Why the current turn will end.
    pub pending_turn_end_reason: TurnEndReason,
    /// Why the previous turn ended.
    pub last_turn_end_reason: TurnEndReason,
}

/// Index of the first player in `players` whose id is `id`, if any.
pub open spec fn spec_find_player(players: Seq<PlayerState>, id: Seq<char>) -> Option<int>
    decreases players.len(),
{
    if players.len() == 0 {
        None
    } else {
        match spec_find_player(players.drop_last(), id) {
            Some(i) => Some(i),
            None => if players.last().id@ == id {
                Some(players.len() - 1)
            } else {
                None
            },
        }
    }
}

/// `spec_find_player` returns the first matching index, and `None` only when no id matches.
pub proof fn lemma_find_player(players: Seq<PlayerState>, id: Seq<char>)
    ensures
        spec_find_player(players, id) matches Some(i) ==> 0 <= i < players.len() && players[i].id@
            == id && forall|j: int| 0 <= j < i ==> players[j].id@ != id,
        spec_find_player(players, id) is None ==> forall|j: int|
            0 <= j < players.len() ==> players[j].id@ != id,
    decreases players.len(),
{
    if players.len() > 0 {
        let prefix = players.drop_last();
        lemma_find_player(prefix, id);
        assert forall|j: int| 0 <= j < prefix.len() implies prefix[j] == players[j] by {}
    }
}

/// The first matching index equals `i` when `i` matches and nothing before it does.
pub proof fn lemma_find_player_at(players: Seq<PlayerState>, id: Seq<char>, i: int)
    requires
        0 <= i < players.len(),
        players[i].id@ == id,
        forall|j: int| 0 <= j < i ==> players[j].id@ != id,
    ensures
        spec_find_player(players, id) == Some(i),
{
    lemma_find_player(players, id);
    match spec_find_player(players, id) {
        Some(k) => {
            if k < i {
            } else if k > i {
            }
        },
        None => {},
    }
}

impl SimulationState {
    /// Index of the player named `id`.
    pub open spec fn spec_player_index(&self, id: Seq<char>) -> Option<int> {
        spec_find_player(self.players@, id)
    }

    /// Index of the player named `id`, if present.
    pub fn player_index(&self, id: &str) -> (index: Option<usize>)
        ensures
            index matches Some(i) ==> self.spec_player_index(id@) == Some(i as int) && i
                < self.players@.len() && self.players@[i as int].id@ == id@,
            index is None ==> self.spec_player_index(id@) is None,
    {
        let key: String = id.to_owned();
        let mut i: usize = 0;
        while i < self.players.len()
            invariant
                i <= self.players.len(),
                key@ == id@,
                forall|j: int| 0 <= j < i ==> self.players[j].id@ != id@,
            decreases self.players.len() - i,
        {
            if self.players[i].id == key {
                proof {
                    lemma_find_player_at(self.players@, id@, i as int);
                }
                return Some(i);
            }
            i = i + 1;
        }
        proof {
            lemma_find_player(self.players@, id@);
            if spec_find_player(self.players@, id@) is Some {
                let k = spec_find_player(self.players@, id@).unwrap();
                assert(self.players[k].id@ == id@);
            }
        }
        None
    }

    /// The player named `id`, if present.
    pub fn player(&self, id: &str) -> (player: Option<&PlayerState>)
        ensures
            player matches Some(p) ==> self.spec_player_index(id@) matches Some(i) && *p
                == self.players[i],
            player is None ==> self.spec_player_index(id@) is None,
    {
        proof {
            lemma_find_player(self.players@, id@);
        }
        match self.player_index(id) {
            Some(i) => Some(&self.players[i]),
            None => None,
        }
    }
}

} // verus!

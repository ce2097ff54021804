//! The per-player stage of event derivation: what a client is told about each player by
//! comparing the snapshots around an action, with damage and eliminations attributed from
//! the action's own records.

use crate::match_session::SessionFault;
use crate::presentation::{
    ChangeProvenance, DamageBreakdown, EntityMovementCause, MatchSnapshot, PendingEvent,
    PendingEvents, PlayerSnapshot, PositionSnapshot, PresentationEventKind, StrikeResolution,
};
use crate::types::DamageEvent;
use vstd::prelude::*;

verus! {

// ---------------------------------------------------------------------------------------
// Attribution
// ---------------------------------------------------------------------------------------

/// Whether strike `strike` claims to have eliminated the player named `id`.
pub open spec fn spec_kills(strike: StrikeResolution, id: Seq<char>) -> bool {
    strike.target_player_id@ == id && strike.eliminated_target
}

/// The first of the first `n` strikes that claims the elimination of `id`, if any.
pub open spec fn spec_first_kill(strikes: Seq<StrikeResolution>, id: Seq<char>, n: int) -> Option<int>
    decreases n,
{
    if n <= 0 {
        None
    } else {
        match spec_first_kill(strikes, id, n - 1) {
            Some(k) => Some(k),
            None => if spec_kills(strikes[n - 1], id) {
                Some(n - 1)
            } else {
                None
            },
        }
    }
}

/// How many of the first `n` strikes claim the elimination of `id`.
pub open spec fn spec_kill_count(strikes: Seq<StrikeResolution>, id: Seq<char>, n: int) -> nat
    decreases n,
{
    if n <= 0 {
        0
    } else {
        spec_kill_count(strikes, id, n - 1) + if spec_kills(strikes[n - 1], id) {
            1nat
        } else {
            0nat
        }
    }
}

/// The first damage entry of `id` that records an elimination, if any.
pub open spec fn spec_first_fatal_damage(damage: Seq<DamageEvent>, id: Seq<char>, n: int) -> Option<
    int,
>
    decreases n,
{
    if n <= 0 {
        None
    } else {
        match spec_first_fatal_damage(damage, id, n - 1) {
            Some(k) => Some(k),
            None => if damage[n - 1].player_id@ == id && damage[n - 1].eliminated {
                Some(n - 1)
            } else {
                None
            },
        }
    }
}

/// Why the player named `id` was eliminated by an action of `owner_id`, whose ability (when
/// the action used one that the character data knows) is `ability_id`: without records, by
/// the authority; by the one strike that claims it (two such claims contradict each other);
/// otherwise by the kind of the first damage entry recording the elimination (backlash, wall
/// impact, splash, hazard, else the ability's effect), or by the authority when no entry
/// records it. Attribution to an ability needs the ability's id.
pub open spec fn spec_elimination_cause(
    owner_id: String,
    ability_id: Option<String>,
    records: Option<(Seq<StrikeResolution>, Seq<DamageEvent>)>,
    id: Seq<char>,
) -> Option<ChangeProvenance> {
    match records {
        None => Some(ChangeProvenance::AuthoritativeResolution),
        Some((strikes, damage)) => match spec_first_kill(strikes, id, strikes.len() as int) {
            Some(k) => if spec_kill_count(strikes, id, strikes.len() as int) > 1 {
                None
            } else {
                match ability_id {
                    None => None,
                    Some(ability_id) => Some(
                        ChangeProvenance::Strike {
                            owner_id,
                            ability_id,
                            strike_index: strikes[k].strike_index,
                        },
                    ),
                }
            },
            None => match spec_first_fatal_damage(damage, id, damage.len() as int) {
                None => Some(ChangeProvenance::AuthoritativeResolution),
                Some(d) => match ability_id {
                    None => None,
                    Some(ability_id) => {
                        let entry = damage[d];
                        if entry.backlash > 0 {
                            Some(ChangeProvenance::Backlash { owner_id, ability_id })
                        } else if entry.wall_impact > 0 {
                            Some(ChangeProvenance::WallImpact { owner_id, ability_id })
                        } else if entry.splash > 0 {
                            Some(ChangeProvenance::Splash { owner_id, ability_id })
                        } else if entry.hazard > 0 {
                            Some(ChangeProvenance::Hazard)
                        } else {
                            Some(ChangeProvenance::AbilityEffect { owner_id, ability_id })
                        }
                    },
                },
            },
        },
    }
}

proof fn lemma_first_kill_bounded(strikes: Seq<StrikeResolution>, id: Seq<char>, n: int)
    ensures
        spec_first_kill(strikes, id, n) matches Some(k) ==> 0 <= k < n,
    decreases n,
{
    if n > 0 {
        lemma_first_kill_bounded(strikes, id, n - 1);
    }
}

proof fn lemma_first_fatal_stays(damage: Seq<DamageEvent>, id: Seq<char>, m: int, n: int)
    requires
        0 <= m <= n,
    ensures
        spec_first_fatal_damage(damage, id, m) matches Some(k) ==> spec_first_fatal_damage(
            damage,
            id,
            n,
        ) == Some(k) && 0 <= k < m,
    decreases n,
{
    if n > m {
        lemma_first_fatal_stays(damage, id, m, n - 1);
    } else if n > 0 {
        lemma_first_fatal_stays(damage, id, n - 1, n - 1);
    }
}

/// Whether damage entry `entry` records the elimination of `id`.
pub open spec fn spec_fatal_for(entry: DamageEvent, id: Seq<char>) -> bool {
    entry.player_id@ == id && entry.eliminated
}

proof fn lemma_kill_facts(strikes: Seq<StrikeResolution>, id: Seq<char>, n: int)
    requires
        0 <= n <= strikes.len(),
    ensures
        spec_first_kill(strikes, id, n) is None <==> forall|j: int|
            0 <= j < n ==> !spec_kills(#[trigger] strikes[j], id),
        spec_first_kill(strikes, id, n) matches Some(k) ==> 0 <= k < n && spec_kills(strikes[k], id)
            && forall|j: int| 0 <= j < k ==> !spec_kills(#[trigger] strikes[j], id),
        spec_kill_count(strikes, id, n) >= 1 <==> spec_first_kill(strikes, id, n) is Some,
        spec_kill_count(strikes, id, n) > 1 <==> exists|a: int, b: int|
            0 <= a < b < n && spec_kills(#[trigger] strikes[a], id) && spec_kills(#[trigger] strikes[b], id),
    decreases n,
{
    if n > 0 {
        lemma_kill_facts(strikes, id, n - 1);
        if spec_kill_count(strikes, id, n) > 1 && spec_kill_count(strikes, id, n - 1) <= 1 {
            let k = spec_first_kill(strikes, id, n - 1)->0;
            assert(spec_kills(strikes[k], id) && spec_kills(strikes[n - 1], id));
        }
        if exists|a: int, b: int|
            0 <= a < b < n && spec_kills(#[trigger] strikes[a], id) && spec_kills(#[trigger] strikes[b], id) {
            let (a, b) = choose|a: int, b: int|
                0 <= a < b < n && spec_kills(#[trigger] strikes[a], id) && spec_kills(
                    #[trigger] strikes[b],
                    id,
                );
            if b < n - 1 {
                assert(spec_kill_count(strikes, id, n - 1) > 1);
            } else {
                assert(spec_first_kill(strikes, id, n - 1) is Some) by {
                    if spec_first_kill(strikes, id, n - 1) is None {
                        assert(!spec_kills(strikes[a], id));
                    }
                }
            }
        }
    }
}

proof fn lemma_fatal_facts(damage: Seq<DamageEvent>, id: Seq<char>, n: int)
    requires
        0 <= n <= damage.len(),
    ensures
        spec_first_fatal_damage(damage, id, n) is None <==> forall|j: int|
            0 <= j < n ==> !spec_fatal_for(#[trigger] damage[j], id),
        spec_first_fatal_damage(damage, id, n) matches Some(k) ==> 0 <= k < n && spec_fatal_for(damage[k], id)
            && forall|j: int| 0 <= j < k ==> !spec_fatal_for(#[trigger] damage[j], id),
    decreases n,
{
    if n > 0 {
        lemma_fatal_facts(damage, id, n - 1);
    }
}

/// The elimination attribution law. With no records the authority eliminated the player.
/// Otherwise: two strikes claiming the same elimination contradict each other; a single
/// claiming strike is the cause (attributed to the owner and the ability, which must be
/// known); with no claiming strike and no damage entry recording the elimination, the
/// authority is the cause; otherwise the first entry recording it decides by its kind —
/// backlash before wall impact before splash before hazard, else the ability's effect —
/// and every cause but hazard needs the ability to be known.
pub proof fn lemma_elimination_cause_law(
    owner_id: String,
    ability_id: Option<String>,
    strikes: Seq<StrikeResolution>,
    damage: Seq<DamageEvent>,
    id: Seq<char>,
)
    ensures
        spec_elimination_cause(owner_id, ability_id, None, id) == Some(
            ChangeProvenance::AuthoritativeResolution,
        ),
        ({
            let cause = spec_elimination_cause(owner_id, ability_id, Some((strikes, damage)), id);
            &&& (exists|a: int, b: int|
                0 <= a < b < strikes.len() && spec_kills(#[trigger] strikes[a], id) && spec_kills(
                    #[trigger] strikes[b],
                    id,
                )) ==> cause is None
            &&& forall|k: int|
                0 <= k < strikes.len() && spec_kills(#[trigger] strikes[k], id) && (forall|j: int|
                    0 <= j < strikes.len() && j != k ==> !spec_kills(strikes[j], id)) ==> cause
                    == match ability_id {
                    Some(ability) => Some(
                        ChangeProvenance::Strike {
                            owner_id,
                            ability_id: ability,
                            strike_index: strikes[k].strike_index,
                        },
                    ),
                    None => None,
                }
            &&& (forall|j: int| 0 <= j < strikes.len() ==> !spec_kills(#[trigger] strikes[j], id))
                && (forall|d: int| 0 <= d < damage.len() ==> !spec_fatal_for(#[trigger] damage[d], id))
                ==> cause == Some(ChangeProvenance::AuthoritativeResolution)
            &&& forall|d: int|
                0 <= d < damage.len() && spec_fatal_for(#[trigger] damage[d], id) && (forall|e: int|
                    0 <= e < d ==> !spec_fatal_for(damage[e], id)) && (forall|j: int|
                    0 <= j < strikes.len() ==> !spec_kills(strikes[j], id)) ==> {
                    let entry = damage[d];
                    match ability_id {
                        None => cause is None,
                        Some(ability) => {
                            &&& entry.backlash > 0 ==> cause == Some(
                                ChangeProvenance::Backlash { owner_id, ability_id: ability },
                            )
                            &&& entry.backlash == 0 && entry.wall_impact > 0 ==> cause == Some(
                                ChangeProvenance::WallImpact { owner_id, ability_id: ability },
                            )
                            &&& entry.backlash == 0 && entry.wall_impact == 0 && entry.splash > 0
                                ==> cause == Some(
                                ChangeProvenance::Splash { owner_id, ability_id: ability },
                            )
                            &&& entry.backlash == 0 && entry.wall_impact == 0 && entry.splash == 0
                                && entry.hazard > 0 ==> cause == Some(ChangeProvenance::Hazard)
                            &&& entry.backlash == 0 && entry.wall_impact == 0 && entry.splash == 0
                                && entry.hazard == 0 ==> cause == Some(
                                ChangeProvenance::AbilityEffect { owner_id, ability_id: ability },
                            )
                        },
                    }
                }
        }),
{
    lemma_kill_facts(strikes, id, strikes.len() as int);
    lemma_fatal_facts(damage, id, damage.len() as int);
    assert forall|k: int|
        0 <= k < strikes.len() && spec_kills(#[trigger] strikes[k], id) && (forall|j: int|
            0 <= j < strikes.len() && j != k ==> !spec_kills(strikes[j], id)) implies spec_first_kill(
        strikes,
        id,
        strikes.len() as int,
    ) == Some(k) && spec_kill_count(strikes, id, strikes.len() as int) <= 1 by {
        let f = spec_first_kill(strikes, id, strikes.len() as int);
        if f is None {
            assert(!spec_kills(strikes[k], id));
        } else {
            let g = f->0;
            if g != k {
                assert(!spec_kills(strikes[g], id));
            }
        }
        if spec_kill_count(strikes, id, strikes.len() as int) > 1 {
            let (a, b) = choose|a: int, b: int|
                0 <= a < b < strikes.len() && spec_kills(#[trigger] strikes[a], id) && spec_kills(
                    #[trigger] strikes[b],
                    id,
                );
            if a != k {
                assert(!spec_kills(strikes[a], id));
            } else {
                assert(!spec_kills(strikes[b], id));
            }
        }
    }
    assert forall|d: int|
        0 <= d < damage.len() && spec_fatal_for(#[trigger] damage[d], id) && (forall|e: int|
            0 <= e < d ==> !spec_fatal_for(damage[e], id)) implies spec_first_fatal_damage(
        damage,
        id,
        damage.len() as int,
    ) == Some(d) by {
        let f = spec_first_fatal_damage(damage, id, damage.len() as int);
        if f is None {
            assert(!spec_fatal_for(damage[d], id));
        } else {
            let g = f->0;
            if g < d {
                assert(!spec_fatal_for(damage[g], id));
            } else if g > d {
                assert(!spec_fatal_for(damage[d], id));
            }
        }
    }
}

fn find_kill(strikes: &Vec<StrikeResolution>, id: &String) -> (found: (Option<usize>, bool))
    ensures
        match found.0 {
            Some(k) => spec_first_kill(strikes@, id@, strikes@.len() as int) == Some(k as int),
            None => spec_first_kill(strikes@, id@, strikes@.len() as int) is None,
        },
        found.1 == (spec_kill_count(strikes@, id@, strikes@.len() as int) > 1),
{
    let mut first: Option<usize> = None;
    let mut count: usize = 0;
    let mut i: usize = 0;
    while i < strikes.len()
        invariant
            i <= strikes@.len(),
            match first {
                Some(k) => spec_first_kill(strikes@, id@, i as int) == Some(k as int),
                None => spec_first_kill(strikes@, id@, i as int) is None,
            },
            count == if spec_kill_count(strikes@, id@, i as int) > 1 {
                2
            } else {
                spec_kill_count(strikes@, id@, i as int)
            },
        decreases strikes@.len() - i,
    {
        let strike = &strikes[i];
        if strike.target_player_id == *id && strike.eliminated_target {
            if first.is_none() {
                first = Some(i);
            }
            if count < 2 {
                count = count + 1;
            }
        }
        i = i + 1;
    }
    (first, count > 1)
}

fn find_fatal_damage(damage: &Vec<DamageEvent>, id: &String) -> (found: Option<usize>)
    ensures
        match found {
            Some(k) => spec_first_fatal_damage(damage@, id@, damage@.len() as int) == Some(k as int),
            None => spec_first_fatal_damage(damage@, id@, damage@.len() as int) is None,
        },
{
    let mut i: usize = 0;
    while i < damage.len()
        invariant
            i <= damage@.len(),
            spec_first_fatal_damage(damage@, id@, i as int) is None,
        decreases damage@.len() - i,
    {
        if damage[i].player_id == *id && damage[i].eliminated {
            proof {
                lemma_first_fatal_stays(damage@, id@, i + 1, damage@.len() as int);
            }
            return Some(i);
        }
        i = i + 1;
    }
    None
}

/// See [`spec_elimination_cause`]; a contradiction, or attribution to an unknown ability, is
/// a contract fault.
pub fn elimination_cause(
    owner_id: &String,
    ability_id: &Option<String>,
    records: Option<(&Vec<StrikeResolution>, &Vec<DamageEvent>)>,
    id: &String,
) -> (cause: Result<ChangeProvenance, SessionFault>)
    ensures
        match spec_elimination_cause(
            *owner_id,
            *ability_id,
            match records {
                Some((strikes, damage)) => Some((strikes@, damage@)),
                None => None,
            },
            id@,
        ) {
            Some(expected) => cause == Ok::<ChangeProvenance, SessionFault>(expected),
            None => cause == Err::<ChangeProvenance, SessionFault>(SessionFault::ContractInvariant),
        },
{
    let (strikes, damage) = match records {
        None => {
            return Ok(ChangeProvenance::AuthoritativeResolution);
        },
        Some(pair) => pair,
    };
    let (first, contradicted) = find_kill(strikes, id);
    proof {
        lemma_first_kill_bounded(strikes@, id@, strikes@.len() as int);
        lemma_first_fatal_stays(damage@, id@, damage@.len() as int, damage@.len() as int);
    }
    match first {
        Some(k) => {
            if contradicted {
                return Err(SessionFault::ContractInvariant);
            }
            let strike_index = strikes[k].strike_index;
            assert(spec_first_kill(strikes@, id@, strikes@.len() as int) == Some(k as int));
            match ability_id {
                None => Err(SessionFault::ContractInvariant),
                Some(ability) => Ok(
                    ChangeProvenance::Strike {
                        owner_id: owner_id.clone(),
                        ability_id: ability.clone(),
                        strike_index,
                    },
                ),
            }
        },
        None => match find_fatal_damage(damage, id) {
            None => Ok(ChangeProvenance::AuthoritativeResolution),
            Some(d) => match ability_id {
                None => Err(SessionFault::ContractInvariant),
                Some(ability) => {
                    let entry = &damage[d];
                    if entry.backlash > 0 {
                        Ok(ChangeProvenance::Backlash { owner_id: owner_id.clone(), ability_id: ability.clone() })
                    } else if entry.wall_impact > 0 {
                        Ok(ChangeProvenance::WallImpact { owner_id: owner_id.clone(), ability_id: ability.clone() })
                    } else if entry.splash > 0 {
                        Ok(ChangeProvenance::Splash { owner_id: owner_id.clone(), ability_id: ability.clone() })
                    } else if entry.hazard > 0 {
                        Ok(ChangeProvenance::Hazard)
                    } else {
                        Ok(ChangeProvenance::AbilityEffect { owner_id: owner_id.clone(), ability_id: ability.clone() })
                    }
                },
            },
        },
    }
}

// ---------------------------------------------------------------------------------------
// Per-player events
// ---------------------------------------------------------------------------------------

/// An optional string by its characters.
pub open spec fn spec_opt_view(text: Option<String>) -> Option<Seq<char>> {
    match text {
        Some(value) => Some(value@),
        None => None,
    }
}

/// A damage entry as the client sees it.
pub open spec fn spec_snapshot_damage(damage: DamageEvent) -> DamageBreakdown {
    DamageBreakdown {
        direct: damage.direct,
        splash: damage.splash,
        backlash: damage.backlash,
        hazard: damage.hazard,
        wall_impact: damage.wall_impact,
        healed: damage.healed,
        was_critical: damage.was_critical,
        knockback: PositionSnapshot { x: damage.knockback.x, y: damage.knockback.y },
        eliminated: damage.eliminated,
    }
}

/// The first of the first `n` damage entries of `id`, if any.
pub open spec fn spec_first_damage(damage: Seq<DamageEvent>, id: Seq<char>, n: int) -> Option<int>
    decreases n,
{
    if n <= 0 {
        None
    } else {
        match spec_first_damage(damage, id, n - 1) {
            Some(k) => Some(k),
            None => if damage[n - 1].player_id@ == id {
                Some(n - 1)
            } else {
                None
            },
        }
    }
}

/// The breakdown the records give for `id`: its first damage entry, if any.
pub open spec fn spec_breakdown(
    records: Option<(Seq<StrikeResolution>, Seq<DamageEvent>)>,
    id: Seq<char>,
) -> Option<DamageBreakdown> {
    match records {
        None => None,
        Some((_, damage)) => match spec_first_damage(damage, id, damage.len() as int) {
            Some(k) => Some(spec_snapshot_damage(damage[k])),
            None => None,
        },
    }
}

/// The first of the first `n` snapshot players named `id`, if any.
pub open spec fn spec_find_snapshot(players: Seq<PlayerSnapshot>, id: Seq<char>, n: int) -> Option<int>
    decreases n,
{
    if n <= 0 {
        None
    } else {
        match spec_find_snapshot(players, id, n - 1) {
            Some(k) => Some(k),
            None => if players[n - 1].id@ == id {
                Some(n - 1)
            } else {
                None
            },
        }
    }
}

/// The events (rank and content) that tell a client how one player changed from `pre` to
/// `post`, in derivation order: moved (by the authority: a net displacement cannot say
/// which part was requested), health changed (or damaged without a net change), gauge
/// changed, passive chosen, eliminated (with its cause; none when the cause is a fault).
pub open spec fn spec_player_items(
    pre: PlayerSnapshot,
    post: PlayerSnapshot,
    owner_id: String,
    ability_id: Option<String>,
    records: Option<(Seq<StrikeResolution>, Seq<DamageEvent>)>,
) -> Option<Seq<(u8, PresentationEventKind)>> {
    let none = Seq::<(u8, PresentationEventKind)>::empty();
    let moved = if pre.position != post.position {
        none.push(
            (
                12u8,
                PresentationEventKind::EntityMoved {
                    player_id: post.id,
                    start: pre.position,
                    end: post.position,
                    cause: EntityMovementCause::AuthoritativeResolution,
                },
            ),
        )
    } else {
        none
    };
    let breakdown = spec_breakdown(records, post.id@);
    let health = if pre.health != post.health || breakdown is Some {
        moved.push(
            (
                13u8,
                PresentationEventKind::HealthChanged {
                    player_id: post.id,
                    previous_health: pre.health,
                    new_health: post.health,
                    breakdown,
                },
            ),
        )
    } else {
        moved
    };
    let gauge = if pre.special_gauge != post.special_gauge {
        health.push(
            (
                14u8,
                PresentationEventKind::GaugeChanged {
                    player_id: post.id,
                    previous_gauge: pre.special_gauge,
                    new_gauge: post.special_gauge,
                    delta: (post.special_gauge - pre.special_gauge) as i32,
                },
            ),
        )
    } else {
        health
    };
    let passive = if spec_opt_view(pre.passive_id) != spec_opt_view(post.passive_id)
        && post.passive_id is Some {
        gauge.push(
            (
                18u8,
                PresentationEventKind::PassiveChosen {
                    player_id: post.id,
                    passive_id: post.passive_id->0,
                },
            ),
        )
    } else {
        gauge
    };
    if !pre.is_eliminated && post.is_eliminated {
        match spec_elimination_cause(owner_id, ability_id, records, post.id@) {
            None => None,
            Some(cause) => Some(
                passive.push((17u8, PresentationEventKind::PlayerEliminated { player_id: post.id, cause })),
            ),
        }
    } else {
        Some(passive)
    }
}

/// The breakdown law: the records give a breakdown for `id` exactly when some damage entry
/// names it, and then it is the first such entry, field for field (its knockback as a client
/// position).
pub proof fn lemma_breakdown_law(strikes: Seq<StrikeResolution>, damage: Seq<DamageEvent>, id: Seq<char>)
    ensures
        spec_breakdown(None, id) is None,
        spec_breakdown(Some((strikes, damage)), id) is None <==> forall|d: int|
            0 <= d < damage.len() ==> (#[trigger] damage[d]).player_id@ != id,
        forall|d: int|
            0 <= d < damage.len() && (#[trigger] damage[d]).player_id@ == id && (forall|e: int|
                0 <= e < d ==> damage[e].player_id@ != id) ==> {
                let entry = damage[d];
                let b = spec_breakdown(Some((strikes, damage)), id);
                &&& b is Some
                &&& b->0.direct == entry.direct && b->0.splash == entry.splash && b->0.backlash
                    == entry.backlash && b->0.hazard == entry.hazard && b->0.wall_impact
                    == entry.wall_impact && b->0.healed == entry.healed && b->0.was_critical
                    == entry.was_critical && b->0.eliminated == entry.eliminated
                &&& b->0.knockback.x == entry.knockback.x && b->0.knockback.y == entry.knockback.y
            },
{
    lemma_first_damage_facts(damage, id, damage.len() as int);
    assert forall|d: int|
        0 <= d < damage.len() && (#[trigger] damage[d]).player_id@ == id && (forall|e: int|
            0 <= e < d ==> damage[e].player_id@ != id) implies spec_first_damage(
        damage,
        id,
        damage.len() as int,
    ) == Some(d) by {
        let f = spec_first_damage(damage, id, damage.len() as int);
        if f is None {
            assert(damage[d].player_id@ != id);
        } else {
            let g = f->0;
            if g < d {
                assert(damage[g].player_id@ != id);
            } else if g > d {
                assert(damage[d].player_id@ != id);
            }
        }
    }
}

proof fn lemma_first_damage_facts(damage: Seq<DamageEvent>, id: Seq<char>, n: int)
    requires
        0 <= n <= damage.len(),
    ensures
        spec_first_damage(damage, id, n) is None <==> forall|j: int|
            0 <= j < n ==> (#[trigger] damage[j]).player_id@ != id,
        spec_first_damage(damage, id, n) matches Some(k) ==> 0 <= k < n && damage[k].player_id@ == id
            && forall|j: int| 0 <= j < k ==> (#[trigger] damage[j]).player_id@ != id,
    decreases n,
{
    if n > 0 {
        lemma_first_damage_facts(damage, id, n - 1);
    }
}

/// Whether some item of `items` has a kind satisfying `which`.
pub open spec fn spec_has_item(
    items: Seq<(u8, PresentationEventKind)>,
    which: spec_fn(PresentationEventKind) -> bool,
) -> bool {
    exists|k: int| 0 <= k < items.len() && which(#[trigger] items[k].1)
}

/// The per-player event law: what a client is told about a player is exactly what changed.
/// There is a move (from the old to the new position) iff the position changed; a health
/// change (old and new health, with the recorded breakdown) iff the health changed or the
/// records hold damage against the player; a gauge change (with its signed delta) iff the
/// gauge changed; a chosen passive iff the passive changed to one; an elimination (with its
/// attributed cause) iff the player was newly eliminated — and the player's events fail
/// only when that cause is a fault.
pub proof fn lemma_player_items_law(
    pre: PlayerSnapshot,
    post: PlayerSnapshot,
    owner_id: String,
    ability_id: Option<String>,
    records: Option<(Seq<StrikeResolution>, Seq<DamageEvent>)>,
)
    ensures
        ({
            let newly = !pre.is_eliminated && post.is_eliminated;
            let cause = spec_elimination_cause(owner_id, ability_id, records, post.id@);
            &&& spec_player_items(pre, post, owner_id, ability_id, records) is None <==> newly
                && cause is None
        }),
        spec_player_items(pre, post, owner_id, ability_id, records) matches Some(items) ==> {
            &&& spec_has_item(items, |kind: PresentationEventKind| kind is EntityMoved)
                <==> pre.position != post.position
            &&& spec_has_item(items, |kind: PresentationEventKind| kind is HealthChanged) <==> (
            pre.health != post.health || spec_breakdown(records, post.id@) is Some)
            &&& spec_has_item(items, |kind: PresentationEventKind| kind is GaugeChanged)
                <==> pre.special_gauge != post.special_gauge
            &&& spec_has_item(items, |kind: PresentationEventKind| kind is PassiveChosen) <==> (
            spec_opt_view(pre.passive_id) != spec_opt_view(post.passive_id) && post.passive_id is Some)
            &&& spec_has_item(items, |kind: PresentationEventKind| kind is PlayerEliminated) <==> (
            !pre.is_eliminated && post.is_eliminated)
            &&& forall|k: int|
                0 <= k < items.len() ==> match (#[trigger] items[k]).1 {
                    PresentationEventKind::EntityMoved { player_id, start, end, .. } => player_id
                        == post.id && start == pre.position && end == post.position,
                    PresentationEventKind::HealthChanged {
                        player_id,
                        previous_health,
                        new_health,
                        breakdown,
                    } => player_id == post.id && previous_health == pre.health && new_health
                        == post.health && breakdown == spec_breakdown(records, post.id@),
                    PresentationEventKind::GaugeChanged {
                        player_id,
                        previous_gauge,
                        new_gauge,
                        delta,
                    } => player_id == post.id && previous_gauge == pre.special_gauge && new_gauge
                        == post.special_gauge && delta == post.special_gauge - pre.special_gauge,
                    PresentationEventKind::PassiveChosen { player_id, passive_id } => player_id
                        == post.id && post.passive_id == Some(passive_id),
                    PresentationEventKind::PlayerEliminated { player_id, cause } => player_id
                        == post.id && spec_elimination_cause(owner_id, ability_id, records, post.id@)
                        == Some(cause),
                    _ => false,
                }
        },
{
    let none = Seq::<(u8, PresentationEventKind)>::empty();
    let moved = if pre.position != post.position {
        none.push(
            (
                12u8,
                PresentationEventKind::EntityMoved {
                    player_id: post.id,
                    start: pre.position,
                    end: post.position,
                    cause: EntityMovementCause::AuthoritativeResolution,
                },
            ),
        )
    } else {
        none
    };
    let breakdown = spec_breakdown(records, post.id@);
    let health = if pre.health != post.health || breakdown is Some {
        moved.push(
            (
                13u8,
                PresentationEventKind::HealthChanged {
                    player_id: post.id,
                    previous_health: pre.health,
                    new_health: post.health,
                    breakdown,
                },
            ),
        )
    } else {
        moved
    };
    let gauge = if pre.special_gauge != post.special_gauge {
        health.push(
            (
                14u8,
                PresentationEventKind::GaugeChanged {
                    player_id: post.id,
                    previous_gauge: pre.special_gauge,
                    new_gauge: post.special_gauge,
                    delta: (post.special_gauge - pre.special_gauge) as i32,
                },
            ),
        )
    } else {
        health
    };
    let passive = if spec_opt_view(pre.passive_id) != spec_opt_view(post.passive_id)
        && post.passive_id is Some {
        gauge.push(
            (
                18u8,
                PresentationEventKind::PassiveChosen {
                    player_id: post.id,
                    passive_id: post.passive_id->0,
                },
            ),
        )
    } else {
        gauge
    };
    let all = spec_player_items(pre, post, owner_id, ability_id, records);
    if all is Some {
        let items = all->0;
        assert(items.subrange(0, passive.len() as int) =~= passive);
        assert(passive.subrange(0, gauge.len() as int) =~= gauge);
        assert(gauge.subrange(0, health.len() as int) =~= health);
        assert(health.subrange(0, moved.len() as int) =~= moved);
        assert forall|k: int| 0 <= k < items.len() implies match (#[trigger] items[k]).1 {
            PresentationEventKind::EntityMoved { player_id, start, end, .. } => player_id == post.id
                && start == pre.position && end == post.position,
            PresentationEventKind::HealthChanged { player_id, previous_health, new_health, breakdown } =>
                player_id == post.id && previous_health == pre.health && new_health == post.health
                && breakdown == spec_breakdown(records, post.id@),
            PresentationEventKind::GaugeChanged { player_id, previous_gauge, new_gauge, delta } =>
                player_id == post.id && previous_gauge == pre.special_gauge && new_gauge
                == post.special_gauge && delta == post.special_gauge - pre.special_gauge,
            PresentationEventKind::PassiveChosen { player_id, passive_id } => player_id == post.id
                && post.passive_id == Some(passive_id),
            PresentationEventKind::PlayerEliminated { player_id, cause } => player_id == post.id
                && spec_elimination_cause(owner_id, ability_id, records, post.id@) == Some(cause),
            _ => false,
        } by {
            if k < passive.len() {
                assert(items[k] == passive[k]);
                if k < gauge.len() {
                    assert(passive[k] == gauge[k]);
                    if k < health.len() {
                        assert(gauge[k] == health[k]);
                        if k < moved.len() {
                            assert(health[k] == moved[k]);
                        }
                    }
                }
            }
        }
        if pre.position != post.position {
            assert(items[0].1 is EntityMoved);
        }
        if pre.health != post.health || breakdown is Some {
            assert(items[moved.len() as int].1 is HealthChanged);
        }
        if pre.special_gauge != post.special_gauge {
            assert(items[health.len() as int].1 is GaugeChanged);
        }
        if spec_opt_view(pre.passive_id) != spec_opt_view(post.passive_id) && post.passive_id is Some {
            assert(items[gauge.len() as int].1 is PassiveChosen);
        }
        if !pre.is_eliminated && post.is_eliminated {
            assert(items[passive.len() as int].1 is PlayerEliminated);
        }
    }
}

/// The per-player events of the first `n` post-snapshot players, in roster order; none
/// (a fault) when a post player is missing from the pre-snapshot or a cause is a fault.
pub open spec fn spec_players_items(
    pre_players: Seq<PlayerSnapshot>,
    post_players: Seq<PlayerSnapshot>,
    owner_id: String,
    ability_id: Option<String>,
    records: Option<(Seq<StrikeResolution>, Seq<DamageEvent>)>,
    n: int,
) -> Option<Seq<(u8, PresentationEventKind)>>
    decreases n,
{
    if n <= 0 {
        Some(Seq::empty())
    } else {
        match spec_players_items(pre_players, post_players, owner_id, ability_id, records, n - 1) {
            None => None,
            Some(earlier) => match spec_find_snapshot(
                pre_players,
                post_players[n - 1].id@,
                pre_players.len() as int,
            ) {
                None => None,
                Some(i) => match spec_player_items(
                    pre_players[i],
                    post_players[n - 1],
                    owner_id,
                    ability_id,
                    records,
                ) {
                    None => None,
                    Some(items) => Some(earlier + items),
                },
            },
        }
    }
}

proof fn lemma_players_items_grow(
    pre_players: Seq<PlayerSnapshot>,
    post_players: Seq<PlayerSnapshot>,
    owner_id: String,
    ability_id: Option<String>,
    records: Option<(Seq<StrikeResolution>, Seq<DamageEvent>)>,
    i: int,
    n: int,
)
    requires
        0 <= i <= n,
        spec_players_items(pre_players, post_players, owner_id, ability_id, records, n) is Some,
    ensures
        spec_players_items(pre_players, post_players, owner_id, ability_id, records, i) is Some,
        spec_players_items(pre_players, post_players, owner_id, ability_id, records, i)->0.len()
            <= spec_players_items(pre_players, post_players, owner_id, ability_id, records, n)->0.len(),
    decreases n - i,
{
    if i < n {
        lemma_players_items_grow(pre_players, post_players, owner_id, ability_id, records, i, n - 1);
    }
}

fn same_opt_string(a: &Option<String>, b: &Option<String>) -> (same: bool)
    ensures
        same == (spec_opt_view(*a) == spec_opt_view(*b)),
{
    match (a, b) {
        (Some(x), Some(y)) => *x == *y,
        (None, None) => true,
        _ => false,
    }
}

fn find_snapshot(players: &Vec<PlayerSnapshot>, id: &String) -> (found: Option<usize>)
    ensures
        match found {
            Some(k) => spec_find_snapshot(players@, id@, players@.len() as int) == Some(k as int),
            None => spec_find_snapshot(players@, id@, players@.len() as int) is None,
        },
{
    let mut i: usize = 0;
    while i < players.len()
        invariant
            i <= players@.len(),
            spec_find_snapshot(players@, id@, i as int) is None,
        decreases players@.len() - i,
    {
        if players[i].id == *id {
            proof {
                lemma_find_snapshot_stays(players@, id@, i + 1, players@.len() as int);
            }
            return Some(i);
        }
        i = i + 1;
    }
    None
}

proof fn lemma_find_snapshot_stays(players: Seq<PlayerSnapshot>, id: Seq<char>, m: int, n: int)
    requires
        0 <= m <= n,
    ensures
        spec_find_snapshot(players, id, m) matches Some(k) ==> spec_find_snapshot(players, id, n)
            == Some(k) && 0 <= k < m,
    decreases n,
{
    if n > m {
        lemma_find_snapshot_stays(players, id, m, n - 1);
    } else if n > 0 {
        lemma_find_snapshot_stays(players, id, n - 1, n - 1);
    }
}

proof fn lemma_first_damage_stays(damage: Seq<DamageEvent>, id: Seq<char>, m: int, n: int)
    requires
        0 <= m <= n,
    ensures
        spec_first_damage(damage, id, m) matches Some(k) ==> spec_first_damage(damage, id, n)
            == Some(k) && 0 <= k < m,
    decreases n,
{
    if n > m {
        lemma_first_damage_stays(damage, id, m, n - 1);
    } else if n > 0 {
        lemma_first_damage_stays(damage, id, n - 1, n - 1);
    }
}

fn breakdown_of(records: Option<(&Vec<StrikeResolution>, &Vec<DamageEvent>)>, id: &String) -> (breakdown:
    Option<DamageBreakdown>)
    ensures
        breakdown == spec_breakdown(
            match records {
                Some((strikes, damage)) => Some((strikes@, damage@)),
                None => None,
            },
            id@,
        ),
{
    let damage = match records {
        None => {
            return None;
        },
        Some((_, damage)) => damage,
    };
    let mut i: usize = 0;
    while i < damage.len()
        invariant
            i <= damage@.len(),
            records matches Some((_, held)) && held@ == damage@,
            spec_first_damage(damage@, id@, i as int) is None,
        decreases damage@.len() - i,
    {
        if damage[i].player_id == *id {
            proof {
                lemma_first_damage_stays(damage@, id@, i + 1, damage@.len() as int);
            }
            let entry = &damage[i];
            return Some(
                DamageBreakdown {
                    direct: entry.direct,
                    splash: entry.splash,
                    backlash: entry.backlash,
                    hazard: entry.hazard,
                    wall_impact: entry.wall_impact,
                    healed: entry.healed,
                    was_critical: entry.was_critical,
                    knockback: PositionSnapshot { x: entry.knockback.x, y: entry.knockback.y },
                    eliminated: entry.eliminated,
                },
            );
        }
        i = i + 1;
    }
    None
}

fn player_items(
    pre: &PlayerSnapshot,
    post: &PlayerSnapshot,
    owner_id: &String,
    ability_id: &Option<String>,
    records: Option<(&Vec<StrikeResolution>, &Vec<DamageEvent>)>,
) -> (items: Option<Vec<(u8, PresentationEventKind)>>)
    ensures
        match spec_player_items(
            *pre,
            *post,
            *owner_id,
            *ability_id,
            match records {
                Some((strikes, damage)) => Some((strikes@, damage@)),
                None => None,
            },
        ) {
            Some(expected) => items matches Some(found) && found@ == expected,
            None => items is None,
        },
{
    let mut items: Vec<(u8, PresentationEventKind)> = Vec::new();
    if pre.position != post.position {
        items.push(
            (
                12,
                PresentationEventKind::EntityMoved {
                    player_id: post.id.clone(),
                    start: pre.position,
                    end: post.position,
                    cause: EntityMovementCause::AuthoritativeResolution,
                },
            ),
        );
    }
    let breakdown = breakdown_of(records, &post.id);
    if pre.health != post.health || breakdown.is_some() {
        items.push(
            (
                13,
                PresentationEventKind::HealthChanged {
                    player_id: post.id.clone(),
                    previous_health: pre.health,
                    new_health: post.health,
                    breakdown,
                },
            ),
        );
    }
    if pre.special_gauge != post.special_gauge {
        let delta: i32 = post.special_gauge as i32 - pre.special_gauge as i32;
        items.push(
            (
                14,
                PresentationEventKind::GaugeChanged {
                    player_id: post.id.clone(),
                    previous_gauge: pre.special_gauge,
                    new_gauge: post.special_gauge,
                    delta,
                },
            ),
        );
    }
    if !same_opt_string(&pre.passive_id, &post.passive_id) {
        match &post.passive_id {
            Some(passive_id) => {
                items.push(
                    (
                        18,
                        PresentationEventKind::PassiveChosen {
                            player_id: post.id.clone(),
                            passive_id: passive_id.clone(),
                        },
                    ),
                );
            },
            None => {},
        }
    }
    if !pre.is_eliminated && post.is_eliminated {
        match elimination_cause(owner_id, ability_id, records, &post.id) {
            Err(_) => {
                return None;
            },
            Ok(cause) => {
                items.push((17, PresentationEventKind::PlayerEliminated { player_id: post.id.clone(), cause }));
            },
        }
    }
    Some(items)
}

/// The records of an action by their views.
pub open spec fn spec_records_view(records: Option<(&Vec<StrikeResolution>, &Vec<DamageEvent>)>) -> Option<
    (Seq<StrikeResolution>, Seq<DamageEvent>),
> {
    match records {
        Some((strikes, damage)) => Some((strikes@, damage@)),
        None => None,
    }
}

/// Whether `event` presents the item `item` at `tick`.
pub open spec fn spec_item_event(event: PendingEvent, item: (u8, PresentationEventKind), tick: u32) -> bool {
    &&& event.presentation_tick == tick
    &&& event.rank == item.0
    &&& event.kind == item.1
}

/// Derives, after the events already in `pending`, what changed about each player between
/// the snapshots around an action (see [`spec_players_items`]), every event at the
/// resolution tick, players in post-snapshot order. `owner_id` is the acting player,
/// `ability_id` the id of the ability it used when the character data knows it, `records`
/// the action's strikes and damage when it produced any. A post player missing from the
/// pre-snapshot, a contradictory elimination record, or more events than `u32` numbers are
/// a contract fault.
pub fn derive_player_events(
    pending: &mut PendingEvents,
    pre_snapshot: &MatchSnapshot,
    post_snapshot: &MatchSnapshot,
    owner_id: &String,
    ability_id: &Option<String>,
    records: Option<(&Vec<StrikeResolution>, &Vec<DamageEvent>)>,
    resolution_tick: u32,
) -> (result: Result<(), SessionFault>)
    requires
        old(pending).wf(),
    ensures
        final(pending).wf(),
        ({
            let items = spec_players_items(
                pre_snapshot.players@,
                post_snapshot.players@,
                *owner_id,
                *ability_id,
                spec_records_view(records),
                post_snapshot.players@.len() as int,
            );
            &&& result is Ok <==> items is Some && old(pending)@.len() + items->0.len() <= u32::MAX + 1
            &&& result is Err ==> result == Err::<(), SessionFault>(SessionFault::ContractInvariant)
            &&& result is Ok ==> final(pending)@.len() == old(pending)@.len() + items->0.len()
                && final(pending)@.subrange(0, old(pending)@.len() as int) == old(pending)@
                && forall|k: int|
                0 <= k < items->0.len() ==> spec_item_event(
                    final(pending)@[old(pending)@.len() + k],
                    #[trigger] items->0[k],
                    resolution_tick,
                )
        }),
{
    let ghost before = pending@;
    let ghost base = before.len() as int;
    let ghost pre_players = pre_snapshot.players@;
    let ghost post_players = post_snapshot.players@;
    let ghost view = spec_records_view(records);
    let ghost total = post_players.len() as int;
    proof {
        pending.lemma_len_fits();
    }
    let mut n: usize = 0;
    while n < post_snapshot.players.len()
        invariant
            pending.wf(),
            pending@.len() <= u32::MAX + 1,
            before == old(pending)@,
            base == before.len(),
            pre_players == pre_snapshot.players@,
            post_players == post_snapshot.players@,
            view == spec_records_view(records),
            total == post_players.len(),
            n <= total,
            spec_players_items(pre_players, post_players, *owner_id, *ability_id, view, n as int) is Some,
            pending@.len() == base + spec_players_items(
                pre_players,
                post_players,
                *owner_id,
                *ability_id,
                view,
                n as int,
            )->0.len(),
            pending@.subrange(0, base) == before,
            forall|k: int|
                0 <= k < spec_players_items(
                    pre_players,
                    post_players,
                    *owner_id,
                    *ability_id,
                    view,
                    n as int,
                )->0.len() ==> spec_item_event(
                    pending@[base + k],
                    #[trigger] spec_players_items(
                        pre_players,
                        post_players,
                        *owner_id,
                        *ability_id,
                        view,
                        n as int,
                    )->0[k],
                    resolution_tick,
                ),
        decreases total - n,
    {
        let ghost earlier = spec_players_items(
            pre_players,
            post_players,
            *owner_id,
            *ability_id,
            view,
            n as int,
        )->0;
        let post = &post_snapshot.players[n];
        let found = find_snapshot(&pre_snapshot.players, &post.id);
        let i = match found {
            None => {
                proof {
                    if spec_players_items(pre_players, post_players, *owner_id, *ability_id, view, total) is Some {
                        lemma_players_items_grow(
                            pre_players,
                            post_players,
                            *owner_id,
                            *ability_id,
                            view,
                            n + 1,
                            total,
                        );
                    }
                }
                return Err(SessionFault::ContractInvariant);
            },
            Some(i) => i,
        };
        proof {
            lemma_find_snapshot_stays(pre_players, post.id@, pre_players.len() as int, pre_players.len() as int);
        }
        let pre = &pre_snapshot.players[i];
        let items = match player_items(pre, post, owner_id, ability_id, records) {
            None => {
                proof {
                    if spec_players_items(pre_players, post_players, *owner_id, *ability_id, view, total) is Some {
                        lemma_players_items_grow(
                            pre_players,
                            post_players,
                            *owner_id,
                            *ability_id,
                            view,
                            n + 1,
                            total,
                        );
                    }
                }
                return Err(SessionFault::ContractInvariant);
            },
            Some(items) => items,
        };
        let ghost step = items@;
        let ghost mid = pending@;
        assert(spec_players_items(pre_players, post_players, *owner_id, *ability_id, view, n + 1)
            == Some(earlier + step));
        let count = items.len();
        let mut rest = items;
        let mut m: usize = 0;
        while rest.len() > 0
            invariant
                step.len() == count,
                pending.wf(),
                pending@.len() <= u32::MAX + 1,
                before == old(pending)@,
                base == before.len(),
                view == spec_records_view(records),
                total == post_players.len(),
                pre_players == pre_snapshot.players@,
                post_players == post_snapshot.players@,
                n < total,
                spec_players_items(pre_players, post_players, *owner_id, *ability_id, view, n + 1)
                    == Some(earlier + step),
                m <= step.len(),
                rest@ == step.subrange(m as int, step.len() as int),
                pending@.len() == base + earlier.len() + m,
                pending@.subrange(0, base) == before,
                forall|k: int|
                    0 <= k < earlier.len() ==> spec_item_event(
                        pending@[base + k],
                        #[trigger] earlier[k],
                        resolution_tick,
                    ),
                forall|k: int|
                    0 <= k < m ==> spec_item_event(
                        pending@[base + earlier.len() + k],
                        #[trigger] step[k],
                        resolution_tick,
                    ),
            decreases rest@.len(),
        {
            let (rank, kind) = rest.remove(0);
            let ghost prior = pending@;
            match pending.push(resolution_tick, rank, kind) {
                Ok(()) => {},
                Err(fault) => {
                    proof {
                        if spec_players_items(pre_players, post_players, *owner_id, *ability_id, view, total) is Some {
                            lemma_players_items_grow(
                                pre_players,
                                post_players,
                                *owner_id,
                                *ability_id,
                                view,
                                n + 1,
                                total,
                            );
                        }
                    }
                    return Err(fault);
                },
            }
            proof {
                pending.lemma_len_fits();
                assert(step[m as int] == (rank, kind));
                assert(pending@.subrange(0, base) =~= prior.subrange(0, base));
                assert forall|k: int| 0 <= k < earlier.len() implies spec_item_event(
                    pending@[base + k],
                    #[trigger] earlier[k],
                    resolution_tick,
                ) by {
                    assert(pending@[base + k] == prior[base + k]);
                }
                assert forall|k: int| 0 <= k < m + 1 implies spec_item_event(
                    pending@[base + earlier.len() + k],
                    #[trigger] step[k],
                    resolution_tick,
                ) by {
                    if k < m {
                        assert(pending@[base + earlier.len() + k] == prior[base + earlier.len() + k]);
                    }
                }
            }
            m = m + 1;
            assert(rest@ =~= step.subrange(m as int, step.len() as int));
        }
        proof {
            let all = earlier + step;
            assert forall|k: int| 0 <= k < all.len() implies spec_item_event(
                pending@[base + k],
                #[trigger] all[k],
                resolution_tick,
            ) by {
                if k < earlier.len() {
                    assert(all[k] == earlier[k]);
                } else {
                    assert(all[k] == step[k - earlier.len()]);
                }
            }
        }
        n = n + 1;
    }
    Ok(())
}

} // verus!

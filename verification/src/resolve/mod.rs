//! Effect resolution: the layer that turns a validated command into changes to the match.
//!
//! Every resolver reads and writes one [`ResolveContext`], so effects compose in declaration
//! order and each observes the results of those before it.

pub mod attack_mods;
pub mod displacement;
pub mod objects;
pub mod relocation;
pub mod status;

use crate::fixed::FixedPoint;
use crate::rng::Rng;
use crate::types::{
    DamageEvent, PersistentObjectChange, RandomOutcome, SimulationState, StatusChange,
};
use crate::terrain::TerrainOperation;
use crate::types::{DamageView, EffectKind, PlayerState, SpecialEffect};
use crate::error::SimResult;
use crate::fixed::spec_point_add;
use vstd::prelude::*;
use vstd::utf8::encode_utf8;

verus! {

/// Everything a resolver may read or change while one action resolves.
pub struct ResolveContext {
    /// Authoritative match state; resolvers change it directly.
    pub state: SimulationState,
    /// The seeded generator, the only entropy source.
    pub rng: Rng,
    /// Who is acting.
    pub actor_id: String,
    /// Player-selected primary target, where the ability takes one.
    pub primary_target_id: Option<String>,
    /// Player-selected secondary target (a throw destination).
    pub secondary_target_id: Option<String>,
    /// Where the attack landed; origin of radial effects.
    pub impact_point: FixedPoint,
    /// Itemized damage and healing, one entry per touched player, in first-touch order.
    pub damage: Vec<DamageEvent>,
    /// Terrain mutations produced by this action, in sequence order.
    pub terrain_ops: Vec<TerrainOperation>,
    /// Persistent-object lifecycle transitions produced by this action, in order.
    pub object_changes: Vec<PersistentObjectChange>,
    /// Public random outcomes produced by resolvers, in draw order.
    pub random_outcomes: Vec<RandomOutcome>,
    /// Terrain cells removed by this action so far.
    pub terrain_cells_removed: u32,
    /// Status lifecycle transitions produced by this action, in order.
    pub status_changes: Vec<StatusChange>,
}

/// Index of the first damage entry for `id`, if any.
pub open spec fn spec_damage_index(damage: Seq<DamageEvent>, id: Seq<char>) -> Option<int>
    decreases damage.len(),
{
    if damage.len() == 0 {
        None
    } else {
        match spec_damage_index(damage.drop_last(), id) {
            Some(i) => Some(i),
            None => if damage.last().player_id@ == id {
                Some(damage.len() - 1)
            } else {
                None
            },
        }
    }
}

/// `spec_damage_index` finds the first entry for `id`, and `None` only when there is none.
pub proof fn lemma_damage_index(damage: Seq<DamageEvent>, id: Seq<char>)
    ensures
        spec_damage_index(damage, id) matches Some(i) ==> 0 <= i < damage.len()
            && damage[i].player_id@ == id && forall|j: int|
            0 <= j < i ==> damage[j].player_id@ != id,
        spec_damage_index(damage, id) is None ==> forall|j: int|
            0 <= j < damage.len() ==> damage[j].player_id@ != id,
    decreases damage.len(),
{
    if damage.len() > 0 {
        let prefix = damage.drop_last();
        lemma_damage_index(prefix, id);
        assert forall|j: int| 0 <= j < prefix.len() implies prefix[j] == damage[j] by {}
    }
}

/// A fresh, all-zero damage entry for `id`.
pub open spec fn spec_zero_entry(entry: DamageEvent, id: Seq<char>) -> bool {
    &&& entry.player_id@ == id
    &&& entry.direct == 0
    &&& entry.splash == 0
    &&& entry.backlash == 0
    &&& entry.hazard == 0
    &&& entry.wall_impact == 0
    &&& entry.healed == 0
    &&& !entry.was_critical
    &&& entry.knockback == FixedPoint { x: 0, y: 0 }
    &&& !entry.eliminated
}

/// The views of a damage list.
pub open spec fn spec_damage_views(damage: Seq<DamageEvent>) -> Seq<DamageView> {
    damage.map_values(|entry: DamageEvent| entry@)
}

/// Index of the first damage view for `id`, if any.
pub open spec fn spec_view_index(views: Seq<DamageView>, id: Seq<char>) -> Option<int>
    decreases views.len(),
{
    if views.len() == 0 {
        None
    } else {
        match spec_view_index(views.drop_last(), id) {
            Some(i) => Some(i),
            None => if views.last().player_id == id {
                Some(views.len() - 1)
            } else {
                None
            },
        }
    }
}

/// A fresh, all-zero damage view for `id`.
pub open spec fn spec_zero_view(id: Seq<char>) -> DamageView {
    DamageView {
        player_id: id,
        direct: 0,
        splash: 0,
        backlash: 0,
        hazard: 0,
        wall_impact: 0,
        healed: 0,
        was_critical: false,
        knockback: FixedPoint { x: 0, y: 0 },
        eliminated: false,
    }
}

/// The views after making sure an entry for `id` exists, and that entry's index.
pub open spec fn spec_touch_entry(views: Seq<DamageView>, id: Seq<char>) -> (Seq<DamageView>, int) {
    match spec_view_index(views, id) {
        Some(i) => (views, i),
        None => (views.push(spec_zero_view(id)), views.len() as int),
    }
}

/// The views after adding `delta` (saturating) to the knockback recorded for `id`.
pub open spec fn spec_add_knockback(views: Seq<DamageView>, id: Seq<char>, delta: FixedPoint) -> Seq<
    DamageView,
> {
    let (touched, i) = spec_touch_entry(views, id);
    touched.update(i, DamageView { knockback: spec_point_add(touched[i].knockback, delta), ..touched[i] })
}

/// The damage index over entries and over their views agree.
pub proof fn lemma_damage_index_views(damage: Seq<DamageEvent>, id: Seq<char>)
    ensures
        spec_damage_index(damage, id) == spec_view_index(spec_damage_views(damage), id),
    decreases damage.len(),
{
    if damage.len() > 0 {
        lemma_damage_index_views(damage.drop_last(), id);
        assert(spec_damage_views(damage).drop_last() =~= spec_damage_views(damage.drop_last()));
    }
}

/// Byte-wise lexicographic order (the order of `String`'s `Ord`): `a` sorts no later than `b`.
pub open spec fn spec_bytes_le(a: Seq<u8>, b: Seq<u8>) -> bool
    decreases a.len(),
{
    if a.len() == 0 {
        true
    } else if b.len() == 0 {
        false
    } else if a[0] != b[0] {
        a[0] < b[0]
    } else {
        spec_bytes_le(a.drop_first(), b.drop_first())
    }
}

/// Identifier order: the byte order of the UTF-8 encodings.
pub open spec fn spec_id_le(a: Seq<char>, b: Seq<char>) -> bool {
    spec_bytes_le(encode_utf8(a), encode_utf8(b))
}

/// Whether `ids` is sorted by [`spec_id_le`].
pub open spec fn spec_ids_sorted(ids: Seq<Seq<char>>) -> bool {
    forall|i: int, j: int| 0 <= i < j < ids.len() ==> spec_id_le(#[trigger] ids[i], #[trigger] ids[j])
}

/// The ids of the living players other than `actor`, in roster order.
pub open spec fn spec_living_opponents(players: Seq<PlayerState>, actor: Seq<char>) -> Seq<Seq<char>>
    decreases players.len(),
{
    if players.len() == 0 {
        Seq::empty()
    } else {
        let rest = spec_living_opponents(players.drop_last(), actor);
        let last = players.last();
        if last.health != 0 && last.id@ != actor {
            rest.push(last.id@)
        } else {
            rest
        }
    }
}

/// The views of a list of strings.
pub open spec fn spec_string_views(ids: Seq<String>) -> Seq<Seq<char>> {
    ids.map_values(|id: String| id@)
}

/// Where a stable insertion by identifier order puts `id`: after every leading identifier
/// that sorts no later.
pub open spec fn spec_id_insert_position(sorted: Seq<Seq<char>>, id: Seq<char>) -> int
    decreases sorted.len(),
{
    if sorted.len() == 0 {
        0
    } else if spec_id_le(sorted[0], id) {
        1 + spec_id_insert_position(sorted.drop_first(), id)
    } else {
        0
    }
}

/// The stable sort of `ids` by identifier order.
pub open spec fn spec_sort_ids(ids: Seq<Seq<char>>) -> Seq<Seq<char>>
    decreases ids.len(),
{
    if ids.len() == 0 {
        ids
    } else {
        let sorted = spec_sort_ids(ids.drop_last());
        sorted.insert(spec_id_insert_position(sorted, ids.last()), ids.last())
    }
}

proof fn lemma_bytes_le_total(a: Seq<u8>, b: Seq<u8>)
    ensures
        spec_bytes_le(a, b) || spec_bytes_le(b, a),
    decreases a.len(),
{
    if a.len() > 0 && b.len() > 0 && a[0] == b[0] {
        lemma_bytes_le_total(a.drop_first(), b.drop_first());
    }
}

proof fn lemma_bytes_le_transitive(a: Seq<u8>, b: Seq<u8>, c: Seq<u8>)
    requires
        spec_bytes_le(a, b),
        spec_bytes_le(b, c),
    ensures
        spec_bytes_le(a, c),
    decreases a.len(),
{
    if a.len() > 0 && b.len() > 0 && c.len() > 0 && a[0] == b[0] && b[0] == c[0] {
        lemma_bytes_le_transitive(a.drop_first(), b.drop_first(), c.drop_first());
    }
}

proof fn lemma_id_insert_position(sorted: Seq<Seq<char>>, id: Seq<char>)
    requires
        spec_ids_sorted(sorted),
    ensures
        0 <= spec_id_insert_position(sorted, id) <= sorted.len(),
        forall|k: int|
            0 <= k < spec_id_insert_position(sorted, id) ==> spec_id_le(#[trigger] sorted[k], id),
        forall|k: int|
            spec_id_insert_position(sorted, id) <= k < sorted.len() ==> spec_id_le(
                id,
                #[trigger] sorted[k],
            ),
    decreases sorted.len(),
{
    if sorted.len() > 0 {
        let rest = sorted.drop_first();
        assert forall|i: int, j: int| 0 <= i < j < rest.len() implies spec_id_le(
            #[trigger] rest[i],
            #[trigger] rest[j],
        ) by {
            assert(rest[i] == sorted[i + 1] && rest[j] == sorted[j + 1]);
        }
        lemma_id_insert_position(rest, id);
        if spec_id_le(sorted[0], id) {
            assert forall|k: int| 1 <= k < sorted.len() implies sorted[k] == rest[k - 1] by {}
        } else {
            lemma_bytes_le_total(encode_utf8(sorted[0]), encode_utf8(id));
            assert forall|k: int| 0 <= k < sorted.len() implies spec_id_le(
                id,
                #[trigger] sorted[k],
            ) by {
                if k > 0 {
                    assert(spec_id_le(sorted[0], sorted[k]));
                    lemma_bytes_le_transitive(
                        encode_utf8(id),
                        encode_utf8(sorted[0]),
                        encode_utf8(sorted[k]),
                    );
                }
            }
        }
    }
}

/// Sorting identifiers yields a list sorted by identifier order, of the same length.
pub proof fn lemma_sort_ids_sorted(ids: Seq<Seq<char>>)
    ensures
        spec_ids_sorted(spec_sort_ids(ids)),
        spec_sort_ids(ids).len() == ids.len(),
    decreases ids.len(),
{
    if ids.len() > 0 {
        let rest = spec_sort_ids(ids.drop_last());
        lemma_sort_ids_sorted(ids.drop_last());
        let x = ids.last();
        lemma_id_insert_position(rest, x);
        let p = spec_id_insert_position(rest, x);
        let out = rest.insert(p, x);
        assert forall|i: int, j: int| 0 <= i < j < out.len() implies spec_id_le(
            #[trigger] out[i],
            #[trigger] out[j],
        ) by {
            if j < p {
                assert(out[i] == rest[i] && out[j] == rest[j]);
            } else if j == p {
                assert(out[i] == rest[i]);
            } else if i < p {
                assert(out[i] == rest[i] && out[j] == rest[j - 1]);
                lemma_bytes_le_transitive(encode_utf8(out[i]), encode_utf8(x), encode_utf8(out[j]));
            } else if i == p {
                assert(out[j] == rest[j - 1]);
            } else {
                assert(out[i] == rest[i - 1] && out[j] == rest[j - 1]);
            }
        }
    }
}

/// Sorting identifiers keeps exactly the identifiers it was given.
pub proof fn lemma_sort_ids_contains(ids: Seq<Seq<char>>, id: Seq<char>)
    ensures
        spec_sort_ids(ids).contains(id) <==> ids.contains(id),
    decreases ids.len(),
{
    if ids.len() > 0 {
        let rest = ids.drop_last();
        lemma_sort_ids_contains(rest, id);
        let sorted = spec_sort_ids(rest);
        lemma_sort_ids_sorted(rest);
        lemma_id_insert_position(sorted, ids.last());
        let p = spec_id_insert_position(sorted, ids.last());
        let out = sorted.insert(p, ids.last());
        if out.contains(id) {
            let k = choose|k: int| 0 <= k < out.len() && out[k] == id;
            if k < p {
                assert(sorted[k] == id);
            } else if k > p {
                assert(sorted[k - 1] == id);
            }
            if id != ids.last() {
                assert(rest.contains(id));
                let j = choose|j: int| 0 <= j < rest.len() && rest[j] == id;
                assert(ids[j] == id);
            } else {
                assert(ids[ids.len() - 1] == id);
            }
        }
        if ids.contains(id) {
            let j = choose|j: int| 0 <= j < ids.len() && ids[j] == id;
            if j == ids.len() - 1 {
                assert(out[p] == id);
            } else {
                assert(rest[j] == id);
                let k = choose|k: int| 0 <= k < sorted.len() && sorted[k] == id;
                if k < p {
                    assert(out[k] == id);
                } else {
                    assert(out[k + 1] == id);
                }
            }
        }
    }
}

/// The ids, in roster order, of the players `keep` accepts.
pub open spec fn spec_kept_ids(players: Seq<PlayerState>, keep: spec_fn(PlayerState) -> bool) -> Seq<
    Seq<char>,
>
    decreases players.len(),
{
    if players.len() == 0 {
        Seq::empty()
    } else {
        let rest = spec_kept_ids(players.drop_last(), keep);
        if keep(players.last()) {
            rest.push(players.last().id@)
        } else {
            rest
        }
    }
}

/// The living players other than `actor`.
pub open spec fn spec_living_opponent(actor: Seq<char>) -> spec_fn(PlayerState) -> bool {
    |player: PlayerState| player.health != 0 && player.id@ != actor
}

proof fn lemma_living_opponents_kept(players: Seq<PlayerState>, actor: Seq<char>)
    ensures
        spec_living_opponents(players, actor) == spec_kept_ids(players, spec_living_opponent(actor)),
    decreases players.len(),
{
    if players.len() > 0 {
        lemma_living_opponents_kept(players.drop_last(), actor);
    }
}

/// Removing one player from a roster removes its id, if kept, from the kept ids' multiset.
proof fn lemma_kept_ids_remove(players: Seq<PlayerState>, keep: spec_fn(PlayerState) -> bool, j: int)
    requires
        0 <= j < players.len(),
    ensures
        spec_kept_ids(players, keep).to_multiset() == if keep(players[j]) {
            spec_kept_ids(players.remove(j), keep).to_multiset().insert(players[j].id@)
        } else {
            spec_kept_ids(players.remove(j), keep).to_multiset()
        },
    decreases players.len(),
{
    broadcast use vstd::seq_lib::to_multiset_build;

    let prefix = players.drop_last();
    if j == players.len() - 1 {
        assert(players.remove(j) =~= prefix);
    } else {
        lemma_kept_ids_remove(prefix, keep, j);
        let removed = players.remove(j);
        assert(removed.drop_last() =~= prefix.remove(j));
        assert(removed.last() == players.last());
        let rest = spec_kept_ids(prefix.remove(j), keep);
        if keep(players.last()) {
            if keep(players[j]) {
                assert(rest.to_multiset().insert(players[j].id@).insert(players.last().id@)
                    =~= rest.to_multiset().insert(players.last().id@).insert(players[j].id@));
            }
        }
    }
}

/// The kept ids of two rosters holding the same players in any order form the same
/// multiset.
proof fn lemma_kept_ids_permutation(
    a: Seq<PlayerState>,
    b: Seq<PlayerState>,
    keep: spec_fn(PlayerState) -> bool,
)
    requires
        a.to_multiset() == b.to_multiset(),
    ensures
        spec_kept_ids(a, keep).to_multiset() == spec_kept_ids(b, keep).to_multiset(),
    decreases a.len(),
{
    broadcast use vstd::seq_lib::to_multiset_build, vstd::seq_lib::to_multiset_remove,
        vstd::seq_lib::to_multiset_contains, vstd::seq_lib::to_multiset_len;

    if a.len() == 0 {
        assert(b.to_multiset().len() == 0);
        assert(b.len() == 0);
        assert(b =~= a);
    } else {
        let last = a.last();
        let prefix = a.drop_last();
        assert(a =~= prefix.push(last));
        assert(a.to_multiset().count(last) > 0);
        assert(b.contains(last));
        let j = choose|j: int| 0 <= j < b.len() && b[j] == last;
        let rest = b.remove(j);
        assert(rest.to_multiset() =~= prefix.to_multiset());
        lemma_kept_ids_permutation(prefix, rest, keep);
        lemma_kept_ids_remove(b, keep, j);
    }
}

proof fn lemma_bytes_le_antisymmetric(a: Seq<u8>, b: Seq<u8>)
    requires
        spec_bytes_le(a, b),
        spec_bytes_le(b, a),
    ensures
        a == b,
    decreases a.len(),
{
    if a.len() > 0 && b.len() > 0 {
        lemma_bytes_le_antisymmetric(a.drop_first(), b.drop_first());
        assert(a =~= seq![a[0]] + a.drop_first());
        assert(b =~= seq![b[0]] + b.drop_first());
    } else {
        assert(a =~= b);
    }
}

proof fn lemma_id_le_antisymmetric(a: Seq<char>, b: Seq<char>)
    requires
        spec_id_le(a, b),
        spec_id_le(b, a),
    ensures
        a == b,
{
    broadcast use vstd::utf8::encode_utf8_decode_utf8;

    lemma_bytes_le_antisymmetric(encode_utf8(a), encode_utf8(b));
    assert(vstd::utf8::decode_utf8(encode_utf8(a)) == a);
    assert(vstd::utf8::decode_utf8(encode_utf8(b)) == b);
}

/// Sorting identifiers keeps their multiset.
proof fn lemma_sort_ids_multiset(ids: Seq<Seq<char>>)
    ensures
        spec_sort_ids(ids).to_multiset() == ids.to_multiset(),
    decreases ids.len(),
{
    broadcast use vstd::seq_lib::to_multiset_build, vstd::seq_lib::to_multiset_insert;

    if ids.len() > 0 {
        let rest = ids.drop_last();
        lemma_sort_ids_multiset(rest);
        lemma_sort_ids_sorted(rest);
        lemma_id_insert_position(spec_sort_ids(rest), ids.last());
        assert(ids =~= rest.push(ids.last()));
    }
}

/// Two identifier lists sorted by identifier order and holding the same multiset are equal.
proof fn lemma_sorted_ids_unique(a: Seq<Seq<char>>, b: Seq<Seq<char>>)
    requires
        spec_ids_sorted(a),
        spec_ids_sorted(b),
        a.to_multiset() == b.to_multiset(),
    ensures
        a == b,
    decreases a.len(),
{
    broadcast use vstd::seq_lib::to_multiset_remove, vstd::seq_lib::to_multiset_contains,
        vstd::seq_lib::to_multiset_len;

    if a.len() == 0 {
        assert(b.to_multiset().len() == 0);
        assert(b =~= a);
    } else {
        assert(b.to_multiset().len() == a.len());
        assert(b.len() > 0);
        assert(a.to_multiset().count(b[0]) > 0);
        assert(b.to_multiset().count(a[0]) > 0);
        let k = choose|k: int| 0 <= k < a.len() && a[k] == b[0];
        let m = choose|m: int| 0 <= m < b.len() && b[m] == a[0];
        if k > 0 {
            assert(spec_id_le(a[0], a[k]));
        } else {
            lemma_bytes_le_total(encode_utf8(a[0]), encode_utf8(a[0]));
        }
        if m > 0 {
            assert(spec_id_le(b[0], b[m]));
        } else {
            lemma_bytes_le_total(encode_utf8(b[0]), encode_utf8(b[0]));
        }
        lemma_id_le_antisymmetric(a[0], b[0]);
        assert(a.remove(0) =~= a.drop_first());
        assert(b.remove(0) =~= b.drop_first());
        let a_rest = a.drop_first();
        let b_rest = b.drop_first();
        assert forall|i: int, j: int| 0 <= i < j < a_rest.len() implies spec_id_le(
            #[trigger] a_rest[i],
            #[trigger] a_rest[j],
        ) by {
            assert(a_rest[i] == a[i + 1] && a_rest[j] == a[j + 1]);
        }
        assert forall|i: int, j: int| 0 <= i < j < b_rest.len() implies spec_id_le(
            #[trigger] b_rest[i],
            #[trigger] b_rest[j],
        ) by {
            assert(b_rest[i] == b[i + 1] && b_rest[j] == b[j + 1]);
        }
        lemma_sorted_ids_unique(a_rest, b_rest);
        assert(a.len() == b.len());
        assert forall|i: int| 0 <= i < a.len() implies a[i] == b[i] by {
            if i > 0 {
                assert(a[i] == a_rest[i - 1] && b[i] == b_rest[i - 1]);
            }
        }
        assert(a =~= b);
    }
}

/// Sorting the kept ids of two rosters that hold the same players, in any order, gives the
/// same list.
pub proof fn lemma_sorted_kept_ids_order_free(
    a: Seq<PlayerState>,
    b: Seq<PlayerState>,
    keep: spec_fn(PlayerState) -> bool,
)
    requires
        a.to_multiset() == b.to_multiset(),
    ensures
        spec_sort_ids(spec_kept_ids(a, keep)) == spec_sort_ids(spec_kept_ids(b, keep)),
{
    let ka = spec_kept_ids(a, keep);
    let kb = spec_kept_ids(b, keep);
    lemma_kept_ids_permutation(a, b, keep);
    lemma_sort_ids_multiset(ka);
    lemma_sort_ids_multiset(kb);
    lemma_sort_ids_sorted(ka);
    lemma_sort_ids_sorted(kb);
    lemma_sorted_ids_unique(spec_sort_ids(ka), spec_sort_ids(kb));
}

/// The living-opponent list does not depend on roster order: two rosters holding the same
/// players in any order give the same sorted ids, so a draw over them depends on the seed
/// alone.
pub proof fn lemma_living_opponents_order_free(
    a: Seq<PlayerState>,
    b: Seq<PlayerState>,
    actor: Seq<char>,
)
    requires
        a.to_multiset() == b.to_multiset(),
    ensures
        spec_sort_ids(spec_living_opponents(a, actor)) == spec_sort_ids(
            spec_living_opponents(b, actor),
        ),
{
    lemma_living_opponents_kept(a, actor);
    lemma_living_opponents_kept(b, actor);
    lemma_sorted_kept_ids_order_free(a, b, spec_living_opponent(actor));
}

/// Who appears among the living opponents: exactly the living players other than `actor`.
proof fn lemma_living_opponents_contains(players: Seq<PlayerState>, actor: Seq<char>, id: Seq<char>)
    ensures
        spec_living_opponents(players, actor).contains(id) <==> exists|i: int|
            0 <= i < players.len() && #[trigger] players[i].id@ == id && players[i].health != 0
                && id != actor,
    decreases players.len(),
{
    if players.len() > 0 {
        let rest = players.drop_last();
        lemma_living_opponents_contains(rest, actor, id);
        let found = spec_living_opponents(players, actor);
        let before = spec_living_opponents(rest, actor);
        if found.contains(id) {
            let k = choose|k: int| 0 <= k < found.len() && found[k] == id;
            if k < before.len() {
                assert(before[k] == id);
                let i = choose|i: int|
                    0 <= i < rest.len() && #[trigger] rest[i].id@ == id && rest[i].health != 0
                        && id != actor;
                assert(players[i] == rest[i]);
            } else {
                assert(players[players.len() - 1].id@ == id);
            }
        }
        if exists|i: int|
            0 <= i < players.len() && #[trigger] players[i].id@ == id && players[i].health != 0
                && id != actor {
            let i = choose|i: int|
                0 <= i < players.len() && #[trigger] players[i].id@ == id && players[i].health != 0
                    && id != actor;
            if i == players.len() - 1 {
                assert(found[found.len() - 1] == id);
            } else {
                assert(rest[i] == players[i]);
                assert(rest[i].id@ == id);
                let k = choose|k: int| 0 <= k < before.len() && before[k] == id;
                assert(found[k] == id);
            }
        }
    }
}

/// On a roster of distinct ids, no living opponent appears twice.
proof fn lemma_living_opponents_distinct(players: Seq<PlayerState>, actor: Seq<char>)
    requires
        forall|i: int, j: int|
            0 <= i < j < players.len() ==> (#[trigger] players[i]).id@ != (#[trigger] players[j]).id@,
    ensures
        spec_living_opponents(players, actor).no_duplicates(),
    decreases players.len(),
{
    if players.len() > 0 {
        let rest = players.drop_last();
        assert forall|i: int, j: int| 0 <= i < j < rest.len() implies (#[trigger] rest[i]).id@
            != (#[trigger] rest[j]).id@ by {
            assert(rest[i] == players[i] && rest[j] == players[j]);
        }
        lemma_living_opponents_distinct(rest, actor);
        let last = players.last();
        lemma_living_opponents_contains(rest, actor, last.id@);
        if spec_living_opponents(rest, actor).contains(last.id@) {
            let i = choose|i: int|
                0 <= i < rest.len() && #[trigger] rest[i].id@ == last.id@ && rest[i].health != 0
                    && last.id@ != actor;
            assert(players[i] == rest[i]);
            assert(players[players.len() - 1] == last);
        }
    }
}

/// On a roster of distinct ids, the living-opponent list is strictly ascending in identifier
/// order and holds exactly the ids of the living players other than `actor`.
pub proof fn lemma_living_opponents_strictly_ascending(players: Seq<PlayerState>, actor: Seq<char>)
    requires
        forall|i: int, j: int|
            0 <= i < j < players.len() ==> (#[trigger] players[i]).id@ != (#[trigger] players[j]).id@,
    ensures
        ({
            let sorted = spec_sort_ids(spec_living_opponents(players, actor));
            &&& forall|i: int, j: int|
                0 <= i < j < sorted.len() ==> spec_id_le(#[trigger] sorted[i], #[trigger] sorted[j])
                    && sorted[i] != sorted[j]
            &&& forall|id: Seq<char>|
                sorted.contains(id) <==> exists|i: int|
                    0 <= i < players.len() && #[trigger] players[i].id@ == id && players[i].health
                        != 0 && id != actor
        }),
{
    let found = spec_living_opponents(players, actor);
    let sorted = spec_sort_ids(found);
    lemma_living_opponents_distinct(players, actor);
    lemma_sort_ids_sorted(found);
    lemma_sort_ids_multiset(found);
    found.lemma_multiset_has_no_duplicates();
    sorted.lemma_multiset_has_no_duplicates_conv();
    assert forall|id: Seq<char>| sorted.contains(id) <==> exists|i: int|
        0 <= i < players.len() && #[trigger] players[i].id@ == id && players[i].health != 0
            && id != actor by {
        lemma_sort_ids_contains(found, id);
        lemma_living_opponents_contains(players, actor, id);
    }
}

/// Whether `a` sorts no later than `b` in byte order.
fn bytes_le(a: &[u8], b: &[u8]) -> (le: bool)
    ensures
        le == spec_bytes_le(a@, b@),
{
    let mut i: usize = 0;
    assert(a@.skip(0) =~= a@);
    assert(b@.skip(0) =~= b@);
    while i < a.len() && i < b.len() && a[i] == b[i]
        invariant
            i <= a@.len(),
            i <= b@.len(),
            spec_bytes_le(a@, b@) == spec_bytes_le(a@.skip(i as int), b@.skip(i as int)),
        decreases a@.len() - i,
    {
        assert(a@.skip(i as int).drop_first() =~= a@.skip(i + 1));
        assert(b@.skip(i as int).drop_first() =~= b@.skip(i + 1));
        i = i + 1;
    }
    if i == a.len() {
        true
    } else if i == b.len() {
        false
    } else {
        a[i] < b[i]
    }
}

/// Whether identifier `a` sorts no later than `b`.
fn id_le(a: &String, b: &String) -> (le: bool)
    ensures
        le == spec_id_le(a@, b@),
{
    bytes_le(a.as_str().as_bytes(), b.as_str().as_bytes())
}

/// Inserts `id` into identifier-sorted `ids` after every identifier that sorts no later, as
/// one step of the stable sort [`spec_sort_ids`].
pub(crate) fn insert_sorted_id(ids: &mut Vec<String>, id: String)
    ensures
        spec_string_views(final(ids)@) == spec_string_views(old(ids)@).insert(
            spec_id_insert_position(spec_string_views(old(ids)@), id@),
            id@,
        ),
{
    let ghost views = spec_string_views(ids@);
    let mut position: usize = 0;
    assert(views.skip(0) =~= views);
    while position < ids.len() && id_le(&ids[position], &id)
        invariant
            position <= ids@.len(),
            views == spec_string_views(ids@),
            spec_id_insert_position(views, id@) == position + spec_id_insert_position(
                views.skip(position as int),
                id@,
            ),
        decreases ids@.len() - position,
    {
        assert(views.skip(position as int).drop_first() =~= views.skip(position + 1));
        position = position + 1;
    }
    let ghost value = id@;
    ids.insert(position, id);
    assert(spec_string_views(ids@) =~= views.insert(position as int, value));
}

impl ResolveContext {
    /// `a` and `b` agree on everything but the damage list.
    pub open spec fn same_but_damage(a: ResolveContext, b: ResolveContext) -> bool {
        a == ResolveContext { damage: a.damage, ..b }
    }

    /// Position of the damage entry for `player_id`, if present.
    fn damage_index(&self, player_id: &str) -> (index: Option<usize>)
        ensures
            index matches Some(i) ==> spec_damage_index(self.damage@, player_id@) == Some(
                i as int,
            ) && i < self.damage@.len(),
            index is None ==> spec_damage_index(self.damage@, player_id@) is None,
    {
        proof {
            lemma_damage_index(self.damage@, player_id@);
        }
        let key: String = player_id.to_owned();
        let mut i: usize = 0;
        while i < self.damage.len()
            invariant
                i <= self.damage.len(),
                key@ == player_id@,
                forall|j: int| 0 <= j < i ==> self.damage@[j].player_id@ != player_id@,
                spec_damage_index(self.damage@, player_id@) matches Some(k) ==> i <= k,
                spec_damage_index(self.damage@, player_id@) matches Some(k) ==> 0 <= k
                    < self.damage@.len() && self.damage@[k].player_id@ == player_id@,
            decreases self.damage.len() - i,
        {
            if self.damage[i].player_id == key {
                proof {
                    lemma_damage_index(self.damage@, player_id@);
                }
                return Some(i);
            }
            i = i + 1;
        }
        None
    }

    /// The itemized damage entry for `player_id`, inserting a zeroed one if this is the first
    /// effect to touch that player during this action.
    pub fn damage_entry(&mut self, player_id: &str) -> (entry: &mut DamageEvent)
        ensures
            Self::same_but_damage(*final(self), *old(self)),
            match spec_damage_index(old(self).damage@, player_id@) {
                Some(i) => {
                    &&& *entry == old(self).damage@[i]
                    &&& final(self).damage@ == old(self).damage@.update(i, *final(entry))
                },
                None => {
                    &&& spec_zero_entry(*entry, player_id@)
                    &&& final(self).damage@ == old(self).damage@.push(*final(entry))
                },
            },
    {
        match self.damage_index(player_id) {
            Some(i) => &mut self.damage[i],
            None => {
                self.damage.push(
                    DamageEvent {
                        player_id: player_id.to_owned(),
                        direct: 0,
                        splash: 0,
                        backlash: 0,
                        hazard: 0,
                        wall_impact: 0,
                        healed: 0,
                        was_critical: false,
                        knockback: FixedPoint::zero(),
                        eliminated: false,
                    },
                );
                let last = self.damage.len() - 1;
                &mut self.damage[last]
            },
        }
    }

    /// Makes sure a damage entry for `player_id` exists and returns its index.
    pub(crate) fn touch_entry(&mut self, player_id: &str) -> (index: usize)
        ensures
            Self::same_but_damage(*final(self), *old(self)),
            spec_damage_views(final(self).damage@) == spec_touch_entry(
                spec_damage_views(old(self).damage@),
                player_id@,
            ).0,
            index as int == spec_touch_entry(spec_damage_views(old(self).damage@), player_id@).1,
            index < final(self).damage@.len(),
    {
        proof {
            lemma_damage_index_views(self.damage@, player_id@);
        }
        let ghost before = self.damage@;
        match self.damage_index(player_id) {
            Some(i) => i,
            None => {
                self.damage.push(
                    DamageEvent {
                        player_id: player_id.to_owned(),
                        direct: 0,
                        splash: 0,
                        backlash: 0,
                        hazard: 0,
                        wall_impact: 0,
                        healed: 0,
                        was_critical: false,
                        knockback: FixedPoint::zero(),
                        eliminated: false,
                    },
                );
                assert(spec_damage_views(self.damage@) =~= spec_damage_views(before).push(
                    spec_zero_view(player_id@),
                ));
                self.damage.len() - 1
            },
        }
    }

    /// Adds `delta` (saturating) to the knockback recorded for `player_id`.
    pub(crate) fn add_knockback(&mut self, player_id: &str, delta: FixedPoint)
        ensures
            Self::same_but_damage(*final(self), *old(self)),
            spec_damage_views(final(self).damage@) == spec_add_knockback(
                spec_damage_views(old(self).damage@),
                player_id@,
                delta,
            ),
    {
        let i = self.touch_entry(player_id);
        let ghost touched = self.damage@;
        let knockback = self.damage[i].knockback.saturating_add(delta);
        self.damage[i].knockback = knockback;
        assert(spec_damage_views(self.damage@) =~= spec_damage_views(touched).update(
            i as int,
            DamageView { knockback, ..spec_damage_views(touched)[i as int] },
        ));
    }

    /// The damage entry recorded for `player_id`, if any effect touched that player.
    pub fn damage_for(&self, player_id: &str) -> (entry: Option<&DamageEvent>)
        ensures
            entry matches Some(e) ==> spec_damage_index(self.damage@, player_id@) matches Some(i)
                && *e == self.damage@[i],
            entry is None ==> spec_damage_index(self.damage@, player_id@) is None,
    {
        match self.damage_index(player_id) {
            Some(i) => Some(&self.damage[i]),
            None => None,
        }
    }

    /// Ids of every living player other than the actor, sorted by identifier.
    ///
    /// Sorted so that draws and tie-breaks over the candidates depend on the seed, never on
    /// roster order.
    pub fn living_opponent_ids(&self) -> (ids: Vec<String>)
        ensures
            spec_string_views(ids@) == spec_sort_ids(
                spec_living_opponents(self.state.players@, self.actor_id@),
            ),
    {
        let players = &self.state.players;
        let mut ids: Vec<String> = Vec::new();
        let mut i: usize = 0;
        assert(players@.subrange(0, 0) =~= Seq::<PlayerState>::empty());
        assert(spec_string_views(ids@) =~= Seq::<Seq<char>>::empty());
        assert(spec_living_opponents(players@.subrange(0, 0), self.actor_id@) =~= Seq::<
            Seq<char>,
        >::empty());
        while i < players.len()
            invariant
                i <= players@.len(),
                spec_string_views(ids@) == spec_sort_ids(
                    spec_living_opponents(players@.subrange(0, i as int), self.actor_id@),
                ),
            decreases players@.len() - i,
        {
            let player = &players[i];
            let ghost rest = spec_living_opponents(
                players@.subrange(0, i as int),
                self.actor_id@,
            );
            assert(players@.subrange(0, i + 1).drop_last() =~= players@.subrange(0, i as int));
            assert(players@.subrange(0, i + 1).last() == *player);
            assert(rest.push(player.id@).drop_last() =~= rest);
            if !player.is_eliminated() && player.id != self.actor_id {
                insert_sorted_id(&mut ids, player.id.clone());
            }
            i = i + 1;
        }
        assert(players@.subrange(0, players@.len() as int) =~= players@);
        ids
    }

    /// Next persistent-object sequence number, advancing the counter (saturating).
    pub fn next_object_sequence(&mut self) -> (sequence: u32)
        ensures
            sequence == old(self).state.next_object_sequence,
            final(self).state.next_object_sequence == (if sequence < u32::MAX {
                sequence + 1
            } else {
                sequence as int
            }),
            *final(self) == (ResolveContext {
                state: SimulationState {
                    next_object_sequence: final(self).state.next_object_sequence,
                    ..old(self).state
                },
                ..*old(self)
            }),
    {
        let sequence = self.state.next_object_sequence;
        self.state.next_object_sequence = if sequence < u32::MAX {
            sequence + 1
        } else {
            sequence
        };
        sequence
    }

    /// Next terrain-operation sequence number, advancing the counter (saturating).
    pub fn next_terrain_sequence(&mut self) -> (sequence: u32)
        ensures
            sequence == old(self).state.next_terrain_sequence,
            final(self).state.next_terrain_sequence == (if sequence < u32::MAX {
                sequence + 1
            } else {
                sequence as int
            }),
            *final(self) == (ResolveContext {
                state: SimulationState {
                    next_terrain_sequence: final(self).state.next_terrain_sequence,
                    ..old(self).state
                },
                ..*old(self)
            }),
    {
        let sequence = self.state.next_terrain_sequence;
        self.state.next_terrain_sequence = if sequence < u32::MAX {
            sequence + 1
        } else {
            sequence
        };
        sequence
    }
}

/// Whether `kind` is resolved by the support family (healing, health transfer, self
/// damage), whose resolver is not part of this crate.
pub open spec fn spec_support_kind(kind: EffectKind) -> bool {
    kind == EffectKind::Heal || kind == EffectKind::HealthTransfer || kind == EffectKind::SelfDamage
}

/// Resolves one effect by dispatching on its kind, exhaustively, to the family that owns
/// it: displacement, relocation, persistent objects, statuses, or attack modifiers. Each
/// kind's outcome is exactly its family resolver's.
pub fn resolve_effect(ctx: &mut ResolveContext, effect: &SpecialEffect) -> (result: SimResult<()>)
    requires
        !spec_support_kind(effect.kind),
    ensures
        (effect.kind == EffectKind::Knockback || effect.kind == EffectKind::Push || effect.kind
            == EffectKind::Pull || effect.kind == EffectKind::Recoil || effect.kind
            == EffectKind::WallImpact) ==> displacement::spec_resolve_outcome(
            *old(ctx),
            *final(ctx),
            *effect,
            result,
        ),
        (effect.kind == EffectKind::Teleport || effect.kind == EffectKind::Relocate || effect.kind
            == EffectKind::Obscure) ==> relocation::spec_resolve_outcome(
            *old(ctx),
            *final(ctx),
            *effect,
            result,
        ),
        (effect.kind == EffectKind::SpawnTurret || effect.kind == EffectKind::EmbedProjectile
            || effect.kind == EffectKind::ChainDetonate) ==> objects::spec_resolve_outcome(
            *old(ctx),
            *final(ctx),
            *effect,
            result,
        ),
        (effect.kind == EffectKind::Chill || effect.kind == EffectKind::Lockdown || effect.kind
            == EffectKind::Embers) ==> status::spec_resolve_outcome(
            *old(ctx),
            *final(ctx),
            *effect,
            result,
        ),
        (effect.kind == EffectKind::MultiStrike || effect.kind == EffectKind::GuaranteeCrit
            || effect.kind == EffectKind::Cluster || effect.kind == EffectKind::Return || effect.kind
            == EffectKind::Tunnel) ==> attack_mods::spec_resolve_outcome(
            *old(ctx),
            *final(ctx),
            *effect,
            result,
        ),
{
    match effect.kind {
        EffectKind::Knockback
        | EffectKind::Push
        | EffectKind::Pull
        | EffectKind::Recoil
        | EffectKind::WallImpact => displacement::resolve(ctx, effect),
        EffectKind::Teleport | EffectKind::Relocate | EffectKind::Obscure => relocation::resolve(
            ctx,
            effect,
        ),
        EffectKind::SpawnTurret | EffectKind::EmbedProjectile | EffectKind::ChainDetonate =>
            objects::resolve(ctx, effect),
        EffectKind::Chill | EffectKind::Lockdown | EffectKind::Embers => status::resolve(
            ctx,
            effect,
        ),
        EffectKind::MultiStrike
        | EffectKind::GuaranteeCrit
        | EffectKind::Cluster
        | EffectKind::Return
        | EffectKind::Tunnel => attack_mods::resolve(ctx, effect),
        EffectKind::Heal | EffectKind::HealthTransfer | EffectKind::SelfDamage => {
            proof {
                assert(false);
            }
            Ok(())
        },
    }
}

} // verus!

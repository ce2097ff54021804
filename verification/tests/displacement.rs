use db_sim_core::error::SimResult;
use db_sim_core::fixed::{FixedPoint, POSITION_SCALE};
use db_sim_core::resolve::displacement::resolve;
use db_sim_core::resolve::ResolveContext;
use db_sim_core::rng::Rng;
use db_sim_core::terrain::{self, Material, TerrainMask};
use db_sim_core::types::{
    DamageEvent, EffectKind, EffectTrigger, MatchPhase, PlayerState, SimulationState,
    SpecialEffect, StatusEffect, TurnEndReason,
};

const WIDE: u32 = 64;
const WIDE_CELLS: i32 = 64;

fn empty_terrain() -> TerrainMask {
    match terrain::create_mask(WIDE, WIDE, Material::Empty) {
        Ok(mask) => mask,
        Err(_) => panic!("fixture invariant: an empty mask must be constructible"),
    }
}

fn player(id: &str, position: FixedPoint, health: u16) -> PlayerState {
    PlayerState {
        id: id.to_owned(),
        team: 0,
        health,
        max_health: 400,
        position,
        character_id: "natomica".to_owned(),
        statuses: Vec::new(),
    }
}

struct Harness {
    ctx: ResolveContext,
}

impl Harness {
    fn new(players: Vec<PlayerState>) -> Self {
        let mut players = players;
        players.sort_by(|a, b| a.id.cmp(&b.id));
        Self {
            ctx: ResolveContext {
                state: SimulationState {
                    pending_turn_end_reason: TurnEndReason::Passed,
                    last_turn_end_reason: TurnEndReason::Passed,
                    simulation_version: 2,
                    content_version: 1,
                    tick: 0,
                    turn_number: 1,
                    phase: MatchPhase::AimingAndSelection,
                    active_player_id: "actor".to_owned(),
                    wind_per_tick: 0,
                    movement_remaining: 0,
                    has_attacked_this_turn: false,
                    terrain: empty_terrain(),
                    players,
                    objects: Vec::new(),
                    processed_command_ids: Vec::new(),
                    next_terrain_sequence: 0,
                    next_object_sequence: 0,
                    rng_state: 12_345,
                },
                rng: Rng::from_state(12_345),
                actor_id: "actor".to_owned(),
                primary_target_id: Some("target".to_owned()),
                secondary_target_id: None,
                impact_point: FixedPoint::zero(),
                damage: Vec::new(),
                terrain_ops: Vec::new(),
                object_changes: Vec::new(),
                random_outcomes: Vec::new(),
                terrain_cells_removed: 0,
                status_changes: Vec::new(),
            },
        }
    }

    fn resolve_at(&mut self, impact: FixedPoint, effect: &SpecialEffect) -> SimResult<()> {
        self.ctx.impact_point = impact;
        resolve(&mut self.ctx, effect)
    }

    fn position_of(&self, id: &str) -> FixedPoint {
        match self.ctx.state.player(id) {
            Some(player) => player.position,
            None => panic!("fixture invariant: player {id} must exist"),
        }
    }

    fn damage_of(&self, id: &str) -> Option<&DamageEvent> {
        self.ctx.damage_for(id)
    }
}

fn effect(kind: EffectKind, magnitude: i32, secondary: i32) -> SpecialEffect {
    SpecialEffect {
        trigger: EffectTrigger::OnImpact,
        kind,
        magnitude,
        magnitude_secondary: secondary,
        duration_turns: 0,
    }
}

fn cells(x: i32, y: i32) -> FixedPoint {
    match FixedPoint::from_cells(x, y) {
        Some(point) => point,
        None => panic!("fixture invariant: from_cells must succeed"),
    }
}

#[test]
fn knockback_actually_moves_the_target_away_from_the_impact() {
    let mut harness = Harness::new(vec![player("actor", cells(0, 10), 400), player("target", cells(5, 10), 400)]);
    let before = harness.position_of("target");
    assert_eq!(harness.resolve_at(cells(0, 10), &effect(EffectKind::Knockback, 4 * POSITION_SCALE, 0)), Ok(()));
    let after = harness.position_of("target");
    assert!(after.x > before.x, "target must be pushed away from the impact: {before:?} -> {after:?}");
    let recorded = harness.damage_of("target").map(|event| event.knockback);
    assert_eq!(recorded, Some(after.saturating_sub(before)));
}

#[test]
fn push_affects_everyone_inside_the_radius_and_nobody_outside_it() {
    let mut harness = Harness::new(vec![
        player("actor", cells(0, 10), 400),
        player("target", cells(2, 10), 400),
        player("zzz_far", cells(40, 10), 400),
    ]);
    let near_before = harness.position_of("target");
    let far_before = harness.position_of("zzz_far");
    let radius = 10 * POSITION_SCALE;
    assert_eq!(harness.resolve_at(cells(0, 10), &effect(EffectKind::Push, 2 * POSITION_SCALE, radius)), Ok(()));
    assert_ne!(harness.position_of("target"), near_before, "in-radius must move");
    assert_eq!(harness.position_of("zzz_far"), far_before, "out-of-radius must not move");
}

#[test]
fn displacement_stops_at_solid_terrain_instead_of_passing_through_it() {
    let mut harness = Harness::new(vec![player("actor", cells(0, 10), 400), player("target", cells(3, 10), 400)]);
    for y in 0..WIDE_CELLS {
        terrain::set_material(&mut harness.ctx.state.terrain, 5, y, Material::ReinforcedStone);
    }
    assert_eq!(harness.resolve_at(cells(0, 10), &effect(EffectKind::Push, 20 * POSITION_SCALE, 0)), Ok(()));
    let after = harness.position_of("target");
    let (cell_x, _) = after.to_cells();
    assert!(cell_x < 5, "must stop before the wall, landed in cell {cell_x}");
    assert!(
        !terrain::is_solid_at(&harness.ctx.state.terrain, after),
        "a displaced character must never end up inside terrain",
    );
}

#[test]
fn a_locked_down_target_cannot_be_displaced() {
    let mut harness = Harness::new(vec![player("actor", cells(0, 10), 400), player("target", cells(5, 10), 400)]);
    if let Some(index) = harness.ctx.state.player_index("target") {
        harness.ctx.state.players[index].statuses.push(StatusEffect {
            kind: EffectKind::Lockdown,
            magnitude: 0,
            turns_remaining: 2,
        });
    }
    let before = harness.position_of("target");
    assert_eq!(harness.resolve_at(cells(0, 10), &effect(EffectKind::Push, 8 * POSITION_SCALE, 0)), Ok(()));
    assert_eq!(harness.position_of("target"), before, "Numa's Pin prevents displacement, not only movement");
}

#[test]
fn a_target_exactly_on_the_impact_point_is_not_pushed_in_an_arbitrary_direction() {
    let mut harness = Harness::new(vec![player("actor", cells(0, 0), 400), player("target", cells(5, 10), 400)]);
    let before = harness.position_of("target");
    assert_eq!(harness.resolve_at(cells(5, 10), &effect(EffectKind::Push, 4 * POSITION_SCALE, 0)), Ok(()));
    assert_eq!(harness.position_of("target"), before);
}

#[test]
fn falloff_means_a_distant_target_moves_less_than_a_close_one() {
    let mut harness = Harness::new(vec![
        player("actor", cells(0, 10), 400),
        player("target", cells(2, 10), 400),
        player("zzz_mid", cells(8, 10), 400),
    ]);
    let near_before = harness.position_of("target");
    let mid_before = harness.position_of("zzz_mid");
    assert_eq!(
        harness.resolve_at(cells(0, 10), &effect(EffectKind::Push, 8 * POSITION_SCALE, 20 * POSITION_SCALE)),
        Ok(())
    );
    let near_moved = harness.position_of("target").x.saturating_sub(near_before.x);
    let mid_moved = harness.position_of("zzz_mid").x.saturating_sub(mid_before.x);
    assert!(near_moved > 0 && mid_moved > 0, "both were inside the radius");
    assert!(near_moved > mid_moved, "closer target must be displaced further: {near_moved} vs {mid_moved}");
}

#[test]
fn pull_drags_a_wounded_target_to_the_actor() {
    let mut harness = Harness::new(vec![player("actor", cells(0, 10), 400), player("target", cells(10, 10), 100)]);
    let target_before = harness.position_of("target");
    let actor_before = harness.position_of("actor");
    assert_eq!(harness.resolve_at(cells(10, 10), &effect(EffectKind::Pull, 6 * POSITION_SCALE, 0)), Ok(()));
    assert!(harness.position_of("target").x < target_before.x, "a wounded target is dragged toward the actor");
    assert_eq!(harness.position_of("actor"), actor_before, "the actor stays put");
}

#[test]
fn pull_dives_the_actor_onto_a_healthy_target() {
    let mut harness = Harness::new(vec![player("actor", cells(0, 10), 400), player("target", cells(10, 10), 400)]);
    let target_before = harness.position_of("target");
    let actor_before = harness.position_of("actor");
    assert_eq!(harness.resolve_at(cells(10, 10), &effect(EffectKind::Pull, 6 * POSITION_SCALE, 0)), Ok(()));
    assert!(harness.position_of("actor").x > actor_before.x, "against a healthy target Numa pulls herself in");
    assert_eq!(harness.position_of("target"), target_before);
}

#[test]
fn pull_threshold_is_read_from_the_effect_when_supplied() {
    let mut harness = Harness::new(vec![player("actor", cells(0, 10), 400), player("target", cells(10, 10), 200)]);
    let actor_before = harness.position_of("actor");
    assert_eq!(harness.resolve_at(cells(10, 10), &effect(EffectKind::Pull, 6 * POSITION_SCALE, 2_500)), Ok(()));
    assert!(
        harness.position_of("actor").x > actor_before.x,
        "50% health is above a 25% threshold, so this must engage rather than execute",
    );
}

#[test]
fn pull_without_a_target_is_a_no_op_not_an_error() {
    let mut harness = Harness::new(vec![player("actor", cells(0, 10), 400)]);
    let before = harness.position_of("actor");
    harness.ctx.primary_target_id = None;
    assert_eq!(harness.resolve_at(cells(5, 10), &effect(EffectKind::Pull, 4 * POSITION_SCALE, 0)), Ok(()));
    assert_eq!(harness.position_of("actor"), before);
}

#[test]
fn recoil_displaces_the_actor_away_from_the_impact() {
    let mut harness = Harness::new(vec![player("actor", cells(10, 10), 400)]);
    let before = harness.position_of("actor");
    assert_eq!(harness.resolve_at(cells(5, 10), &effect(EffectKind::Recoil, 2 * POSITION_SCALE, 0)), Ok(()));
    assert!(harness.position_of("actor").x > before.x, "recoil pushes the shooter away from where the shot landed");
}

#[test]
fn wall_impact_damages_a_target_driven_into_terrain() {
    let mut harness = Harness::new(vec![player("actor", cells(0, 10), 400), player("target", cells(3, 10), 400)]);
    for y in 0..WIDE_CELLS {
        terrain::set_material(&mut harness.ctx.state.terrain, 5, y, Material::ReinforcedStone);
    }
    assert_eq!(harness.resolve_at(cells(0, 10), &effect(EffectKind::Push, 20 * POSITION_SCALE, 0)), Ok(()));
    let health_after_push = harness.ctx.state.player("target").map(|player| player.health).unwrap_or_default();
    assert_eq!(harness.resolve_at(cells(0, 10), &effect(EffectKind::WallImpact, 25, 0)), Ok(()));
    let event = harness.damage_of("target");
    assert_eq!(event.map(|e| e.wall_impact), Some(25), "25% of BASE_ATTACK");
    let health_now = harness.ctx.state.player("target").map(|player| player.health).unwrap_or_default();
    assert_eq!(health_now, health_after_push.saturating_sub(25));
}

#[test]
fn wall_impact_spares_a_target_that_was_never_displaced() {
    let mut harness = Harness::new(vec![player("actor", cells(0, 10), 400), player("target", cells(4, 10), 400)]);
    for y in 0..WIDE_CELLS {
        terrain::set_material(&mut harness.ctx.state.terrain, 5, y, Material::ReinforcedStone);
    }
    assert_eq!(harness.resolve_at(cells(0, 10), &effect(EffectKind::WallImpact, 25, 0)), Ok(()));
    assert_eq!(
        harness.damage_of("target").map(|e| e.wall_impact),
        None,
        "no displacement this action means no wall bonus",
    );
}

#[test]
fn wall_impact_can_eliminate_and_says_so() {
    let mut harness = Harness::new(vec![player("actor", cells(0, 10), 400), player("target", cells(3, 10), 10)]);
    for y in 0..WIDE_CELLS {
        terrain::set_material(&mut harness.ctx.state.terrain, 5, y, Material::ReinforcedStone);
    }
    assert_eq!(harness.resolve_at(cells(0, 10), &effect(EffectKind::Push, 20 * POSITION_SCALE, 0)), Ok(()));
    assert_eq!(harness.resolve_at(cells(0, 10), &effect(EffectKind::WallImpact, 25, 0)), Ok(()));
    assert_eq!(harness.ctx.state.player("target").map(|player| player.health), Some(0));
    assert_eq!(
        harness.damage_of("target").map(|e| e.eliminated),
        Some(true),
        "the elimination cause must be reported, not inferred",
    );
}

#[test]
fn the_same_input_displaces_identically_twice() {
    let run = || {
        let mut harness = Harness::new(vec![
            player("actor", cells(0, 10), 400),
            player("target", cells(4, 10), 400),
            player("zzz_third", cells(7, 12), 400),
        ]);
        let _ = harness.resolve_at(cells(0, 10), &effect(EffectKind::Push, 5 * POSITION_SCALE, 30 * POSITION_SCALE));
        (harness.position_of("target"), harness.position_of("zzz_third"))
    };
    assert_eq!(run(), run());
}

#[test]
fn sweep_terminates_even_with_an_absurd_magnitude() {
    let mut harness = Harness::new(vec![player("actor", cells(0, 10), 400), player("target", cells(1, 10), 400)]);
    assert_eq!(harness.resolve_at(cells(0, 10), &effect(EffectKind::Push, i32::MAX, 0)), Ok(()));
    assert!(!terrain::is_solid_at(&harness.ctx.state.terrain, harness.position_of("target")));
}

#[test]
fn a_zero_radius_knockback_moves_only_the_primary_target() {
    let mut harness = Harness::new(vec![
        player("actor", cells(0, 10), 400),
        player("bystander", cells(3, 10), 400),
        player("target", cells(5, 10), 400),
    ]);
    let bystander_before = harness.position_of("bystander");
    let target_before = harness.position_of("target");
    assert_eq!(harness.resolve_at(cells(0, 10), &effect(EffectKind::Knockback, 4 * POSITION_SCALE, 0)), Ok(()));
    assert_eq!(harness.position_of("bystander"), bystander_before);
    assert!(harness.damage_of("bystander").is_none());
    assert!(harness.position_of("target").x > target_before.x);
}

#[test]
fn the_effect_dispatcher_routes_knockback_to_displacement() {
    let mut harness = Harness::new(vec![player("actor", cells(0, 10), 400), player("target", cells(5, 10), 400)]);
    harness.ctx.impact_point = cells(0, 10);
    let before = harness.position_of("target");
    let knockback = effect(EffectKind::Knockback, 4 * POSITION_SCALE, 0);
    assert_eq!(db_sim_core::resolve::resolve_effect(&mut harness.ctx, &knockback), Ok(()));
    let after = harness.position_of("target");
    assert!(after.x > before.x);
    assert_eq!(harness.damage_of("target").map(|event| event.knockback), Some(after.saturating_sub(before)));
}

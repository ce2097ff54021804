use db_sim_core::error::SimResult;
use db_sim_core::fixed::{FixedPoint, POSITION_SCALE};
use db_sim_core::resolve::objects::{resolve, KNIFE_CHAIN_TRIGGER_RADIUS};
use db_sim_core::resolve::ResolveContext;
use db_sim_core::rng::Rng;
use db_sim_core::terrain::{self, Material, TerrainMask, TerrainOperation};
use db_sim_core::types::{
    DamageEvent, EffectKind, EffectTrigger, MatchPhase, PersistentObject, PersistentObjectKind,
    PersistentObjectTransition, PlayerState, SimulationState, SpecialEffect, TurnEndReason,
};

/// A 60x20 terrain mask, larger than any blast radius exercised here, filled uniformly.
fn terrain_mask(fill: Material) -> TerrainMask {
    TerrainMask { width: 60, height: 20, cells: vec![fill.code(); 1_200] }
}

fn player(id: &str, position: FixedPoint) -> PlayerState {
    PlayerState {
        id: id.to_string(),
        team: 0,
        health: 300,
        max_health: 300,
        position,
        character_id: "test-character".to_string(),
        statuses: Vec::new(),
    }
}

fn base_state(players: Vec<PlayerState>) -> SimulationState {
    SimulationState {
        pending_turn_end_reason: TurnEndReason::Passed,
        last_turn_end_reason: TurnEndReason::Passed,
        simulation_version: 1,
        content_version: 1,
        tick: 0,
        turn_number: 1,
        phase: MatchPhase::Resolution,
        active_player_id: "actor".to_string(),
        wind_per_tick: 0,
        movement_remaining: 0,
        has_attacked_this_turn: true,
        terrain: terrain_mask(Material::Empty),
        players,
        objects: Vec::new(),
        processed_command_ids: Vec::new(),
        next_terrain_sequence: 0,
        next_object_sequence: 0,
        rng_state: 1,
    }
}

fn spawn_turret_effect() -> SpecialEffect {
    SpecialEffect {
        trigger: EffectTrigger::OnImpact,
        kind: EffectKind::SpawnTurret,
        magnitude: 3,
        magnitude_secondary: 0,
        duration_turns: 3,
    }
}

fn embed_projectile_effect(cap: i32) -> SpecialEffect {
    SpecialEffect {
        trigger: EffectTrigger::OnImpact,
        kind: EffectKind::EmbedProjectile,
        magnitude: KNIFE_CHAIN_TRIGGER_RADIUS,
        magnitude_secondary: cap,
        duration_turns: u8::MAX,
    }
}

fn chain_detonate_effect() -> SpecialEffect {
    SpecialEffect {
        trigger: EffectTrigger::OnImpact,
        kind: EffectKind::ChainDetonate,
        magnitude: 70,
        magnitude_secondary: 10 * POSITION_SCALE,
        duration_turns: 0,
    }
}

/// One resolve context reused across several effects.
struct Fixture {
    ctx: ResolveContext,
}

impl Fixture {
    fn new(players: Vec<PlayerState>) -> Self {
        Self {
            ctx: ResolveContext {
                state: base_state(players),
                rng: Rng::from_state(1),
                actor_id: String::new(),
                primary_target_id: None,
                secondary_target_id: None,
                impact_point: FixedPoint::zero(),
                damage: Vec::new(),
                terrain_ops: Vec::new(),
                object_changes: Vec::new(),
                random_outcomes: Vec::new(),
                terrain_cells_removed: 0,
                status_changes: Vec::new(),
            },
        }
    }

    fn resolve_effect(
        &mut self,
        actor_id: &str,
        impact_point: FixedPoint,
        effect: &SpecialEffect,
    ) -> SimResult<()> {
        self.ctx.actor_id = actor_id.to_string();
        self.ctx.impact_point = impact_point;
        resolve(&mut self.ctx, effect)
    }

    fn objects_of_kind(&self, kind: PersistentObjectKind) -> Vec<&PersistentObject> {
        self.ctx.state.objects.iter().filter(|object| object.kind == kind).collect()
    }

    fn spawned_count(&self) -> usize {
        self.ctx
            .object_changes
            .iter()
            .filter(|change| change.transition == PersistentObjectTransition::Spawned)
            .count()
    }
}

#[test]
fn spawn_turret_creates_turret_object() {
    let impact = FixedPoint::new(4_096, 0);
    let mut fixture = Fixture::new(vec![player("emi", FixedPoint::zero())]);

    let result = fixture.resolve_effect("emi", impact, &spawn_turret_effect());
    assert!(result.is_ok());

    let turrets = fixture.objects_of_kind(PersistentObjectKind::Turret);
    let Some(turret) = turrets.first() else {
        panic!("Emi's turret must exist after SpawnTurret resolves")
    };
    assert_eq!(turret.health, 80, "80 HP");
    assert_eq!(turret.turns_remaining, 3, "3 turns");
    assert_eq!(turret.position, impact);
    assert_eq!(turret.owner_id, "emi");
    assert_eq!(fixture.spawned_count(), 1);
}

#[test]
fn spawn_turret_replaces_rather_than_accumulates() {
    let mut fixture = Fixture::new(vec![player("emi", FixedPoint::zero())]);
    let effect = spawn_turret_effect();

    let first_impact = FixedPoint::new(1_024, 0);
    assert!(fixture.resolve_effect("emi", first_impact, &effect).is_ok());
    let second_impact = FixedPoint::new(2_048, 0);
    assert!(fixture.resolve_effect("emi", second_impact, &effect).is_ok());

    let turrets = fixture.objects_of_kind(PersistentObjectKind::Turret);
    assert_eq!(turrets.len(), 1, "only one Emi turret may exist at a time");
    let Some(turret) = turrets.first() else { panic!("a turret must remain") };
    assert_eq!(turret.position, second_impact, "the second turret replaces the first");
}

#[test]
fn spawn_turret_is_scoped_per_owner() {
    let mut fixture = Fixture::new(vec![
        player("emi", FixedPoint::zero()),
        player("aleph", FixedPoint::zero()),
    ]);
    let effect = spawn_turret_effect();

    assert!(fixture.resolve_effect("emi", FixedPoint::new(1_000, 0), &effect).is_ok());
    assert!(fixture.resolve_effect("aleph", FixedPoint::new(2_000, 0), &effect).is_ok());

    let turrets = fixture.objects_of_kind(PersistentObjectKind::Turret);
    assert_eq!(turrets.len(), 2, "different owners each get their own turret");
}

#[test]
fn embed_projectile_creates_persistent_knife() {
    let impact = FixedPoint::new(5_000, 0);
    let mut fixture = Fixture::new(vec![player("aleph", FixedPoint::zero())]);

    let result = fixture.resolve_effect("aleph", impact, &embed_projectile_effect(8));
    assert!(result.is_ok());

    let knives = fixture.objects_of_kind(PersistentObjectKind::EmbeddedKnife);
    assert_eq!(knives.len(), 1);
    let Some(knife) = knives.first() else { panic!("the embedded knife must exist") };
    assert_eq!(knife.turns_remaining, u8::MAX, "persists until triggered");
    assert_eq!(knife.position, impact);
    assert_eq!(knife.owner_id, "aleph");
}

#[test]
fn embed_projectile_evicts_oldest_when_cap_exceeded() {
    let mut fixture = Fixture::new(vec![player("aleph", FixedPoint::zero())]);
    let effect = embed_projectile_effect(8);

    let landings = [
        FixedPoint::new(0, 0),
        FixedPoint::new(100_000, 0),
        FixedPoint::new(200_000, 0),
        FixedPoint::new(300_000, 0),
        FixedPoint::new(400_000, 0),
        FixedPoint::new(500_000, 0),
        FixedPoint::new(600_000, 0),
        FixedPoint::new(700_000, 0),
        FixedPoint::new(800_000, 0),
    ];
    for landing in landings {
        assert!(fixture.resolve_effect("aleph", landing, &effect).is_ok());
    }

    let knives = fixture.objects_of_kind(PersistentObjectKind::EmbeddedKnife);
    assert_eq!(knives.len(), 8, "cap of 8 must hold after a ninth knife lands");

    let sequences: Vec<u32> = knives.iter().map(|knife| knife.sequence).collect();
    assert!(!sequences.contains(&0), "the oldest (sequence 0, first landing) must be evicted");
    assert!(sequences.contains(&8), "the newest (sequence 8, ninth landing) must remain");
}

#[test]
fn embed_projectile_cap_is_scoped_per_owner() {
    let mut fixture = Fixture::new(vec![
        player("aleph-one", FixedPoint::zero()),
        player("aleph-two", FixedPoint::zero()),
    ]);
    let effect = embed_projectile_effect(2);

    let owner_one_landings =
        [FixedPoint::new(0, 0), FixedPoint::new(100_000, 0), FixedPoint::new(200_000, 0)];
    for landing in owner_one_landings {
        assert!(fixture.resolve_effect("aleph-one", landing, &effect).is_ok());
    }

    let owner_two_landings = [FixedPoint::new(0, 500_000), FixedPoint::new(100_000, 500_000)];
    for landing in owner_two_landings {
        assert!(fixture.resolve_effect("aleph-two", landing, &effect).is_ok());
    }

    let owner_one_count =
        fixture.ctx.state.objects.iter().filter(|object| object.owner_id == "aleph-one").count();
    let owner_two_count =
        fixture.ctx.state.objects.iter().filter(|object| object.owner_id == "aleph-two").count();
    assert_eq!(owner_one_count, 2, "aleph-one's cap of 2 must have evicted its oldest");
    assert_eq!(owner_two_count, 2, "aleph-two's knives are unaffected by aleph-one's eviction");
}

#[test]
fn chain_detonate_leaves_a_solitary_landing_knife_embedded() {
    let landing = FixedPoint::new(50_000, 0);
    let mut fixture = Fixture::new(vec![player("aleph", FixedPoint::zero())]);

    assert!(fixture.resolve_effect("aleph", landing, &embed_projectile_effect(8)).is_ok());
    assert!(fixture.resolve_effect("aleph", landing, &chain_detonate_effect()).is_ok());

    let knives = fixture.objects_of_kind(PersistentObjectKind::EmbeddedKnife).len();
    assert_eq!(knives, 1, "a knife with no neighbour must stay embedded, not detonate");
    assert!(fixture.ctx.terrain_ops.is_empty());
    assert!(fixture.ctx.damage.is_empty());
}

#[test]
fn chain_of_three_knives_detonates_all_three() {
    // Landing C(14000) is within trigger(6144) of B(9000); B's blast(10240) reaches A(0).
    let position_a = FixedPoint::new(0, 0);
    let position_b = FixedPoint::new(9_000, 0);
    let landing_c = FixedPoint::new(14_000, 0);

    let mut fixture = Fixture::new(vec![player("aleph", FixedPoint::new(-90_000, 0))]);
    fixture.ctx.state.terrain = terrain_mask(Material::Soil);

    let embed_effect = embed_projectile_effect(8);
    assert!(fixture.resolve_effect("aleph", position_a, &embed_effect).is_ok());
    assert!(fixture.resolve_effect("aleph", position_b, &embed_effect).is_ok());
    assert!(fixture.resolve_effect("aleph", landing_c, &embed_effect).is_ok());

    assert!(fixture.resolve_effect("aleph", landing_c, &chain_detonate_effect()).is_ok());

    let remaining = fixture.objects_of_kind(PersistentObjectKind::EmbeddedKnife).len();
    assert_eq!(remaining, 0, "all three chained knives must detonate and leave play");
    assert_eq!(fixture.ctx.terrain_ops.len(), 3, "one terrain operation per detonation");

    assert_eq!(terrain::material_at(&fixture.ctx.state.terrain, 0, 0), Material::Empty);
    assert_eq!(terrain::material_at(&fixture.ctx.state.terrain, 8, 0), Material::Empty);
    assert_eq!(terrain::material_at(&fixture.ctx.state.terrain, 13, 0), Material::Empty);
}

#[test]
fn chain_detonate_terminates_with_a_cyclic_knife_arrangement() {
    // A(0), B(5000), C(10000, landing): every pair is within the blast radius of every other.
    let position_a = FixedPoint::new(0, 0);
    let position_b = FixedPoint::new(5_000, 0);
    let landing_c = FixedPoint::new(10_000, 0);

    let mut fixture = Fixture::new(vec![
        player("aleph", FixedPoint::new(-90_000, 0)),
        player("defender", position_b),
    ]);

    let embed_effect = embed_projectile_effect(8);
    assert!(fixture.resolve_effect("aleph", position_a, &embed_effect).is_ok());
    assert!(fixture.resolve_effect("aleph", position_b, &embed_effect).is_ok());
    assert!(fixture.resolve_effect("aleph", landing_c, &embed_effect).is_ok());

    assert!(fixture.resolve_effect("aleph", landing_c, &chain_detonate_effect()).is_ok());

    let remaining = fixture.objects_of_kind(PersistentObjectKind::EmbeddedKnife).len();
    assert_eq!(remaining, 0, "the chain must still terminate with all three detonated");

    let Some(damage) = fixture.ctx.damage_for("defender") else {
        panic!("defender caught in the blast must have a damage entry")
    };
    assert_eq!(damage.splash, 210, "3 detonations x 70 damage each, no more and no less");
    assert_eq!(fixture.ctx.state.player("defender").map(|p| p.health), Some(90));
}

#[test]
fn chain_resolution_is_identical_across_two_runs_with_the_same_seed() {
    fn run_once() -> (Vec<TerrainOperation>, Vec<DamageEvent>, Vec<PersistentObject>) {
        let position_a = FixedPoint::new(0, 0);
        let position_b = FixedPoint::new(5_000, 0);
        let landing_c = FixedPoint::new(10_000, 0);

        let mut fixture = Fixture::new(vec![
            player("aleph", FixedPoint::new(-90_000, 0)),
            player("defender", position_b),
        ]);

        let embed_effect = embed_projectile_effect(8);
        let _ = fixture.resolve_effect("aleph", position_a, &embed_effect);
        let _ = fixture.resolve_effect("aleph", position_b, &embed_effect);
        let _ = fixture.resolve_effect("aleph", landing_c, &embed_effect);
        let _ = fixture.resolve_effect("aleph", landing_c, &chain_detonate_effect());

        (
            fixture.ctx.terrain_ops.clone(),
            fixture.ctx.damage.clone(),
            fixture.ctx.state.objects.clone(),
        )
    }

    let (terrain_ops_1, damage_1, objects_1) = run_once();
    let (terrain_ops_2, damage_2, objects_2) = run_once();

    assert_eq!(terrain_ops_1, terrain_ops_2, "terrain ops must resolve in the same order both times");
    assert_eq!(damage_1, damage_2);
    assert_eq!(objects_1, objects_2);
}

use std::collections::BTreeSet;

use db_sim_core::fixed::{FixedPoint, POSITION_SCALE};
use db_sim_core::projectile_mechanics::{
    circular_terrain_blast, contact_stops_flight, converging_radius, double_blast,
    last_free_before_terrain, merge_environment_zones, mine_target_in_range, mirror_horizontal,
    modify_damage, nearest_mine_target, orbit_offset, orbit_position, payload_at_tick,
    purge_shield, radial_damage, radius_from_cells, reflect_roaming_step, scan_last_surface,
    schedule_convergence_fan, schedule_impact_ring, schedule_split, schedule_volley,
    seek_mine_step, targets_for_beam_cascade, tornado_redirect, apply_armor_shred, BeamScan,
    BeamTarget, ContactPolicy, ConvergenceFanSpec, DependencyGroup, EnvironmentModifier,
    EnvironmentModifierSet, EnvironmentZone, ImpactRingSpec, MineTarget, Payload,
    ProjectileMechanic, ShieldPurgeOutcome, TimedPayloadUpgrade, VolleySpec,
    MAX_BEAM_STEPS, MAX_CHILD_PROJECTILES,
};
use db_sim_core::terrain::{
    apply_operation, create_mask, material_at, set_material, Material, MaterialMask, TerrainMask,
};

fn point(x: i32, y: i32) -> FixedPoint {
    FixedPoint::from_cells(x, y).unwrap_or(FixedPoint::zero())
}

#[test]
fn mechanic_catalog_is_exhaustive_and_duplicate_free() {
    assert_eq!(ProjectileMechanic::ALL.len(), 39);
    let names: BTreeSet<&str> =
        ProjectileMechanic::ALL.iter().map(|mechanic| mechanic.design_name()).collect();
    assert_eq!(names.len(), ProjectileMechanic::ALL.len());
    assert_eq!(ProjectileMechanic::all(), ProjectileMechanic::ALL);
}

#[test]
fn contact_policy_keeps_placement_shots_character_transparent() {
    assert!(contact_stops_flight(ContactPolicy::TerrainOrCharacter, false, true));
    assert!(!contact_stops_flight(ContactPolicy::TerrainOnly, false, true));
    assert!(contact_stops_flight(ContactPolicy::TerrainOnly, true, false));
    assert!(!contact_stops_flight(ContactPolicy::LastSurfaceAlongBeam, true, true));
}

#[test]
fn radial_damage_has_safe_center_edge_and_outside_values() {
    let radius = 4 * POSITION_SCALE;
    assert_eq!(radial_damage(100, point(4, 4), point(4, 4), radius), 100);
    assert_eq!(radial_damage(100, point(4, 4), point(8, 4), radius), 0);
    assert_eq!(radial_damage(100, point(4, 4), point(9, 4), radius), 0);
    assert_eq!(radial_damage(100, point(4, 4), point(6, 4), radius), 75);
}

#[test]
fn volley_centers_even_spread_and_staggers_deterministically() {
    let scheduled = schedule_volley(
        VolleySpec { count: 4, angle_step_millidegrees: 2_000, power_step: 100, stagger_ticks: 3 },
        45_000,
        2_000,
    )
    .unwrap_or_default();
    let summary: Vec<(i32, i32, u16)> = scheduled
        .iter()
        .map(|child| (child.angle_millidegrees, child.power, child.delay_ticks))
        .collect();
    assert_eq!(
        summary,
        vec![(42_000, 2_000, 0), (44_000, 2_100, 3), (46_000, 2_200, 6), (48_000, 2_300, 9)]
    );
}

#[test]
fn volley_rejects_unbounded_child_counts() {
    let invalid = VolleySpec {
        count: MAX_CHILD_PROJECTILES.saturating_add(1),
        angle_step_millidegrees: 0,
        power_step: 0,
        stagger_ticks: 0,
    };
    assert!(schedule_volley(invalid, 0, 0).is_err());
}

#[test]
fn dependency_group_completes_exactly_once() {
    let mut group = match DependencyGroup::new(3) {
        Ok(group) => group,
        Err(error) => panic!("a group of three must be constructible: {error:?}"),
    };
    assert_eq!(group.resolve_one(), Ok(false));
    assert_eq!(group.resolve_one(), Ok(false));
    assert_eq!(group.resolve_one(), Ok(true));
    assert_eq!(group.remaining(), 0);
    assert!(group.resolve_one().is_err());
}

#[test]
fn timed_payload_pauses_then_arms() {
    let base = Payload { damage: 20, crater_radius_cells: 2 };
    let upgrade = TimedPayloadUpgrade {
        arm_after_ticks: 10,
        pause_ticks: 3,
        damage_bonus: 7,
        crater_radius_bonus: 1,
    };
    assert_eq!(payload_at_tick(base, upgrade, 9).payload, base);
    assert!(payload_at_tick(base, upgrade, 10).motion_paused);
    let armed = payload_at_tick(base, upgrade, 13);
    assert!(armed.armed);
    assert!(!armed.motion_paused);
    assert_eq!(armed.payload.damage, 27);
    assert_eq!(armed.payload.crater_radius_cells, 3);
}

#[test]
fn double_blast_preserves_two_payload_phases() {
    let phases = double_blast(
        point(4, 5),
        Payload { damage: 30, crater_radius_cells: 3 },
        Payload { damage: 10, crater_radius_cells: 1 },
        6,
    );
    assert_eq!(phases[0].delay_ticks, 0);
    assert_eq!(phases[1].delay_ticks, 6);
    assert_eq!(phases[1].payload.damage, 10);
}

#[test]
fn orbit_and_convergence_are_integer_only_and_bounded() {
    assert_eq!(orbit_offset(POSITION_SCALE, 0), Ok(point(1, 0)));
    assert_eq!(orbit_offset(POSITION_SCALE, 4), Ok(point(0, 1)));
    assert_eq!(orbit_position(point(5, 5), POSITION_SCALE, 8), Ok(point(4, 5)));
    assert_eq!(converging_radius(1_000, 10, 10, 100), 1_000);
    assert_eq!(converging_radius(1_000, 15, 10, 100), 500);
    assert_eq!(converging_radius(1_000, 30, 10, 100), 0);
}

#[test]
fn convergence_fan_distributes_sources_and_staggers_arrival() {
    let target = point(10, 8);
    let projectiles = schedule_convergence_fan(
        point(10, 8),
        target,
        ConvergenceFanSpec {
            count: 4,
            source_radius: 2 * POSITION_SCALE,
            starting_phase: 0,
            phase_step: 4,
            stagger_ticks: 5,
        },
    )
    .unwrap_or_default();
    assert_eq!(projectiles.len(), 4);
    assert_eq!(projectiles.first().map(|shot| shot.start), Some(point(12, 8)));
    assert_eq!(projectiles.get(1).map(|shot| shot.start), Some(point(10, 10)));
    assert!(projectiles.iter().all(|shot| shot.target == target));
    assert_eq!(projectiles.last().map(|shot| shot.delay_ticks), Some(15));
}

#[test]
fn split_inherits_parent_angle_and_scales_power() {
    let children = schedule_split(
        VolleySpec { count: 3, angle_step_millidegrees: 3_000, power_step: 0, stagger_ticks: 1 },
        60_000,
        4_000,
        5_000,
        90,
    )
    .unwrap_or_default();
    assert_eq!(children.len(), 3);
    assert_eq!(children.first().map(|child| child.angle_millidegrees), Some(57_000));
    assert!(children.iter().all(|child| child.power == 2_000));
    assert_eq!(children.last().map(|child| child.delay_ticks), Some(92));
}

#[test]
fn impact_ring_alternates_around_anchor() {
    let blasts = schedule_impact_ring(
        point(10, 10),
        Payload { damage: 5, crater_radius_cells: 1 },
        ImpactRingSpec {
            count: 5,
            radius: POSITION_SCALE,
            starting_phase: 0,
            phase_step: 2,
            interval_ticks: 4,
            alternating: true,
        },
    )
    .unwrap_or_default();
    let positions: Vec<FixedPoint> = blasts.iter().map(|blast| blast.position).collect();
    assert_eq!(positions.first(), Some(&point(11, 10)));
    assert_eq!(
        positions.get(1),
        Some(&FixedPoint::new(10 * POSITION_SCALE + 724, 10 * POSITION_SCALE + 724))
    );
    assert_eq!(
        positions.get(2),
        Some(&FixedPoint::new(10 * POSITION_SCALE + 724, 10 * POSITION_SCALE - 724))
    );
    assert_eq!(blasts.last().map(|blast| blast.delay_ticks), Some(16));
}

#[test]
fn circular_blast_uses_existing_material_rules() {
    let mut mask = create_mask(9, 9, Material::Soil).unwrap_or(TerrainMask {
        width: 9,
        height: 9,
        cells: vec![1u8; 81],
    });
    let _ = set_material(&mut mask, 4, 4, Material::ReinforcedStone);
    let operation = circular_terrain_blast(7, point(4, 4), 2, MaterialMask::soft());
    let removed = apply_operation(&mut mask, &operation);
    assert!(removed > 0);
    assert_eq!(material_at(&mask, 4, 4), Material::ReinforcedStone);
    assert_eq!(material_at(&mask, 4, 3), Material::Empty);
}

#[test]
fn beam_remembers_last_separated_surface() {
    let mut mask = create_mask(10, 3, Material::Empty).unwrap_or(TerrainMask {
        width: 10,
        height: 3,
        cells: vec![0; 30],
    });
    let _ = set_material(&mut mask, 3, 1, Material::Wood);
    let _ = set_material(&mut mask, 7, 1, Material::Soil);
    let scan = scan_last_surface(&mask, point(0, 1), point(1, 0), 20).unwrap_or(BeamScan {
        last_surface: None,
        end_position: FixedPoint::zero(),
        inspected_steps: 0,
    });
    assert_eq!(scan.last_surface, Some(point(7, 1)));
    assert_eq!(scan.end_position, point(9, 1));
    assert_eq!(scan.inspected_steps, 9);
}

#[test]
fn beam_rejects_zero_step_and_excessive_work() {
    let mask = create_mask(2, 2, Material::Empty).unwrap_or(TerrainMask {
        width: 2,
        height: 2,
        cells: vec![0; 4],
    });
    assert!(scan_last_surface(&mask, point(0, 0), FixedPoint::zero(), 2).is_err());
    assert!(scan_last_surface(&mask, point(0, 0), point(1, 0), MAX_BEAM_STEPS.saturating_add(1))
        .is_err());
}

#[test]
fn terrain_only_landing_uses_last_free_sample() {
    let mut mask = create_mask(6, 2, Material::Empty).unwrap_or(TerrainMask {
        width: 6,
        height: 2,
        cells: vec![0; 12],
    });
    let _ = set_material(&mut mask, 4, 1, Material::Soil);
    let samples = [point(1, 1), point(2, 1), point(3, 1), point(4, 1), point(5, 1)];
    assert_eq!(last_free_before_terrain(&mask, &samples), Some(point(3, 1)));
}

#[test]
fn mine_targeting_is_stable_and_motion_is_bounded() {
    let targets = [
        MineTarget { stable_id: 9, position: point(-2, 0) },
        MineTarget { stable_id: 3, position: point(2, 0) },
    ];
    assert_eq!(nearest_mine_target(point(0, 0), &targets), Some(targets[1]));
    assert!(mine_target_in_range(point(0, 0), point(2, 0), 2 * POSITION_SCALE));
    assert_eq!(seek_mine_step(point(0, 0), point(3, 0), POSITION_SCALE), point(1, 0));
    assert_eq!(reflect_roaming_step(point(1, 0)), point(-1, 0));
}

#[test]
fn damage_modifiers_saturate_and_dampen() {
    assert_eq!(modify_damage(100, 12_000, 10), Ok(130));
    assert_eq!(modify_damage(100, 8_000, -10), Ok(70));
    assert_eq!(modify_damage(5, 5_000, -20), Ok(0));
    assert_eq!(modify_damage(u16::MAX, 20_000, 100), Ok(u16::MAX));
}

#[test]
fn armor_shred_stacks_to_floor_without_healing_existing_debuff() {
    assert_eq!(apply_armor_shred(0, 5, -35), -5);
    assert_eq!(apply_armor_shred(-33, 5, -35), -35);
    assert_eq!(apply_armor_shred(-40, 5, -35), -40);
}

#[test]
fn shield_purge_adds_and_removes_shield_with_saturation() {
    assert_eq!(purge_shield(30, 20), ShieldPurgeOutcome { damage: 50, shield_remaining: 0 });
    assert_eq!(purge_shield(u16::MAX, 1).damage, u16::MAX);
}

#[test]
fn environment_modifiers_apply_once_per_type() {
    let mut applied = EnvironmentModifierSet::default();
    assert!(applied.apply_once(EnvironmentModifier::AmplifyDamage));
    assert!(!applied.apply_once(EnvironmentModifier::AmplifyDamage));
    assert!(applied.apply_once(EnvironmentModifier::ElectricFollowup));
    assert!(applied.contains(EnvironmentModifier::AmplifyDamage));
    assert!(applied.contains(EnvironmentModifier::ElectricFollowup));
}

#[test]
fn mirror_and_tornado_preserve_vertical_motion() {
    let incoming = FixedPoint::new(20, -5);
    assert_eq!(mirror_horizontal(incoming), FixedPoint::new(-20, -5));
    let legs = tornado_redirect(incoming);
    assert_eq!(legs[0].delta_per_tick, incoming);
    assert_eq!(legs[1].delta_per_tick, FixedPoint::new(-20, -5));
    assert!(legs[2].restores_ballistics);
}

#[test]
fn environment_zones_merge_only_with_same_type() {
    let first = EnvironmentZone {
        modifier: EnvironmentModifier::AmplifyDamage,
        center_x: 10,
        strength_basis_points: 5_000,
    };
    let second = EnvironmentZone {
        modifier: EnvironmentModifier::AmplifyDamage,
        center_x: 20,
        strength_basis_points: 6_000,
    };
    assert_eq!(
        merge_environment_zones(first, second),
        Ok(EnvironmentZone {
            modifier: EnvironmentModifier::AmplifyDamage,
            center_x: 15,
            strength_basis_points: 11_000,
        })
    );
    let different = EnvironmentZone { modifier: EnvironmentModifier::DampenDamage, ..second };
    assert!(merge_environment_zones(first, different).is_err());
}

#[test]
fn beam_cascade_is_filtered_sorted_and_bounded() {
    let targets: Vec<BeamTarget> = (0..40)
        .rev()
        .map(|stable_id| BeamTarget { stable_id, position: point(1, 0) })
        .collect();
    let selected = targets_for_beam_cascade(point(0, 0), 2 * POSITION_SCALE, &targets);
    assert_eq!(selected.len(), usize::from(MAX_CHILD_PROJECTILES));
    assert_eq!(selected.first().map(|target| target.stable_id), Some(0));
    assert_eq!(selected.last().map(|target| target.stable_id), Some(31));

    let duplicate = BeamTarget { stable_id: 7, position: point(1, 0) };
    let duplicates = [duplicate, duplicate];
    assert_eq!(targets_for_beam_cascade(point(0, 0), 2 * POSITION_SCALE, &duplicates).len(), 1);
}

#[test]
fn cell_radius_conversion_uses_authoritative_scale() {
    assert_eq!(radius_from_cells(3), Ok(3 * POSITION_SCALE));
}

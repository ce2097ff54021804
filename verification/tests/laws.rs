//! Concrete instances of the library's laws and the edge cases around them.

use db_sim_core::error::SimError;
use db_sim_core::fixed::{FixedPoint, BODY_WIDTH, POSITION_SCALE};
use db_sim_core::projectile_mechanics::{
    apply_armor_shred, merge_environment_zones, mirror_horizontal, radial_damage, schedule_volley,
    DependencyGroup, VolleySpec, EnvironmentModifier, EnvironmentModifierSet, EnvironmentZone,
    MAX_CHILD_PROJECTILES,
};
use db_sim_core::terrain::{
    apply_operation, create_mask, material_at, set_material, Material, MaterialMask,
    TerrainOperation, TerrainShape,
};

fn point(x: i32, y: i32) -> FixedPoint {
    FixedPoint::from_cells(x, y).unwrap_or(FixedPoint::zero())
}

#[test]
fn radial_damage_falls_off_with_distance() {
    let impact = point(10, 10);
    let radius = 4 * POSITION_SCALE;
    let mut previous = u16::MAX;
    for cells in 0..6 {
        let damage = radial_damage(100, impact, point(10 + cells, 10), radius);
        assert!(damage <= previous, "damage grew at {cells} cells: {damage} > {previous}");
        assert!(damage <= 100);
        previous = damage;
    }
}

#[test]
fn radial_damage_is_full_at_center_and_zero_at_edge() {
    let impact = point(3, 3);
    assert_eq!(radial_damage(100, impact, impact, BODY_WIDTH), 100);
    assert_eq!(radial_damage(100, impact, FixedPoint::new(impact.x + BODY_WIDTH, impact.y), BODY_WIDTH), 0);
    assert_eq!(radial_damage(100, impact, FixedPoint::new(impact.x + BODY_WIDTH + 1, impact.y), BODY_WIDTH), 0);
    assert_eq!(radial_damage(100, impact, impact, 0), 100);
    assert_eq!(radial_damage(100, impact, impact, -1), 0);
}

#[test]
fn radial_damage_at_center_saturates_for_an_enormous_radius() {
    // `base * radius^2` overflows i64 here, so the saturated numerator no longer yields the
    // full base damage.
    let impact = FixedPoint::zero();
    assert_eq!(radial_damage(u16::MAX, impact, impact, i32::MAX), 2);
}

#[test]
fn dependency_group_of_one_completes_on_its_only_resolution() {
    let Ok(mut group) = DependencyGroup::new(1) else { panic!("a group of one is valid") };
    assert_eq!(group.remaining(), 1);
    assert_eq!(group.resolve_one(), Ok(true));
    assert_eq!(group.remaining(), 0);
    assert_eq!(
        group.resolve_one(),
        Err(SimError::OutOfRange { field: "dependency group resolution" })
    );
    assert_eq!(group.remaining(), 0);
}

#[test]
fn dependency_group_reports_completion_exactly_once_over_many_calls() {
    let Ok(mut group) = DependencyGroup::new(MAX_CHILD_PROJECTILES) else {
        panic!("the largest group is valid")
    };
    let mut completions = 0;
    let mut refusals = 0;
    for _ in 0..(2 * MAX_CHILD_PROJECTILES as usize) {
        match group.resolve_one() {
            Ok(true) => completions += 1,
            Ok(false) => {}
            Err(_) => refusals += 1,
        }
    }
    assert_eq!(completions, 1);
    assert_eq!(refusals, MAX_CHILD_PROJECTILES as usize);
}

#[test]
fn dependency_group_rejects_empty_and_oversized_groups() {
    assert_eq!(
        DependencyGroup::new(0),
        Err(SimError::OutOfRange { field: "dependency group size" })
    );
    assert_eq!(
        DependencyGroup::new(MAX_CHILD_PROJECTILES + 1),
        Err(SimError::OutOfRange { field: "dependency group size" })
    );
}

#[test]
fn applying_a_modifier_twice_changes_nothing_the_second_time() {
    let mut once = EnvironmentModifierSet::default();
    assert!(once.apply_once(EnvironmentModifier::TornadoPath));
    let snapshot = once;
    assert!(!once.apply_once(EnvironmentModifier::TornadoPath));
    assert_eq!(once, snapshot);
}

#[test]
fn modifier_application_order_does_not_matter() {
    let mut first = EnvironmentModifierSet::default();
    first.apply_once(EnvironmentModifier::SatelliteFollowup);
    first.apply_once(EnvironmentModifier::DampenDamage);
    let mut second = EnvironmentModifierSet::default();
    second.apply_once(EnvironmentModifier::DampenDamage);
    second.apply_once(EnvironmentModifier::SatelliteFollowup);
    assert_eq!(first, second);
    assert!(first.contains(EnvironmentModifier::SatelliteFollowup));
    assert!(!first.contains(EnvironmentModifier::AmplifyDamage));
}

#[test]
fn mirroring_twice_restores_velocity() {
    let velocity = FixedPoint::new(-700, 350);
    assert_eq!(mirror_horizontal(velocity), FixedPoint::new(700, 350));
    assert_eq!(mirror_horizontal(mirror_horizontal(velocity)), velocity);
}

#[test]
fn mirroring_the_most_negative_speed_saturates() {
    let velocity = FixedPoint::new(i32::MIN, 0);
    assert_eq!(mirror_horizontal(velocity), FixedPoint::new(i32::MAX, 0));
    assert_eq!(mirror_horizontal(mirror_horizontal(velocity)), FixedPoint::new(-i32::MAX, 0));
}

#[test]
fn merging_zones_is_order_independent() {
    let left = EnvironmentZone {
        modifier: EnvironmentModifier::AmplifyDamage,
        center_x: -7,
        strength_basis_points: 60_000,
    };
    let right = EnvironmentZone {
        modifier: EnvironmentModifier::AmplifyDamage,
        center_x: 4,
        strength_basis_points: 9_000,
    };
    let merged = merge_environment_zones(left, right);
    assert_eq!(merged, merge_environment_zones(right, left));
    assert_eq!(
        merged,
        Ok(EnvironmentZone {
            modifier: EnvironmentModifier::AmplifyDamage,
            center_x: -2,
            strength_basis_points: u16::MAX,
        })
    );
}

#[test]
fn merging_different_zone_types_is_refused() {
    let amplify = EnvironmentZone {
        modifier: EnvironmentModifier::AmplifyDamage,
        center_x: 0,
        strength_basis_points: 1,
    };
    let dampen = EnvironmentZone { modifier: EnvironmentModifier::DampenDamage, ..amplify };
    assert_eq!(
        merge_environment_zones(amplify, dampen),
        Err(SimError::OutOfRange { field: "environment modifier merge" })
    );
}

#[test]
fn repeated_armor_shred_settles_at_the_floor() {
    let mut modifier: i16 = 0;
    for _ in 0..20 {
        let next = apply_armor_shred(modifier, 7, -30);
        assert!(next <= modifier);
        assert!(next >= -30);
        modifier = next;
    }
    assert_eq!(modifier, -30);
}

fn blast(sequence: u32, cells_x: i32, cells_y: i32, radius_cells: u16, mask: MaterialMask) -> TerrainOperation {
    TerrainOperation {
        sequence,
        shape: TerrainShape::SubtractCircle { center: point(cells_x, cells_y), radius_cells },
        material_mask: mask,
    }
}

#[test]
fn a_repeated_terrain_operation_removes_nothing_more() {
    let Ok(mut mask) = create_mask(12, 12, Material::Soil) else { panic!("mask must build") };
    let operation = blast(0, 6, 6, 3, MaterialMask::all());
    let first = apply_operation(&mut mask, &operation);
    assert!(first > 0);
    let after_first = mask.clone();
    assert_eq!(apply_operation(&mut mask, &operation), 0);
    assert_eq!(mask, after_first);
}

#[test]
fn a_soft_operation_spares_reinforced_stone() {
    let Ok(mut mask) = create_mask(9, 9, Material::Wood) else { panic!("mask must build") };
    assert!(set_material(&mut mask, 4, 4, Material::ReinforcedStone));
    assert!(set_material(&mut mask, 5, 4, Material::Soil));
    let removed = apply_operation(&mut mask, &blast(1, 4, 4, 2, MaterialMask::soft()));
    assert_eq!(material_at(&mask, 4, 4), Material::ReinforcedStone);
    assert_eq!(material_at(&mask, 5, 4), Material::Empty);
    assert_eq!(material_at(&mask, 3, 4), Material::Empty);
    assert_eq!(removed, 12);
}

#[test]
fn terrain_operations_only_ever_empty_cells() {
    let Ok(mut mask) = create_mask(10, 10, Material::Soil) else { panic!("mask must build") };
    for y in 0..10 {
        assert!(set_material(&mut mask, 5, y, Material::ReinforcedStone));
    }
    let before = mask.clone();
    let removed = apply_operation(&mut mask, &blast(2, 5, 5, 4, MaterialMask::soft()));
    let mut changed = 0;
    for (index, (old, new)) in before.cells.iter().zip(mask.cells.iter()).enumerate() {
        if old != new {
            changed += 1;
            assert_eq!(*new, Material::Empty.code(), "cell {index} became something other than empty");
        }
    }
    assert_eq!(changed, removed as usize);
    assert!(removed as usize <= mask.cells.len());
}


#[test]
fn a_volley_is_centered_on_its_base_angle_even_with_odd_steps() {
    let spec = VolleySpec { count: 2, angle_step_millidegrees: 3, power_step: 0, stagger_ticks: 0 };
    let Ok(volley) = schedule_volley(spec, 1_000, 500) else { panic!("a two-shot volley is valid") };
    assert_eq!(volley[0].angle_millidegrees, 998);
    assert_eq!(volley[1].angle_millidegrees, 1_002);

    let wide = VolleySpec { count: 5, angle_step_millidegrees: -1_001, power_step: 10, stagger_ticks: 2 };
    let Ok(volley) = schedule_volley(wide, -20_000, 500) else { panic!("a five-shot volley is valid") };
    for k in 0..5 {
        assert_eq!(
            volley[k].angle_millidegrees + volley[4 - k].angle_millidegrees,
            -40_000,
            "children {k} and {} must mirror each other",
            4 - k
        );
    }
}

use db_sim_core::projectile_mechanics::{nearest_mine_target, MineTarget};

#[test]
fn the_chosen_mine_target_ranks_no_later_than_any_other() {
    let origin = point(0, 0);
    let targets = vec![
        MineTarget { stable_id: 9, position: point(3, 0) },
        MineTarget { stable_id: 4, position: point(0, 3) },
        MineTarget { stable_id: 7, position: point(5, 5) },
        MineTarget { stable_id: 4, position: point(-3, 0) },
    ];
    let chosen = nearest_mine_target(origin, &targets).expect("targets are present");
    // Equal distance: the lower identifier wins, and among identical keys the earliest.
    assert_eq!(chosen, targets[1]);
    let distance = |target: &MineTarget| {
        let dx = i64::from(target.position.x - origin.x);
        let dy = i64::from(target.position.y - origin.y);
        dx * dx + dy * dy
    };
    for target in &targets {
        assert!((distance(&chosen), chosen.stable_id) <= (distance(target), target.stable_id));
    }
}

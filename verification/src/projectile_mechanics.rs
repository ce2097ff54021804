//! Dormant projectile-mechanics laboratory.
//!
//! Deterministic, bounded building blocks for projectile and terrain interactions that no
//! current character uses. Nothing here mutates match state, takes part in command
//! resolution, or appears in canonical encoding: every function is a pure computation over
//! its arguments with an explicit work limit.

use crate::error::{
    lemma_collect_err_sticks, spec_collect, vec_result_view, SimError, SimResult,
};
use crate::fixed::{
    apply_basis_points, clamp_i32, clamp_i64, distance_squared, round_divide, saturating_add_i32,
    saturating_neg_i32, scale, spec_cell_of, spec_distance_squared, spec_point_add,
    spec_round_divide, spec_scale, FixedPoint, BASIS_POINTS, POSITION_SCALE,
};
use crate::terrain::{
    is_solid_at, MaterialMask, TerrainMask, TerrainOperation, TerrainShape,
};
use vstd::prelude::*;

verus! {

/// Maximum dependent payloads one primitive may schedule.
pub const MAX_CHILD_PROJECTILES: u8 = 32;

/// Maximum cells a dormant beam query may inspect.
pub const MAX_BEAM_STEPS: u16 = 2_048;

/// Fixed-point scale of the unit circle table.
pub const CIRCLE_SCALE: i32 = 1_024;

/// Number of mechanics in the catalog.
pub const MECHANIC_COUNT: usize = 39;

/// Reusable behaviors held in reserve for future character kits.
#[derive(Debug, Clone, Copy, PartialEq, Eq, PartialOrd, Ord, Hash, Structural)]
pub enum ProjectileMechanic {
    /// Ordinary fixed-step gravity/wind flight.
    BallisticArc,
    /// Collision is sampled between visible frames to prevent tunnelling.
    SubstepCollision,
    /// Flight terminates at bounds or a hard lifetime.
    BoundsExpiry,
    /// Damage falls with distance from an impact.
    RadialDamage,
    /// An impact removes a circular area of permitted terrain materials.
    CircularTerrainBlast,
    /// A payload starts after a scheduled delay.
    SpawnDelay,
    /// A payload pauses before resuming flight.
    FreezeDelay,
    /// A parent action completes only after all dependent payloads resolve.
    DependencyCompletion,
    /// One contact produces two separately configured blast phases.
    DoubleBlast,
    /// Flight time arms or upgrades a payload.
    TimedArming,
    /// Child shots use centered angular offsets.
    AngleSpreadVolley,
    /// Child shots use ordered power offsets.
    PowerSpreadVolley,
    /// Child shots launch on deterministic stagger ticks.
    StaggeredVolley,
    /// A marker impact calls projectiles inward from a fan of origins.
    ImpactConvergenceFan,
    /// A remote or global source calls a projectile toward an impact.
    SatelliteConvergence,
    /// Independently colliding payloads orbit a ballistic carrier.
    OrbitingPayloadCarrier,
    /// Orbit radius contracts after a configured delay.
    ConvergingHelix,
    /// A carrier becomes multiple weaker child projectiles during flight.
    TimedSplit,
    /// One impact anchors a timed sequence around a ring.
    SequencedImpactRing,
    /// A bounded ray resolves at its final solid contact.
    LastSurfaceBeam,
    /// One impact emits beams in several directions.
    RadialBeamCascade,
    /// Nearby targets each receive a follow-up beam.
    TargetBeamCascade,
    /// Every eligible impact receives a remote follow-up.
    GlobalImpactFollowup,
    /// Characters do not intercept a terrain-placement projectile.
    TerrainOnlyContact,
    /// Terrain contact deploys one or more dormant proximity mines.
    DeployProximityMine,
    /// A mine chooses and steps toward the nearest stable target.
    TargetSeekingMine,
    /// Terrain contact deploys a long-running forward mine.
    DeployRoamingMine,
    /// A roaming mine reverses at an obstacle.
    ObstacleReflectingMine,
    /// Terrain contact relocates the actor to the last free sample.
    TeleportLanding,
    /// Repeated hits lower defense to a configured floor.
    ArmorShred,
    /// An impact adds current shield to damage and then removes that shield.
    ShieldPurge,
    /// An environment zone increases payload damage once.
    DamageAmplifier,
    /// An environment zone decreases payload damage once.
    DamageDampener,
    /// An environment zone reflects horizontal flight.
    HorizontalMirror,
    /// An environment zone temporarily replaces the projectile path.
    TornadoRedirect,
    /// An environment zone attaches a beam to the next impact.
    ElectricImpactFollowup,
    /// The first eligible contact activates a linked environment effect.
    RandomEnvironmentTrigger,
    /// Overlapping same-type environment zones combine deterministically.
    MergeableEnvironmentZone,
    /// Unsupported terrain settles after destructive operations.
    TerrainCollapse,
}

/// Position of a mechanic in the catalog (its declaration order).
pub open spec fn spec_mechanic_index(mechanic: ProjectileMechanic) -> int {
    match mechanic {
        ProjectileMechanic::BallisticArc => 0,
        ProjectileMechanic::SubstepCollision => 1,
        ProjectileMechanic::BoundsExpiry => 2,
        ProjectileMechanic::RadialDamage => 3,
        ProjectileMechanic::CircularTerrainBlast => 4,
        ProjectileMechanic::SpawnDelay => 5,
        ProjectileMechanic::FreezeDelay => 6,
        ProjectileMechanic::DependencyCompletion => 7,
        ProjectileMechanic::DoubleBlast => 8,
        ProjectileMechanic::TimedArming => 9,
        ProjectileMechanic::AngleSpreadVolley => 10,
        ProjectileMechanic::PowerSpreadVolley => 11,
        ProjectileMechanic::StaggeredVolley => 12,
        ProjectileMechanic::ImpactConvergenceFan => 13,
        ProjectileMechanic::SatelliteConvergence => 14,
        ProjectileMechanic::OrbitingPayloadCarrier => 15,
        ProjectileMechanic::ConvergingHelix => 16,
        ProjectileMechanic::TimedSplit => 17,
        ProjectileMechanic::SequencedImpactRing => 18,
        ProjectileMechanic::LastSurfaceBeam => 19,
        ProjectileMechanic::RadialBeamCascade => 20,
        ProjectileMechanic::TargetBeamCascade => 21,
        ProjectileMechanic::GlobalImpactFollowup => 22,
        ProjectileMechanic::TerrainOnlyContact => 23,
        ProjectileMechanic::DeployProximityMine => 24,
        ProjectileMechanic::TargetSeekingMine => 25,
        ProjectileMechanic::DeployRoamingMine => 26,
        ProjectileMechanic::ObstacleReflectingMine => 27,
        ProjectileMechanic::TeleportLanding => 28,
        ProjectileMechanic::ArmorShred => 29,
        ProjectileMechanic::ShieldPurge => 30,
        ProjectileMechanic::DamageAmplifier => 31,
        ProjectileMechanic::DamageDampener => 32,
        ProjectileMechanic::HorizontalMirror => 33,
        ProjectileMechanic::TornadoRedirect => 34,
        ProjectileMechanic::ElectricImpactFollowup => 35,
        ProjectileMechanic::RandomEnvironmentTrigger => 36,
        ProjectileMechanic::MergeableEnvironmentZone => 37,
        ProjectileMechanic::TerrainCollapse => 38,
    }
}

/// Stable design identifier of a mechanic.
pub open spec fn spec_design_name(mechanic: ProjectileMechanic) -> Seq<char> {
    match mechanic {
        ProjectileMechanic::BallisticArc => "ballistic-arc"@,
        ProjectileMechanic::SubstepCollision => "substep-collision"@,
        ProjectileMechanic::BoundsExpiry => "bounds-expiry"@,
        ProjectileMechanic::RadialDamage => "radial-damage"@,
        ProjectileMechanic::CircularTerrainBlast => "circular-terrain-blast"@,
        ProjectileMechanic::SpawnDelay => "spawn-delay"@,
        ProjectileMechanic::FreezeDelay => "freeze-delay"@,
        ProjectileMechanic::DependencyCompletion => "dependency-completion"@,
        ProjectileMechanic::DoubleBlast => "double-blast"@,
        ProjectileMechanic::TimedArming => "timed-arming"@,
        ProjectileMechanic::AngleSpreadVolley => "angle-spread-volley"@,
        ProjectileMechanic::PowerSpreadVolley => "power-spread-volley"@,
        ProjectileMechanic::StaggeredVolley => "staggered-volley"@,
        ProjectileMechanic::ImpactConvergenceFan => "impact-convergence-fan"@,
        ProjectileMechanic::SatelliteConvergence => "satellite-convergence"@,
        ProjectileMechanic::OrbitingPayloadCarrier => "orbiting-payload-carrier"@,
        ProjectileMechanic::ConvergingHelix => "converging-helix"@,
        ProjectileMechanic::TimedSplit => "timed-split"@,
        ProjectileMechanic::SequencedImpactRing => "sequenced-impact-ring"@,
        ProjectileMechanic::LastSurfaceBeam => "last-surface-beam"@,
        ProjectileMechanic::RadialBeamCascade => "radial-beam-cascade"@,
        ProjectileMechanic::TargetBeamCascade => "target-beam-cascade"@,
        ProjectileMechanic::GlobalImpactFollowup => "global-impact-followup"@,
        ProjectileMechanic::TerrainOnlyContact => "terrain-only-contact"@,
        ProjectileMechanic::DeployProximityMine => "deploy-proximity-mine"@,
        ProjectileMechanic::TargetSeekingMine => "target-seeking-mine"@,
        ProjectileMechanic::DeployRoamingMine => "deploy-roaming-mine"@,
        ProjectileMechanic::ObstacleReflectingMine => "obstacle-reflecting-mine"@,
        ProjectileMechanic::TeleportLanding => "teleport-landing"@,
        ProjectileMechanic::ArmorShred => "armor-shred"@,
        ProjectileMechanic::ShieldPurge => "shield-purge"@,
        ProjectileMechanic::DamageAmplifier => "damage-amplifier"@,
        ProjectileMechanic::DamageDampener => "damage-dampener"@,
        ProjectileMechanic::HorizontalMirror => "horizontal-mirror"@,
        ProjectileMechanic::TornadoRedirect => "tornado-redirect"@,
        ProjectileMechanic::ElectricImpactFollowup => "electric-impact-followup"@,
        ProjectileMechanic::RandomEnvironmentTrigger => "random-environment-trigger"@,
        ProjectileMechanic::MergeableEnvironmentZone => "mergeable-environment-zone"@,
        ProjectileMechanic::TerrainCollapse => "terrain-collapse"@,
    }
}

impl ProjectileMechanic {
    /// Exhaustive catalog, in declaration order, used by design tooling and coverage tests.
    pub const ALL: [ProjectileMechanic; 39] = [
        ProjectileMechanic::BallisticArc,
        ProjectileMechanic::SubstepCollision,
        ProjectileMechanic::BoundsExpiry,
        ProjectileMechanic::RadialDamage,
        ProjectileMechanic::CircularTerrainBlast,
        ProjectileMechanic::SpawnDelay,
        ProjectileMechanic::FreezeDelay,
        ProjectileMechanic::DependencyCompletion,
        ProjectileMechanic::DoubleBlast,
        ProjectileMechanic::TimedArming,
        ProjectileMechanic::AngleSpreadVolley,
        ProjectileMechanic::PowerSpreadVolley,
        ProjectileMechanic::StaggeredVolley,
        ProjectileMechanic::ImpactConvergenceFan,
        ProjectileMechanic::SatelliteConvergence,
        ProjectileMechanic::OrbitingPayloadCarrier,
        ProjectileMechanic::ConvergingHelix,
        ProjectileMechanic::TimedSplit,
        ProjectileMechanic::SequencedImpactRing,
        ProjectileMechanic::LastSurfaceBeam,
        ProjectileMechanic::RadialBeamCascade,
        ProjectileMechanic::TargetBeamCascade,
        ProjectileMechanic::GlobalImpactFollowup,
        ProjectileMechanic::TerrainOnlyContact,
        ProjectileMechanic::DeployProximityMine,
        ProjectileMechanic::TargetSeekingMine,
        ProjectileMechanic::DeployRoamingMine,
        ProjectileMechanic::ObstacleReflectingMine,
        ProjectileMechanic::TeleportLanding,
        ProjectileMechanic::ArmorShred,
        ProjectileMechanic::ShieldPurge,
        ProjectileMechanic::DamageAmplifier,
        ProjectileMechanic::DamageDampener,
        ProjectileMechanic::HorizontalMirror,
        ProjectileMechanic::TornadoRedirect,
        ProjectileMechanic::ElectricImpactFollowup,
        ProjectileMechanic::RandomEnvironmentTrigger,
        ProjectileMechanic::MergeableEnvironmentZone,
        ProjectileMechanic::TerrainCollapse,
    ];

    /// The exhaustive catalog ([`Self::ALL`]), in declaration order.
    pub fn all() -> (catalog: [ProjectileMechanic; 39])
        ensures
            forall|i: int| 0 <= i < 39 ==> spec_mechanic_index(#[trigger] catalog@[i]) == i,
            forall|mechanic: ProjectileMechanic| #[trigger]
                catalog@[spec_mechanic_index(mechanic)] == mechanic,
    {
        let catalog = Self::ALL;
        catalog
    }

    /// Stable design identifier. These names are not wire protocol values.
    pub fn design_name(self) -> (name: &'static str)
        ensures
            name@ == spec_design_name(self),
    {
        match self {
            ProjectileMechanic::BallisticArc => "ballistic-arc",
            ProjectileMechanic::SubstepCollision => "substep-collision",
            ProjectileMechanic::BoundsExpiry => "bounds-expiry",
            ProjectileMechanic::RadialDamage => "radial-damage",
            ProjectileMechanic::CircularTerrainBlast => "circular-terrain-blast",
            ProjectileMechanic::SpawnDelay => "spawn-delay",
            ProjectileMechanic::FreezeDelay => "freeze-delay",
            ProjectileMechanic::DependencyCompletion => "dependency-completion",
            ProjectileMechanic::DoubleBlast => "double-blast",
            ProjectileMechanic::TimedArming => "timed-arming",
            ProjectileMechanic::AngleSpreadVolley => "angle-spread-volley",
            ProjectileMechanic::PowerSpreadVolley => "power-spread-volley",
            ProjectileMechanic::StaggeredVolley => "staggered-volley",
            ProjectileMechanic::ImpactConvergenceFan => "impact-convergence-fan",
            ProjectileMechanic::SatelliteConvergence => "satellite-convergence",
            ProjectileMechanic::OrbitingPayloadCarrier => "orbiting-payload-carrier",
            ProjectileMechanic::ConvergingHelix => "converging-helix",
            ProjectileMechanic::TimedSplit => "timed-split",
            ProjectileMechanic::SequencedImpactRing => "sequenced-impact-ring",
            ProjectileMechanic::LastSurfaceBeam => "last-surface-beam",
            ProjectileMechanic::RadialBeamCascade => "radial-beam-cascade",
            ProjectileMechanic::TargetBeamCascade => "target-beam-cascade",
            ProjectileMechanic::GlobalImpactFollowup => "global-impact-followup",
            ProjectileMechanic::TerrainOnlyContact => "terrain-only-contact",
            ProjectileMechanic::DeployProximityMine => "deploy-proximity-mine",
            ProjectileMechanic::TargetSeekingMine => "target-seeking-mine",
            ProjectileMechanic::DeployRoamingMine => "deploy-roaming-mine",
            ProjectileMechanic::ObstacleReflectingMine => "obstacle-reflecting-mine",
            ProjectileMechanic::TeleportLanding => "teleport-landing",
            ProjectileMechanic::ArmorShred => "armor-shred",
            ProjectileMechanic::ShieldPurge => "shield-purge",
            ProjectileMechanic::DamageAmplifier => "damage-amplifier",
            ProjectileMechanic::DamageDampener => "damage-dampener",
            ProjectileMechanic::HorizontalMirror => "horizontal-mirror",
            ProjectileMechanic::TornadoRedirect => "tornado-redirect",
            ProjectileMechanic::ElectricImpactFollowup => "electric-impact-followup",
            ProjectileMechanic::RandomEnvironmentTrigger => "random-environment-trigger",
            ProjectileMechanic::MergeableEnvironmentZone => "mergeable-environment-zone",
            ProjectileMechanic::TerrainCollapse => "terrain-collapse",
        }
    }
}

/// Determines what can stop a projectile.
#[derive(Debug, Clone, Copy, PartialEq, Eq, Hash, Structural)]
pub enum ContactPolicy {
    /// Terrain and character bodies both stop flight.
    TerrainOrCharacter,
    /// Only terrain stops flight; character bodies are ignored for placement.
    TerrainOnly,
    /// A bounded beam remembers its last solid contact rather than stopping at the first.
    LastSurfaceAlongBeam,
}

/// Reports whether an observed contact stops flight under `policy`.
pub fn contact_stops_flight(
    policy: ContactPolicy,
    touched_terrain: bool,
    touched_character: bool,
) -> (stops: bool)
    ensures
        stops == match policy {
            ContactPolicy::TerrainOrCharacter => touched_terrain || touched_character,
            ContactPolicy::TerrainOnly => touched_terrain,
            ContactPolicy::LastSurfaceAlongBeam => false,
        },
{
    match policy {
        ContactPolicy::TerrainOrCharacter => touched_terrain || touched_character,
        ContactPolicy::TerrainOnly => touched_terrain,
        ContactPolicy::LastSurfaceAlongBeam => false,
    }
}

/// Damage and crater carried by one impact phase.
#[derive(Debug, Clone, Copy, PartialEq, Eq, Hash, Structural)]
pub struct Payload {
    /// Maximum damage at the impact center.
    pub damage: u16,
    /// Circular terrain radius in cells.
    pub crater_radius_cells: u16,
}

/// Squared-distance radial falloff: full damage at the center, zero at and beyond the radius.
pub open spec fn spec_radial_damage(
    base_damage: u16,
    impact: FixedPoint,
    target: FixedPoint,
    radius: i32,
) -> u16 {
    if radius < 0 {
        0
    } else {
        let distance_squared = clamp_i64(spec_distance_squared(impact, target));
        let radius_squared = radius * radius;
        if distance_squared > radius_squared {
            0
        } else if radius_squared == 0 {
            if distance_squared == 0 {
                base_damage
            } else {
                0
            }
        } else {
            let numerator = clamp_i64(base_damage * (radius_squared - distance_squared));
            match spec_round_divide(numerator as int, radius_squared) {
                Some(damage) => if 0 <= damage <= u16::MAX {
                    damage as u16
                } else {
                    0
                },
                None => 0,
            }
        }
    }
}

/// Computes deterministic squared-distance radial falloff.
///
/// Damage is full at the center, reaches zero at the radius, and never divides by target
/// distance.
pub fn radial_damage(base_damage: u16, impact: FixedPoint, target: FixedPoint, radius: i32) -> (damage: u16)
    ensures
        damage == spec_radial_damage(base_damage, impact, target, radius),
{
    if radius < 0 {
        return 0;
    }
    let distance_squared = distance_squared(impact, target);
    let radius_wide: i64 = radius as i64;
    proof {
        assert(0 <= radius_wide * radius_wide <= 2147483647 * 2147483647) by (nonlinear_arith)
            requires
                0 <= radius_wide <= 2147483647,
        ;
    }
    let radius_squared: i64 = radius_wide * radius_wide;
    if distance_squared > radius_squared {
        return 0;
    }
    if radius_squared == 0 {
        return if distance_squared == 0 {
            base_damage
        } else {
            0
        };
    }
    let remaining: i64 = radius_squared - distance_squared;
    let numerator = crate::fixed::saturating_mul_i64(base_damage as i64, remaining);
    match round_divide(numerator, radius_squared) {
        Some(damage) => {
            if 0 <= damage && damage <= 65535 {
                damage as u16
            } else {
                0
            }
        },
        None => 0,
    }
}

/// One payload scheduled relative to its parent action.
#[derive(Debug, Clone, Copy, PartialEq, Eq, Hash, Structural)]
pub struct ScheduledProjectile {
    /// Stable zero-based child ordinal.
    pub ordinal: u8,
    /// Launch angle in millidegrees.
    pub angle_millidegrees: i32,
    /// Launch power in fixed-point units.
    pub power: i32,
    /// Delay after the parent action, in authority ticks.
    pub delay_ticks: u16,
}

/// Centered multi-projectile scheduling parameters.
#[derive(Debug, Clone, Copy, PartialEq, Eq, Hash, Structural)]
pub struct VolleySpec {
    /// Number of child projectiles.
    pub count: u8,
    /// Difference between adjacent launch angles, in millidegrees.
    pub angle_step_millidegrees: i32,
    /// Power added for each successive child.
    pub power_step: i32,
    /// Delay added for each successive child.
    pub stagger_ticks: u16,
}

/// Whether a mathematical integer fits in `i32`.
pub open spec fn fits_i32(value: int) -> bool {
    i32::MIN <= value <= i32::MAX
}

/// Child `ordinal` of a centered volley: the angle is offset by
/// `(2 * ordinal - (count - 1)) * angle_step / 2` (rounded half away from zero), power by
/// `ordinal * power_step`, and delay by `ordinal * stagger_ticks`.
pub open spec fn spec_volley_child(
    spec: VolleySpec,
    base_angle_millidegrees: i32,
    base_power: i32,
    ordinal: int,
) -> SimResult<ScheduledProjectile> {
    let centered_twice = 2 * ordinal - (spec.count - 1);
    let angle_offset = spec_round_divide(centered_twice * spec.angle_step_millidegrees, 2);
    match angle_offset {
        None => Err(SimError::Overflow { context: "projectile_mechanics::volley_angle_round" }),
        Some(offset) => if !fits_i32(offset as int) {
            Err(SimError::Overflow { context: "projectile_mechanics::volley_angle_i32" })
        } else if !fits_i32(base_angle_millidegrees + offset) {
            Err(SimError::Overflow { context: "projectile_mechanics::volley_angle_add" })
        } else if !fits_i32(ordinal * spec.power_step) {
            Err(SimError::Overflow { context: "projectile_mechanics::volley_power" })
        } else if !fits_i32(base_power + ordinal * spec.power_step) {
            Err(SimError::Overflow { context: "projectile_mechanics::volley_power_add" })
        } else if ordinal * spec.stagger_ticks > u16::MAX {
            Err(SimError::Overflow { context: "projectile_mechanics::volley_delay" })
        } else {
            Ok(
                ScheduledProjectile {
                    ordinal: ordinal as u8,
                    angle_millidegrees: (base_angle_millidegrees + offset) as i32,
                    power: (base_power + ordinal * spec.power_step) as i32,
                    delay_ticks: (ordinal * spec.stagger_ticks) as u16,
                },
            )
        },
    }
}

/// The volley children as a function of their ordinal.
pub open spec fn volley_children(
    spec: VolleySpec,
    base_angle_millidegrees: i32,
    base_power: i32,
) -> spec_fn(int) -> SimResult<ScheduledProjectile> {
    |ordinal: int| spec_volley_child(spec, base_angle_millidegrees, base_power, ordinal)
}

/// What [`schedule_volley`] produces.
pub open spec fn spec_schedule_volley(
    spec: VolleySpec,
    base_angle_millidegrees: i32,
    base_power: i32,
) -> SimResult<Seq<ScheduledProjectile>> {
    if spec.count == 0 || spec.count > MAX_CHILD_PROJECTILES {
        Err(SimError::OutOfRange { field: "volley child count" })
    } else {
        spec_collect(
            volley_children(spec, base_angle_millidegrees, base_power),
            spec.count as int,
        )
    }
}

/// Computes one volley child; see [`spec_volley_child`].
fn volley_child(
    spec: VolleySpec,
    base_angle_millidegrees: i32,
    base_power: i32,
    ordinal: u8,
) -> (child: SimResult<ScheduledProjectile>)
    requires
        1 <= spec.count <= MAX_CHILD_PROJECTILES,
        ordinal < spec.count,
    ensures
        child == spec_volley_child(spec, base_angle_millidegrees, base_power, ordinal as int),
{
    let last_ordinal: i64 = spec.count as i64 - 1;
    let centered_twice: i64 = ordinal as i64 * 2 - last_ordinal;
    proof {
        assert(-64 * 2147483648 <= centered_twice * spec.angle_step_millidegrees <= 64
            * 2147483648) by (nonlinear_arith)
            requires
                -64 <= centered_twice <= 64,
                -2147483648 <= spec.angle_step_millidegrees <= 2147483647,
        ;
    }
    let angle_numerator: i64 = centered_twice * spec.angle_step_millidegrees as i64;
    let angle_offset = match round_divide(angle_numerator, 2) {
        Some(offset) => offset,
        None => {
            return Err(SimError::Overflow { context: "projectile_mechanics::volley_angle_round" });
        },
    };
    if angle_offset < i32::MIN as i64 || angle_offset > i32::MAX as i64 {
        return Err(SimError::Overflow { context: "projectile_mechanics::volley_angle_i32" });
    }
    let angle: i64 = base_angle_millidegrees as i64 + angle_offset;
    if angle < i32::MIN as i64 || angle > i32::MAX as i64 {
        return Err(SimError::Overflow { context: "projectile_mechanics::volley_angle_add" });
    }
    proof {
        assert(0 <= ordinal * spec.power_step <= 32 * 2147483648 || -32 * 2147483648 <= ordinal
            * spec.power_step <= 0) by (nonlinear_arith)
            requires
                0 <= ordinal <= 32,
                -2147483648 <= spec.power_step <= 2147483647,
        ;
        assert(0 <= ordinal * spec.stagger_ticks <= 32 * 65535) by (nonlinear_arith)
            requires
                0 <= ordinal <= 32,
                0 <= spec.stagger_ticks <= 65535,
        ;
    }
    let power_offset: i64 = ordinal as i64 * spec.power_step as i64;
    if power_offset < i32::MIN as i64 || power_offset > i32::MAX as i64 {
        return Err(SimError::Overflow { context: "projectile_mechanics::volley_power" });
    }
    let power: i64 = base_power as i64 + power_offset;
    if power < i32::MIN as i64 || power > i32::MAX as i64 {
        return Err(SimError::Overflow { context: "projectile_mechanics::volley_power_add" });
    }
    let delay: u32 = ordinal as u32 * spec.stagger_ticks as u32;
    if delay > 65535 {
        return Err(SimError::Overflow { context: "projectile_mechanics::volley_delay" });
    }
    Ok(
        ScheduledProjectile {
            ordinal,
            angle_millidegrees: angle as i32,
            power: power as i32,
            delay_ticks: delay as u16,
        },
    )
}

/// Produces a centered, ordered, bounded volley schedule.
///
/// # Errors
///
/// Rejects zero children, more than [`MAX_CHILD_PROJECTILES`], and arithmetic overflow.
pub fn schedule_volley(
    spec: VolleySpec,
    base_angle_millidegrees: i32,
    base_power: i32,
) -> (result: SimResult<Vec<ScheduledProjectile>>)
    ensures
        vec_result_view(result) == spec_schedule_volley(spec, base_angle_millidegrees, base_power),
{
    if spec.count == 0 || spec.count > MAX_CHILD_PROJECTILES {
        return Err(SimError::OutOfRange { field: "volley child count" });
    }
    let ghost children = volley_children(spec, base_angle_millidegrees, base_power);
    let mut scheduled: Vec<ScheduledProjectile> = Vec::new();
    let mut ordinal: u8 = 0;
    while ordinal < spec.count
        invariant
            1 <= spec.count <= MAX_CHILD_PROJECTILES,
            ordinal <= spec.count,
            children == volley_children(spec, base_angle_millidegrees, base_power),
            spec_collect(children, ordinal as int) == Ok::<Seq<ScheduledProjectile>, SimError>(
                scheduled@,
            ),
        decreases spec.count - ordinal,
    {
        match volley_child(spec, base_angle_millidegrees, base_power, ordinal) {
            Err(error) => {
                proof {
                    lemma_collect_err_sticks(children, ordinal as int + 1, spec.count as int);
                }
                return Err(error);
            },
            Ok(child) => {
                scheduled.push(child);
            },
        }
        ordinal = ordinal + 1;
    }
    Ok(scheduled)
}

/// Tracks completion of a bounded group of dependent payloads.
#[derive(Debug, Clone, Copy, PartialEq, Eq, Hash)]
pub struct DependencyGroup {
    expected: u8,
    resolved: u8,
}

/// One resolution of a group of `expected` members of which `resolved` are done: refused
/// (changing nothing) once complete, else the count grows by one and the answer says whether
/// that completed the group.
pub open spec fn spec_resolve_step(expected: u8, resolved: u8) -> (SimResult<bool>, u8) {
    if resolved >= expected {
        (Err(SimError::OutOfRange { field: "dependency group resolution" }), resolved)
    } else {
        (Ok(resolved + 1 == expected), (resolved + 1) as u8)
    }
}

/// How many of `calls` successive resolutions, from `resolved` done of `expected`, report
/// completion.
pub open spec fn spec_completions(expected: u8, resolved: u8, calls: nat) -> nat
    decreases calls,
{
    if calls == 0 {
        0
    } else {
        let (result, next) = spec_resolve_step(expected, resolved);
        (if result == Ok::<bool, SimError>(true) {
            1nat
        } else {
            0nat
        }) + spec_completions(expected, next, (calls - 1) as nat)
    }
}

impl DependencyGroup {
    /// Group members.
    pub closed spec fn spec_expected(self) -> u8 {
        self.expected
    }

    /// Members resolved so far.
    pub closed spec fn spec_resolved(self) -> u8 {
        self.resolved
    }

    /// A group holds between one and [`MAX_CHILD_PROJECTILES`] members and never resolves more
    /// than it holds.
    #[verifier::type_invariant]
    closed spec fn group_invariant(self) -> bool {
        1 <= self.expected <= MAX_CHILD_PROJECTILES && self.resolved <= self.expected
    }

    /// Creates a group with at least one and at most [`MAX_CHILD_PROJECTILES`] members.
    ///
    /// # Errors
    ///
    /// Rejects an out-of-range member count.
    pub fn new(expected: u8) -> (result: SimResult<DependencyGroup>)
        ensures
            (expected == 0 || expected > MAX_CHILD_PROJECTILES) ==> result == Err::<
                DependencyGroup,
                SimError,
            >(SimError::OutOfRange { field: "dependency group size" }),
            !(expected == 0 || expected > MAX_CHILD_PROJECTILES) ==> (result matches Ok(group)
                && group.spec_expected() == expected && group.spec_resolved() == 0),
    {
        if expected == 0 || expected > MAX_CHILD_PROJECTILES {
            return Err(SimError::OutOfRange { field: "dependency group size" });
        }
        Ok(DependencyGroup { expected, resolved: 0 })
    }

    /// Records one payload resolution and returns whether the group is now complete.
    ///
    /// # Errors
    ///
    /// Rejects a resolution after the group has already completed, changing nothing.
    pub fn resolve_one(&mut self) -> (result: SimResult<bool>)
        ensures
            final(self).spec_expected() == old(self).spec_expected(),
            old(self).spec_resolved() >= old(self).spec_expected() ==> result == Err::<bool, SimError>(
                SimError::OutOfRange { field: "dependency group resolution" },
            ),
            old(self).spec_resolved() >= old(self).spec_expected() ==> final(self).spec_resolved()
                == old(self).spec_resolved(),
            old(self).spec_resolved() < old(self).spec_expected() ==> final(self).spec_resolved()
                == old(self).spec_resolved() + 1,
            old(self).spec_resolved() < old(self).spec_expected() ==> result == Ok::<bool, SimError>(
                old(self).spec_resolved() + 1 == old(self).spec_expected(),
            ),
            (result, final(self).spec_resolved()) == spec_resolve_step(
                old(self).spec_expected(),
                old(self).spec_resolved(),
            ),
    {
        proof {
            use_type_invariant(&*self);
        }
        if self.resolved >= self.expected {
            return Err(SimError::OutOfRange { field: "dependency group resolution" });
        }
        self.resolved = self.resolved + 1;
        Ok(self.resolved == self.expected)
    }

    /// Number of payloads still unresolved.
    pub fn remaining(self) -> (remaining: u8)
        ensures
            remaining == self.spec_expected() - self.spec_resolved(),
    {
        proof {
            use_type_invariant(&self);
        }
        self.expected - self.resolved
    }
}

/// Timed mutation applied to a projectile during flight.
#[derive(Debug, Clone, Copy, PartialEq, Eq, Hash, Structural)]
pub struct TimedPayloadUpgrade {
    /// Tick on which the payload becomes armed.
    pub arm_after_ticks: u16,
    /// Number of ticks motion remains paused while arming.
    pub pause_ticks: u16,
    /// Damage added once armed.
    pub damage_bonus: u16,
    /// Crater radius added once armed.
    pub crater_radius_bonus: u16,
}

/// Result of querying a timed payload upgrade.
#[derive(Debug, Clone, Copy, PartialEq, Eq, Hash, Structural)]
pub struct TimedPayloadState {
    /// Payload at the queried tick.
    pub payload: Payload,
    /// Whether the upgrade has applied.
    pub armed: bool,
    /// Whether projectile motion should currently pause.
    pub motion_paused: bool,
}

/// `a + b` saturating at `u16::MAX`.
pub open spec fn saturating_add_u16(a: u16, b: u16) -> u16 {
    if a + b > u16::MAX {
        u16::MAX
    } else {
        (a + b) as u16
    }
}

/// Resolves arming state without mutating a live projectile.
pub fn payload_at_tick(
    base: Payload,
    upgrade: TimedPayloadUpgrade,
    elapsed_ticks: u16,
) -> (state: TimedPayloadState)
    ensures
        ({
            let pause_end = saturating_add_u16(upgrade.arm_after_ticks, upgrade.pause_ticks);
            &&& state.armed == (elapsed_ticks >= pause_end)
            &&& state.motion_paused == (elapsed_ticks >= upgrade.arm_after_ticks && elapsed_ticks
                < pause_end)
            &&& state.payload == if state.armed {
                Payload {
                    damage: saturating_add_u16(base.damage, upgrade.damage_bonus),
                    crater_radius_cells: saturating_add_u16(
                        base.crater_radius_cells,
                        upgrade.crater_radius_bonus,
                    ),
                }
            } else {
                base
            }
        }),
{
    let pause_end = upgrade.arm_after_ticks.saturating_add(upgrade.pause_ticks);
    let armed = elapsed_ticks >= pause_end;
    let motion_paused = elapsed_ticks >= upgrade.arm_after_ticks && elapsed_ticks < pause_end;
    let payload = if armed {
        Payload {
            damage: base.damage.saturating_add(upgrade.damage_bonus),
            crater_radius_cells: base.crater_radius_cells.saturating_add(
                upgrade.crater_radius_bonus,
            ),
        }
    } else {
        base
    };
    TimedPayloadState { payload, armed, motion_paused }
}

/// One scheduled explosion in a staged or ring sequence.
#[derive(Debug, Clone, Copy, PartialEq, Eq, Hash, Structural)]
pub struct ScheduledBlast {
    /// Tick offset from the triggering impact.
    pub delay_ticks: u16,
    /// Blast center.
    pub position: FixedPoint,
    /// Damage and crater carried by this phase.
    pub payload: Payload,
}

/// Geometry and timing for a sequenced impact ring.
#[derive(Debug, Clone, Copy, PartialEq, Eq, Hash, Structural)]
pub struct ImpactRingSpec {
    /// Number of blasts in the sequence.
    pub count: u8,
    /// Distance from the anchor in fixed-point units.
    pub radius: i32,
    /// First phase in sixteenths of a clockwise turn.
    pub starting_phase: u8,
    /// Phase difference between successive positions.
    pub phase_step: u8,
    /// Delay between successive blasts.
    pub interval_ticks: u16,
    /// Whether positions alternate clockwise and counter-clockwise around the start.
    pub alternating: bool,
}

/// Builds the two phases of a same-position double blast.
pub fn double_blast(
    position: FixedPoint,
    first: Payload,
    second: Payload,
    second_delay_ticks: u16,
) -> (phases: [ScheduledBlast; 2])
    ensures
        phases@[0] == (ScheduledBlast { delay_ticks: 0, position, payload: first }),
        phases@[1] == (ScheduledBlast { delay_ticks: second_delay_ticks, position, payload: second }),
{
    [
        ScheduledBlast { delay_ticks: 0, position, payload: first },
        ScheduledBlast { delay_ticks: second_delay_ticks, position, payload: second },
    ]
}

/// The fixed 16-direction unit circle, clockwise in screen coordinates (`+Y` is down),
/// scaled by 1024. Values were rounded once at authoring time.
pub open spec fn spec_unit_circle(index: int) -> (int, int) {
    if index == 0 {
        (1024, 0)
    } else if index == 1 {
        (946, 392)
    } else if index == 2 {
        (724, 724)
    } else if index == 3 {
        (392, 946)
    } else if index == 4 {
        (0, 1024)
    } else if index == 5 {
        (-392, 946)
    } else if index == 6 {
        (-724, 724)
    } else if index == 7 {
        (-946, 392)
    } else if index == 8 {
        (-1024, 0)
    } else if index == 9 {
        (-946, -392)
    } else if index == 10 {
        (-724, -724)
    } else if index == 11 {
        (-392, -946)
    } else if index == 12 {
        (0, -1024)
    } else if index == 13 {
        (392, -946)
    } else if index == 14 {
        (724, -724)
    } else {
        (946, -392)
    }
}

fn unit_circle(index: u8) -> (unit: (i32, i32))
    requires
        index < 16,
    ensures
        unit.0 as int == spec_unit_circle(index as int).0,
        unit.1 as int == spec_unit_circle(index as int).1,
{
    if index == 0 {
        (1024, 0)
    } else if index == 1 {
        (946, 392)
    } else if index == 2 {
        (724, 724)
    } else if index == 3 {
        (392, 946)
    } else if index == 4 {
        (0, 1024)
    } else if index == 5 {
        (-392, 946)
    } else if index == 6 {
        (-724, 724)
    } else if index == 7 {
        (-946, 392)
    } else if index == 8 {
        (-1024, 0)
    } else if index == 9 {
        (-946, -392)
    } else if index == 10 {
        (-724, -724)
    } else if index == 11 {
        (-392, -946)
    } else if index == 12 {
        (0, -1024)
    } else if index == 13 {
        (392, -946)
    } else if index == 14 {
        (724, -724)
    } else {
        (946, -392)
    }
}

/// What [`orbit_offset`] returns.
pub open spec fn spec_orbit_offset(radius: i32, phase: u8) -> SimResult<FixedPoint> {
    if radius < 0 {
        Err(SimError::OutOfRange { field: "orbit radius" })
    } else {
        let unit = spec_unit_circle((phase % 16) as int);
        match spec_scale(radius as int, unit.0, CIRCLE_SCALE as int) {
            None => Err(SimError::Overflow { context: "projectile_mechanics::orbit_x" }),
            Some(x) => match spec_scale(radius as int, unit.1, CIRCLE_SCALE as int) {
                None => Err(SimError::Overflow { context: "projectile_mechanics::orbit_y" }),
                Some(y) => Ok(FixedPoint { x, y }),
            },
        }
    }
}

/// What [`orbit_position`] returns.
pub open spec fn spec_orbit_position(carrier: FixedPoint, radius: i32, phase: u8) -> SimResult<
    FixedPoint,
> {
    match spec_orbit_offset(radius, phase) {
        Err(error) => Err(error),
        Ok(offset) => Ok(spec_point_add(carrier, offset)),
    }
}

/// Returns a fixed-point offset on a deterministic 16-direction circle.
///
/// `phase` wraps modulo 16 and advances clockwise in screen coordinates.
///
/// # Errors
///
/// Rejects a negative radius; returns [`SimError::Overflow`] when the scaled offset cannot
/// fit in an `i32`.
pub fn orbit_offset(radius: i32, phase: u8) -> (result: SimResult<FixedPoint>)
    ensures
        result == spec_orbit_offset(radius, phase),
{
    if radius < 0 {
        return Err(SimError::OutOfRange { field: "orbit radius" });
    }
    let (unit_x, unit_y) = unit_circle(phase % 16);
    let x = match scale(radius, unit_x, CIRCLE_SCALE) {
        Some(x) => x,
        None => {
            return Err(SimError::Overflow { context: "projectile_mechanics::orbit_x" });
        },
    };
    let y = match scale(radius, unit_y, CIRCLE_SCALE) {
        Some(y) => y,
        None => {
            return Err(SimError::Overflow { context: "projectile_mechanics::orbit_y" });
        },
    };
    Ok(FixedPoint::new(x, y))
}

/// Positions one orbiting collision payload around a carrier.
///
/// # Errors
///
/// Propagates invalid radius or scaling errors from [`orbit_offset`].
pub fn orbit_position(carrier: FixedPoint, radius: i32, phase: u8) -> (result: SimResult<FixedPoint>)
    ensures
        result == spec_orbit_position(carrier, radius, phase),
{
    match orbit_offset(radius, phase) {
        Err(error) => Err(error),
        Ok(offset) => Ok(carrier.saturating_add(offset)),
    }
}

/// One projectile travelling from a distributed source toward a shared target.
#[derive(Debug, Clone, Copy, PartialEq, Eq, Hash, Structural)]
pub struct ConvergingProjectile {
    /// Stable zero-based child ordinal.
    pub ordinal: u8,
    /// Distributed launch position.
    pub start: FixedPoint,
    /// Shared convergence point.
    pub target: FixedPoint,
    /// Delay after the marker impact.
    pub delay_ticks: u16,
}

/// Geometry and timing for an impact- or satellite-origin convergence fan.
#[derive(Debug, Clone, Copy, PartialEq, Eq, Hash, Structural)]
pub struct ConvergenceFanSpec {
    /// Number of converging projectiles.
    pub count: u8,
    /// Distance of every source from `source_center`.
    pub source_radius: i32,
    /// First source phase in sixteenths of a clockwise turn.
    pub starting_phase: u8,
    /// Phase difference between sources.
    pub phase_step: u8,
    /// Delay between successive projectiles.
    pub stagger_ticks: u16,
}

/// Projectile `ordinal` of a convergence fan.
pub open spec fn spec_fan_member(
    source_center: FixedPoint,
    target: FixedPoint,
    spec: ConvergenceFanSpec,
    ordinal: int,
) -> SimResult<ConvergingProjectile> {
    let phase = (spec.starting_phase + ordinal * spec.phase_step) % 16;
    if ordinal * spec.stagger_ticks > u16::MAX {
        Err(SimError::Overflow { context: "projectile_mechanics::convergence_delay" })
    } else {
        match spec_orbit_position(source_center, spec.source_radius, phase as u8) {
            Err(error) => Err(error),
            Ok(start) => Ok(
                ConvergingProjectile {
                    ordinal: ordinal as u8,
                    start,
                    target,
                    delay_ticks: (ordinal * spec.stagger_ticks) as u16,
                },
            ),
        }
    }
}

/// The fan members as a function of their ordinal.
pub open spec fn fan_members(
    source_center: FixedPoint,
    target: FixedPoint,
    spec: ConvergenceFanSpec,
) -> spec_fn(int) -> SimResult<ConvergingProjectile> {
    |ordinal: int| spec_fan_member(source_center, target, spec, ordinal)
}

/// What [`schedule_convergence_fan`] produces.
pub open spec fn spec_schedule_convergence_fan(
    source_center: FixedPoint,
    target: FixedPoint,
    spec: ConvergenceFanSpec,
) -> SimResult<Seq<ConvergingProjectile>> {
    if spec.count == 0 || spec.count > 16 {
        Err(SimError::OutOfRange { field: "convergence fan count" })
    } else {
        spec_collect(fan_members(source_center, target, spec), spec.count as int)
    }
}

/// Computes one fan member; see [`spec_fan_member`].
fn fan_member(
    source_center: FixedPoint,
    target: FixedPoint,
    spec: ConvergenceFanSpec,
    ordinal: u8,
) -> (member: SimResult<ConvergingProjectile>)
    ensures
        member == spec_fan_member(source_center, target, spec, ordinal as int),
{
    proof {
        assert(0 <= ordinal * spec.phase_step <= 255 * 255) by (nonlinear_arith)
            requires
                0 <= ordinal <= 255,
                0 <= spec.phase_step <= 255,
        ;
        assert(0 <= ordinal * spec.stagger_ticks <= 255 * 65535) by (nonlinear_arith)
            requires
                0 <= ordinal <= 255,
                0 <= spec.stagger_ticks <= 65535,
        ;
    }
    let phase_sum: u32 = spec.starting_phase as u32 + ordinal as u32 * spec.phase_step as u32;
    let phase: u8 = (phase_sum % 16) as u8;
    let delay: u32 = ordinal as u32 * spec.stagger_ticks as u32;
    if delay > 65535 {
        return Err(SimError::Overflow { context: "projectile_mechanics::convergence_delay" });
    }
    match orbit_position(source_center, spec.source_radius, phase) {
        Err(error) => Err(error),
        Ok(start) => Ok(ConvergingProjectile { ordinal, start, target, delay_ticks: delay as u16 }),
    }
}

/// Schedules projectiles from a fan of sources toward one target.
///
/// # Errors
///
/// Rejects an empty fan, more than 16 members, a negative source radius, or delay overflow.
pub fn schedule_convergence_fan(
    source_center: FixedPoint,
    target: FixedPoint,
    spec: ConvergenceFanSpec,
) -> (result: SimResult<Vec<ConvergingProjectile>>)
    ensures
        vec_result_view(result) == spec_schedule_convergence_fan(source_center, target, spec),
{
    if spec.count == 0 || spec.count > 16 {
        return Err(SimError::OutOfRange { field: "convergence fan count" });
    }
    let ghost members = fan_members(source_center, target, spec);
    let mut projectiles: Vec<ConvergingProjectile> = Vec::new();
    let mut ordinal: u8 = 0;
    while ordinal < spec.count
        invariant
            1 <= spec.count <= 16,
            ordinal <= spec.count,
            members == fan_members(source_center, target, spec),
            spec_collect(members, ordinal as int) == Ok::<Seq<ConvergingProjectile>, SimError>(
                projectiles@,
            ),
        decreases spec.count - ordinal,
    {
        match fan_member(source_center, target, spec, ordinal) {
            Err(error) => {
                proof {
                    lemma_collect_err_sticks(members, ordinal as int + 1, spec.count as int);
                }
                return Err(error);
            },
            Ok(member) => {
                projectiles.push(member);
            },
        }
        ordinal = ordinal + 1;
    }
    Ok(projectiles)
}

/// What [`converging_radius`] returns.
pub open spec fn spec_converging_radius(
    initial_radius: i32,
    elapsed_ticks: u16,
    converge_after_ticks: u16,
    contraction_per_tick: i32,
) -> i32 {
    if initial_radius <= 0 || contraction_per_tick <= 0 || elapsed_ticks <= converge_after_ticks {
        if initial_radius < 0 {
            0
        } else {
            initial_radius
        }
    } else {
        let active_ticks = elapsed_ticks - converge_after_ticks;
        let contracted = clamp_i32(
            initial_radius - clamp_i32(active_ticks * contraction_per_tick),
        );
        if contracted < 0 {
            0
        } else {
            contracted
        }
    }
}

/// Contracts an orbit radius after a delay, saturating at zero.
pub fn converging_radius(
    initial_radius: i32,
    elapsed_ticks: u16,
    converge_after_ticks: u16,
    contraction_per_tick: i32,
) -> (radius: i32)
    ensures
        radius == spec_converging_radius(
            initial_radius,
            elapsed_ticks,
            converge_after_ticks,
            contraction_per_tick,
        ),
{
    if initial_radius <= 0 || contraction_per_tick <= 0 || elapsed_ticks <= converge_after_ticks {
        return if initial_radius < 0 {
            0
        } else {
            initial_radius
        };
    }
    let active_ticks: i32 = (elapsed_ticks - converge_after_ticks) as i32;
    let contracted = crate::fixed::saturating_sub_i32(
        initial_radius,
        crate::fixed::saturating_mul_i32(active_ticks, contraction_per_tick),
    );
    if contracted < 0 {
        0
    } else {
        contracted
    }
}

/// Child `index` of a timed split: the volley child delayed by `split_tick`.
pub open spec fn spec_split_child(
    children: Seq<ScheduledProjectile>,
    split_tick: u16,
    index: int,
) -> SimResult<ScheduledProjectile> {
    if children[index].delay_ticks + split_tick > u16::MAX {
        Err(SimError::Overflow { context: "projectile_mechanics::split_delay" })
    } else {
        Ok(
            ScheduledProjectile {
                delay_ticks: (children[index].delay_ticks + split_tick) as u16,
                ..children[index]
            },
        )
    }
}

/// The delayed split children as a function of their index.
pub open spec fn split_children(children: Seq<ScheduledProjectile>, split_tick: u16) -> spec_fn(
    int,
) -> SimResult<ScheduledProjectile> {
    |index: int| spec_split_child(children, split_tick, index)
}

/// What [`schedule_split`] produces.
pub open spec fn spec_schedule_split(
    spec: VolleySpec,
    base_angle_millidegrees: i32,
    parent_power: i32,
    power_basis_points: i32,
    split_tick: u16,
) -> SimResult<Seq<ScheduledProjectile>> {
    match spec_scale(parent_power as int, power_basis_points as int, BASIS_POINTS as int) {
        None => Err(SimError::Overflow { context: "projectile_mechanics::split_power" }),
        Some(child_power) => if child_power < 0 {
            Err(SimError::OutOfRange { field: "split child power" })
        } else {
            match spec_schedule_volley(spec, base_angle_millidegrees, child_power) {
                Err(error) => Err(error),
                Ok(children) => spec_collect(
                    split_children(children, split_tick),
                    children.len() as int,
                ),
            }
        },
    }
}

/// Creates a timed mid-flight split by reusing the bounded volley scheduler.
///
/// Child power is scaled by `power_basis_points`, and every child begins at `split_tick` plus
/// its own stagger delay.
///
/// # Errors
///
/// Propagates invalid volley parameters, invalid negative power, and arithmetic overflow.
pub fn schedule_split(
    spec: VolleySpec,
    base_angle_millidegrees: i32,
    parent_power: i32,
    power_basis_points: i32,
    split_tick: u16,
) -> (result: SimResult<Vec<ScheduledProjectile>>)
    ensures
        vec_result_view(result) == spec_schedule_split(
            spec,
            base_angle_millidegrees,
            parent_power,
            power_basis_points,
            split_tick,
        ),
{
    let child_power = match apply_basis_points(parent_power, power_basis_points) {
        Some(power) => power,
        None => {
            return Err(SimError::Overflow { context: "projectile_mechanics::split_power" });
        },
    };
    if child_power < 0 {
        return Err(SimError::OutOfRange { field: "split child power" });
    }
    let children = match schedule_volley(spec, base_angle_millidegrees, child_power) {
        Ok(children) => children,
        Err(error) => {
            return Err(error);
        },
    };
    let ghost delayed = split_children(children@, split_tick);
    let mut split: Vec<ScheduledProjectile> = Vec::new();
    let mut index: usize = 0;
    while index < children.len()
        invariant
            index <= children.len(),
            delayed == split_children(children@, split_tick),
            spec_schedule_split(
                spec,
                base_angle_millidegrees,
                parent_power,
                power_basis_points,
                split_tick,
            ) == spec_collect(delayed, children.len() as int),
            spec_collect(delayed, index as int) == Ok::<Seq<ScheduledProjectile>, SimError>(
                split@,
            ),
        decreases children.len() - index,
    {
        let child = children[index];
        let delay: u32 = child.delay_ticks as u32 + split_tick as u32;
        if delay > 65535 {
            proof {
                lemma_collect_err_sticks(delayed, index as int + 1, children.len() as int);
            }
            return Err(SimError::Overflow { context: "projectile_mechanics::split_delay" });
        }
        split.push(ScheduledProjectile { delay_ticks: delay as u16, ..child });
        index = index + 1;
    }
    Ok(split)
}

/// Signed position of blast `ordinal` around the ring's starting phase: sequential, or
/// alternating 0, +1, -1, +2, -2, ...
pub open spec fn spec_ring_offset(alternating: bool, ordinal: int) -> int {
    if !alternating {
        ordinal
    } else if ordinal == 0 {
        0
    } else if ordinal % 2 == 1 {
        (ordinal + 1) / 2
    } else {
        -((ordinal + 1) / 2)
    }
}

/// Blast `ordinal` of an impact ring.
pub open spec fn spec_ring_blast(
    center: FixedPoint,
    payload: Payload,
    spec: ImpactRingSpec,
    ordinal: int,
) -> SimResult<ScheduledBlast> {
    let phase = (spec.starting_phase + spec_ring_offset(spec.alternating, ordinal)
        * spec.phase_step) % 16;
    if ordinal * spec.interval_ticks > u16::MAX {
        Err(SimError::Overflow { context: "projectile_mechanics::ring_delay" })
    } else {
        match spec_orbit_offset(spec.radius, phase as u8) {
            Err(error) => Err(error),
            Ok(offset) => Ok(
                ScheduledBlast {
                    delay_ticks: (ordinal * spec.interval_ticks) as u16,
                    position: spec_point_add(center, offset),
                    payload,
                },
            ),
        }
    }
}

/// The ring blasts as a function of their ordinal.
pub open spec fn ring_blasts(center: FixedPoint, payload: Payload, spec: ImpactRingSpec) -> spec_fn(
    int,
) -> SimResult<ScheduledBlast> {
    |ordinal: int| spec_ring_blast(center, payload, spec, ordinal)
}

/// What [`schedule_impact_ring`] produces.
pub open spec fn spec_schedule_impact_ring(
    center: FixedPoint,
    payload: Payload,
    spec: ImpactRingSpec,
) -> SimResult<Seq<ScheduledBlast>> {
    if spec.count == 0 || spec.count > 16 {
        Err(SimError::OutOfRange { field: "impact ring count" })
    } else {
        spec_collect(ring_blasts(center, payload, spec), spec.count as int)
    }
}

/// Computes one ring blast; see [`spec_ring_blast`].
fn ring_blast(center: FixedPoint, payload: Payload, spec: ImpactRingSpec, ordinal: u8) -> (blast:
    SimResult<ScheduledBlast>)
    ensures
        blast == spec_ring_blast(center, payload, spec, ordinal as int),
{
    let offset: i32 = if spec.alternating {
        if ordinal == 0 {
            0
        } else {
            let magnitude: i32 = ((ordinal as u32 + 1) / 2) as i32;
            if ordinal % 2 == 1 {
                magnitude
            } else {
                -magnitude
            }
        }
    } else {
        ordinal as i32
    };
    assert(offset == spec_ring_offset(spec.alternating, ordinal as int));
    proof {
        assert(-255 * 255 <= offset * spec.phase_step <= 255 * 255) by (nonlinear_arith)
            requires
                -255 <= offset <= 255,
                0 <= spec.phase_step <= 255,
        ;
        assert(0 <= ordinal * spec.interval_ticks <= 255 * 65535) by (nonlinear_arith)
            requires
                0 <= ordinal <= 255,
                0 <= spec.interval_ticks <= 65535,
        ;
    }
    let raw_phase: i32 = spec.starting_phase as i32 + offset * spec.phase_step as i32;
    let shifted: u32 = (raw_phase + 65536) as u32;
    let phase: u8 = (shifted % 16) as u8;
    proof {
        let r = raw_phase as int;
        assert((r + 65536) % 16 == r % 16) by (nonlinear_arith)
            requires
                r + 65536 >= 0,
        ;
    }
    let delay: u32 = ordinal as u32 * spec.interval_ticks as u32;
    if delay > 65535 {
        return Err(SimError::Overflow { context: "projectile_mechanics::ring_delay" });
    }
    match orbit_offset(spec.radius, phase) {
        Err(error) => Err(error),
        Ok(offset_point) => Ok(
            ScheduledBlast {
                delay_ticks: delay as u16,
                position: center.saturating_add(offset_point),
                payload,
            },
        ),
    }
}

/// Builds a bounded sequence of blasts around an impact center.
///
/// `phase_step` is measured in sixteenths of a turn. When `alternating` is true, the order is
/// center phase, one step clockwise, one counter-clockwise, two clockwise, and so on.
///
/// # Errors
///
/// Rejects an empty sequence, more than 16 blasts, a negative radius, or delay overflow.
pub fn schedule_impact_ring(center: FixedPoint, payload: Payload, spec: ImpactRingSpec) -> (result:
    SimResult<Vec<ScheduledBlast>>)
    ensures
        vec_result_view(result) == spec_schedule_impact_ring(center, payload, spec),
{
    if spec.count == 0 || spec.count > 16 {
        return Err(SimError::OutOfRange { field: "impact ring count" });
    }
    let ghost blasts_fn = ring_blasts(center, payload, spec);
    let mut blasts: Vec<ScheduledBlast> = Vec::new();
    let mut ordinal: u8 = 0;
    while ordinal < spec.count
        invariant
            1 <= spec.count <= 16,
            ordinal <= spec.count,
            blasts_fn == ring_blasts(center, payload, spec),
            spec_collect(blasts_fn, ordinal as int) == Ok::<Seq<ScheduledBlast>, SimError>(
                blasts@,
            ),
        decreases spec.count - ordinal,
    {
        match ring_blast(center, payload, spec, ordinal) {
            Err(error) => {
                proof {
                    lemma_collect_err_sticks(blasts_fn, ordinal as int + 1, spec.count as int);
                }
                return Err(error);
            },
            Ok(blast) => {
                blasts.push(blast);
            },
        }
        ordinal = ordinal + 1;
    }
    Ok(blasts)
}

/// Builds a normal circular terrain removal operation for a projectile impact.
pub fn circular_terrain_blast(
    sequence: u32,
    center: FixedPoint,
    radius_cells: u16,
    material_mask: MaterialMask,
) -> (operation: TerrainOperation)
    ensures
        operation == (TerrainOperation {
            sequence,
            shape: TerrainShape::SubtractCircle { center, radius_cells },
            material_mask,
        }),
{
    TerrainOperation {
        sequence,
        shape: TerrainShape::SubtractCircle { center, radius_cells },
        material_mask,
    }
}

/// Result of a bounded last-surface beam scan.
#[derive(Debug, Clone, Copy, PartialEq, Eq, Hash, Structural)]
pub struct BeamScan {
    /// Final solid terrain position encountered, if any.
    pub last_surface: Option<FixedPoint>,
    /// Last in-bounds position inspected.
    pub end_position: FixedPoint,
    /// Number of positions inspected.
    pub inspected_steps: u16,
}

/// Whether cell `(x, y)` lies inside `mask`'s declared dimensions.
pub open spec fn spec_cell_in_bounds(mask: TerrainMask, x: int, y: int) -> bool {
    0 <= x < mask.width && 0 <= y < mask.height
}

/// Whether the cell containing `point` lies inside `mask`.
pub open spec fn spec_point_in_bounds(mask: TerrainMask, point: FixedPoint) -> bool {
    spec_cell_in_bounds(mask, spec_cell_of(point.x as int), spec_cell_of(point.y as int))
}

/// The beam after `k` iterations, and whether it has already left the mask.
pub open spec fn spec_beam_scan(mask: TerrainMask, start: FixedPoint, step: FixedPoint, k: int) -> (
    BeamScan,
    bool,
)
    decreases k,
{
    if k <= 0 {
        (BeamScan { last_surface: None, end_position: start, inspected_steps: 0 }, false)
    } else {
        let (previous, stopped) = spec_beam_scan(mask, start, step, k - 1);
        let candidate = spec_point_add(previous.end_position, step);
        if stopped || !spec_point_in_bounds(mask, candidate) {
            (previous, true)
        } else {
            (
                BeamScan {
                    last_surface: if mask.spec_is_solid_at(candidate) {
                        Some(candidate)
                    } else {
                        previous.last_surface
                    },
                    end_position: candidate,
                    inspected_steps: (previous.inspected_steps + 1) as u16,
                },
                false,
            )
        }
    }
}

/// The beam never inspects more positions than iterations it ran.
proof fn lemma_beam_scan_bounded(mask: TerrainMask, start: FixedPoint, step: FixedPoint, k: int)
    requires
        k >= 0,
    ensures
        spec_beam_scan(mask, start, step, k).0.inspected_steps <= k,
    decreases k,
{
    if k > 0 {
        lemma_beam_scan_bounded(mask, start, step, k - 1);
    }
}

/// What [`scan_last_surface`] returns.
pub open spec fn spec_scan_last_surface(
    mask: TerrainMask,
    start: FixedPoint,
    step: FixedPoint,
    max_steps: u16,
) -> SimResult<BeamScan> {
    if step == (FixedPoint { x: 0, y: 0 }) {
        Err(SimError::OutOfRange { field: "beam step" })
    } else if max_steps == 0 || max_steps > MAX_BEAM_STEPS {
        Err(SimError::OutOfRange { field: "beam step cap" })
    } else {
        Ok(spec_beam_scan(mask, start, step, max_steps as int).0)
    }
}

/// Walks a ray through the terrain and remembers its final solid contact.
///
/// Unlike an ordinary projectile, a beam does not stop at its first surface. This makes
/// separated platforms and overhangs meaningful while the hard step cap guarantees termination.
///
/// # Errors
///
/// Rejects a zero step and a cap outside `1..=MAX_BEAM_STEPS`.
pub fn scan_last_surface(
    mask: &TerrainMask,
    start: FixedPoint,
    step: FixedPoint,
    max_steps: u16,
) -> (result: SimResult<BeamScan>)
    ensures
        result == spec_scan_last_surface(*mask, start, step, max_steps),
{
    if step.x == 0 && step.y == 0 {
        return Err(SimError::OutOfRange { field: "beam step" });
    }
    if max_steps == 0 || max_steps > MAX_BEAM_STEPS {
        return Err(SimError::OutOfRange { field: "beam step cap" });
    }
    let mut position = start;
    let mut last_surface: Option<FixedPoint> = None;
    let mut inspected_steps: u16 = 0;
    let mut iteration: u16 = 0;
    while iteration < max_steps
        invariant
            iteration <= max_steps <= MAX_BEAM_STEPS,
            !(step.x == 0 && step.y == 0),
            spec_beam_scan(*mask, start, step, iteration as int) == (
                BeamScan { last_surface, end_position: position, inspected_steps },
                false,
            ),
        decreases max_steps - iteration,
    {
        proof {
            lemma_beam_scan_bounded(*mask, start, step, iteration as int);
        }
        let candidate = position.saturating_add(step);
        let (cell_x, cell_y) = candidate.to_cells();
        if !cell_in_bounds(mask, cell_x, cell_y) {
            proof {
                assert(spec_beam_scan(*mask, start, step, iteration as int + 1) == (
                    BeamScan { last_surface, end_position: position, inspected_steps },
                    true,
                ));
                lemma_beam_scan_stops(*mask, start, step, iteration as int + 1, max_steps as int);
                assert(spec_beam_scan(*mask, start, step, max_steps as int).0 == BeamScan {
                    last_surface,
                    end_position: position,
                    inspected_steps,
                });
            }
            return Ok(BeamScan { last_surface, end_position: position, inspected_steps });
        }
        position = candidate;
        inspected_steps = inspected_steps + 1;
        if is_solid_at(mask, position) {
            last_surface = Some(position);
        }
        iteration = iteration + 1;
    }
    Ok(BeamScan { last_surface, end_position: position, inspected_steps })
}

/// Once the beam has left the mask, further iterations change nothing.
proof fn lemma_beam_scan_stops(mask: TerrainMask, start: FixedPoint, step: FixedPoint, k: int, m: int)
    requires
        1 <= k <= m,
        spec_beam_scan(mask, start, step, k).1,
    ensures
        spec_beam_scan(mask, start, step, m) == spec_beam_scan(mask, start, step, k),
    decreases m - k,
{
    if k < m {
        lemma_beam_scan_stops(mask, start, step, k, m - 1);
    }
}

/// Whether cell `(x, y)` lies inside `mask`'s declared dimensions.
fn cell_in_bounds(mask: &TerrainMask, x: i32, y: i32) -> (inside: bool)
    ensures
        inside == spec_cell_in_bounds(*mask, x as int, y as int),
{
    if x < 0 || y < 0 {
        return false;
    }
    (x as u32) < mask.width && (y as u32) < mask.height
}

/// Number of leading samples (at most [`MAX_BEAM_STEPS`]) that are in bounds and free.
pub open spec fn spec_free_prefix(mask: TerrainMask, samples: Seq<FixedPoint>, k: int) -> int
    decreases k,
{
    if k <= 0 {
        0
    } else {
        let previous = spec_free_prefix(mask, samples, k - 1);
        if previous == k - 1 && spec_point_in_bounds(mask, samples[k - 1]) && !mask.spec_is_solid_at(
            samples[k - 1],
        ) {
            k
        } else {
            previous
        }
    }
}

/// What [`last_free_before_terrain`] returns.
pub open spec fn spec_last_free_before_terrain(mask: TerrainMask, samples: Seq<FixedPoint>) -> Option<
    FixedPoint,
> {
    let limit = if samples.len() < MAX_BEAM_STEPS {
        samples.len() as int
    } else {
        MAX_BEAM_STEPS as int
    };
    let free = spec_free_prefix(mask, samples, limit);
    if free == 0 {
        None
    } else {
        Some(samples[free - 1])
    }
}

proof fn lemma_free_prefix_stops(mask: TerrainMask, samples: Seq<FixedPoint>, k: int, m: int)
    requires
        0 <= k <= m,
        spec_free_prefix(mask, samples, k) < k,
    ensures
        spec_free_prefix(mask, samples, m) == spec_free_prefix(mask, samples, k),
    decreases m - k,
{
    if k < m {
        lemma_free_prefix_stops(mask, samples, k, m - 1);
        lemma_free_prefix_bounded(mask, samples, m - 1);
    }
}

proof fn lemma_free_prefix_bounded(mask: TerrainMask, samples: Seq<FixedPoint>, k: int)
    requires
        k >= 0,
    ensures
        0 <= spec_free_prefix(mask, samples, k) <= k,
    decreases k,
{
    if k > 0 {
        lemma_free_prefix_bounded(mask, samples, k - 1);
    }
}

/// Chooses the last free trajectory sample before terrain contact.
///
/// Character bodies are intentionally absent from this API, making it suitable for
/// terrain-only mine placement and teleport beacons.
pub fn last_free_before_terrain(mask: &TerrainMask, samples: &[FixedPoint]) -> (landing: Option<
    FixedPoint,
>)
    ensures
        landing == spec_last_free_before_terrain(*mask, samples@),
{
    let limit: usize = if samples.len() < MAX_BEAM_STEPS as usize {
        samples.len()
    } else {
        MAX_BEAM_STEPS as usize
    };
    let mut last_free: Option<FixedPoint> = None;
    let mut index: usize = 0;
    while index < limit
        invariant
            index <= limit <= samples.len(),
            limit == if samples@.len() < MAX_BEAM_STEPS {
                samples@.len() as int
            } else {
                MAX_BEAM_STEPS as int
            },
            spec_free_prefix(*mask, samples@, index as int) == index,
            last_free == if index == 0 {
                None
            } else {
                Some(samples@[index - 1])
            },
        decreases limit - index,
    {
        let sample = samples[index];
        let (x, y) = sample.to_cells();
        if !cell_in_bounds(mask, x, y) || is_solid_at(mask, sample) {
            proof {
                lemma_free_prefix_stops(*mask, samples@, index as int + 1, limit as int);
            }
            return last_free;
        }
        last_free = Some(sample);
        index = index + 1;
    }
    last_free
}

/// Stable target candidate for an autonomous mine.
#[derive(Debug, Clone, Copy, PartialEq, Eq, Hash, Structural)]
pub struct MineTarget {
    /// Stable authority-owned identifier used for tie-breaking.
    pub stable_id: u32,
    /// Current target position.
    pub position: FixedPoint,
}

/// Whether `a` ranks strictly before `b` for a mine at `origin`: nearer first, then lower id.
pub open spec fn spec_mine_target_before(origin: FixedPoint, a: MineTarget, b: MineTarget) -> bool {
    let da = clamp_i64(spec_distance_squared(origin, a.position));
    let db = clamp_i64(spec_distance_squared(origin, b.position));
    da < db || (da == db && a.stable_id < b.stable_id)
}

/// Index of the first best-ranked target among the first `n` (for `n >= 1`).
pub open spec fn spec_nearest_index(origin: FixedPoint, targets: Seq<MineTarget>, n: int) -> int
    decreases n,
{
    if n <= 1 {
        0
    } else {
        let best = spec_nearest_index(origin, targets, n - 1);
        if spec_mine_target_before(origin, targets[n - 1], targets[best]) {
            n - 1
        } else {
            best
        }
    }
}

/// The best-ranked index lies among the first `n` targets.
proof fn lemma_nearest_index_bounded(origin: FixedPoint, targets: Seq<MineTarget>, n: int)
    requires
        n >= 1,
    ensures
        0 <= spec_nearest_index(origin, targets, n) < n,
    decreases n,
{
    if n > 1 {
        lemma_nearest_index_bounded(origin, targets, n - 1);
    }
}

/// The chosen target is a least one: no target among the first `n` ranks strictly before
/// it, and it ranks strictly before every earlier target (among identical keys the earliest
/// wins).
pub proof fn lemma_nearest_is_least(origin: FixedPoint, targets: Seq<MineTarget>, n: int)
    requires
        1 <= n <= targets.len(),
    ensures
        forall|i: int|
            0 <= i < n ==> !spec_mine_target_before(
                origin,
                #[trigger] targets[i],
                targets[spec_nearest_index(origin, targets, n)],
            ),
        forall|i: int|
            0 <= i < spec_nearest_index(origin, targets, n) ==> spec_mine_target_before(
                origin,
                targets[spec_nearest_index(origin, targets, n)],
                #[trigger] targets[i],
            ),
    decreases n,
{
    lemma_nearest_index_bounded(origin, targets, n);
    if n > 1 {
        lemma_nearest_is_least(origin, targets, n - 1);
        lemma_nearest_index_bounded(origin, targets, n - 1);
    }
}

/// Chooses the closest target, breaking equal-distance ties by stable identifier; among
/// identical keys the earliest target wins.
pub fn nearest_mine_target(origin: FixedPoint, targets: &[MineTarget]) -> (nearest: Option<
    MineTarget,
>)
    ensures
        targets@.len() == 0 ==> nearest is None,
        targets@.len() > 0 ==> nearest == Some(
            targets@[spec_nearest_index(origin, targets@, targets@.len() as int)],
        ),
{
    if targets.len() == 0 {
        return None;
    }
    let mut best: usize = 0;
    let mut best_distance = distance_squared(origin, targets[0].position);
    let mut index: usize = 1;
    while index < targets.len()
        invariant
            1 <= index <= targets.len(),
            best == spec_nearest_index(origin, targets@, index as int),
            best < index,
            best_distance == clamp_i64(spec_distance_squared(origin, targets@[best as int].position)),
        decreases targets.len() - index,
    {
        let candidate = targets[index];
        let candidate_distance = distance_squared(origin, candidate.position);
        if candidate_distance < best_distance || (candidate_distance == best_distance
            && candidate.stable_id < targets[best].stable_id) {
            best = index;
            best_distance = candidate_distance;
        }
        index = index + 1;
    }
    Some(targets[best])
}

/// Returns whether a mine target is inside its activation radius (boundary inclusive).
pub fn mine_target_in_range(origin: FixedPoint, target: FixedPoint, radius: i32) -> (in_range: bool)
    ensures
        in_range == (radius >= 0 && clamp_i64(spec_distance_squared(origin, target)) <= radius
            * radius),
{
    if radius < 0 {
        return false;
    }
    let radius_wide: i64 = radius as i64;
    proof {
        assert(0 <= radius_wide * radius_wide <= 2147483647 * 2147483647) by (nonlinear_arith)
            requires
                0 <= radius_wide <= 2147483647,
        ;
    }
    distance_squared(origin, target) <= radius_wide * radius_wide
}

/// Sign of an integer: -1, 0, or 1.
pub open spec fn signum(value: int) -> int {
    if value > 0 {
        1
    } else if value < 0 {
        -1
    } else {
        0
    }
}

/// What [`seek_mine_step`] returns.
pub open spec fn spec_seek_mine_step(origin: FixedPoint, target: FixedPoint, maximum_step: i32) -> FixedPoint {
    if maximum_step <= 0 {
        origin
    } else {
        let difference = clamp_i32(target.x - origin.x);
        let magnitude = clamp_i32(if difference < 0 {
            -difference
        } else {
            difference as int
        });
        let distance = if magnitude < maximum_step {
            magnitude
        } else {
            maximum_step
        };
        FixedPoint { x: clamp_i32(origin.x + distance * signum(difference as int)), y: origin.y }
    }
}

/// Advances a walking mine horizontally toward a target by at most `maximum_step`.
pub fn seek_mine_step(origin: FixedPoint, target: FixedPoint, maximum_step: i32) -> (position: FixedPoint)
    ensures
        position == spec_seek_mine_step(origin, target, maximum_step),
{
    if maximum_step <= 0 {
        return origin;
    }
    let difference = crate::fixed::saturating_sub_i32(target.x, origin.x);
    let magnitude = crate::fixed::saturating_abs_i32(difference);
    let distance = if magnitude < maximum_step {
        magnitude
    } else {
        maximum_step
    };
    let sign: i32 = if difference > 0 {
        1
    } else if difference < 0 {
        -1
    } else {
        0
    };
    proof {
        assert(sign == signum(difference as int));
        if sign == 1 {
            assert(distance * sign == distance) by (nonlinear_arith)
                requires
                    sign == 1,
            ;
        } else if sign == -1 {
            assert(distance * sign == -distance) by (nonlinear_arith)
                requires
                    sign == -1,
            ;
        } else {
            assert(distance * sign == 0) by (nonlinear_arith)
                requires
                    sign == 0,
            ;
        }
    }
    let step = crate::fixed::saturating_mul_i32(distance, sign);
    FixedPoint::new(saturating_add_i32(origin.x, step), origin.y)
}

/// Reverses a roaming mine's horizontal step after an obstacle.
pub fn reflect_roaming_step(step: FixedPoint) -> (reflected: FixedPoint)
    ensures
        reflected == (FixedPoint { x: clamp_i32(-(step.x as int)), y: step.y }),
{
    FixedPoint::new(saturating_neg_i32(step.x), step.y)
}

/// What [`modify_damage`] returns.
pub open spec fn spec_modify_damage(base_damage: u16, basis_points: i32, flat_delta: i32) -> SimResult<u16> {
    match spec_scale(base_damage as int, basis_points as int, BASIS_POINTS as int) {
        None => Err(SimError::Overflow { context: "projectile_mechanics::damage_modifier" }),
        Some(scaled) => {
            let modified = clamp_i32(scaled + flat_delta);
            Ok(
                if modified < 0 {
                    0
                } else if modified > u16::MAX {
                    u16::MAX
                } else {
                    modified as u16
                },
            )
        },
    }
}

/// Applies a multiplicative and flat damage modifier with saturation.
///
/// `basis_points` uses 10,000 as 100%; `flat_delta` may be negative for a dampening zone.
///
/// # Errors
///
/// Returns an overflow error if the fixed-point multiplication cannot be represented.
pub fn modify_damage(base_damage: u16, basis_points: i32, flat_delta: i32) -> (result: SimResult<u16>)
    ensures
        result == spec_modify_damage(base_damage, basis_points, flat_delta),
{
    let scaled = match apply_basis_points(base_damage as i32, basis_points) {
        Some(scaled) => scaled,
        None => {
            return Err(SimError::Overflow { context: "projectile_mechanics::damage_modifier" });
        },
    };
    let modified = saturating_add_i32(scaled, flat_delta);
    let clamped: i32 = if modified < 0 {
        0
    } else if modified > 65535 {
        65535
    } else {
        modified
    };
    Ok(clamped as u16)
}

/// What [`apply_armor_shred`] returns: reduced by one hit, never below `floor`, and never
/// above the current modifier (an existing deeper debuff is not healed).
pub open spec fn spec_apply_armor_shred(current_modifier: i16, reduction_per_hit: u16, floor: i16) -> i16 {
    let reduced = current_modifier - reduction_per_hit;
    let bounded = if reduced > floor {
        reduced
    } else {
        floor as int
    };
    if bounded < current_modifier {
        bounded as i16
    } else {
        current_modifier
    }
}

/// Applies one stacking defense reduction without crossing its negative floor.
pub fn apply_armor_shred(current_modifier: i16, reduction_per_hit: u16, floor: i16) -> (modifier: i16)
    ensures
        modifier == spec_apply_armor_shred(current_modifier, reduction_per_hit, floor),
{
    let reduced: i32 = current_modifier as i32 - reduction_per_hit as i32;
    let bounded: i32 = if reduced > floor as i32 {
        reduced
    } else {
        floor as i32
    };
    if bounded < current_modifier as i32 {
        bounded as i16
    } else {
        current_modifier
    }
}

/// Damage and shield state produced by a shield-purge impact.
#[derive(Debug, Clone, Copy, PartialEq, Eq, Hash, Structural)]
pub struct ShieldPurgeOutcome {
    /// Total impact damage after adding the target's current shield.
    pub damage: u16,
    /// Shield remaining after the impact.
    pub shield_remaining: u16,
}

/// Adds the target's current shield to damage, then removes the shield.
pub fn purge_shield(base_damage: u16, current_shield: u16) -> (outcome: ShieldPurgeOutcome)
    ensures
        outcome == (ShieldPurgeOutcome {
            damage: saturating_add_u16(base_damage, current_shield),
            shield_remaining: 0,
        }),
{
    ShieldPurgeOutcome { damage: base_damage.saturating_add(current_shield), shield_remaining: 0 }
}

/// Projectile-affecting environment behaviors.
#[derive(Debug, Clone, Copy, PartialEq, Eq, Hash, Structural)]
pub enum EnvironmentModifier {
    /// Increases payload damage.
    AmplifyDamage,
    /// Decreases payload damage.
    DampenDamage,
    /// Reflects horizontal velocity and may increase damage.
    MirrorHorizontal,
    /// Temporarily replaces normal movement with a redirected path.
    TornadoPath,
    /// Adds a beam on impact.
    ElectricFollowup,
    /// Activates one linked environment zone.
    ActivateLinkedZone,
    /// Adds a remote satellite strike on impact.
    SatelliteFollowup,
}

/// Bit position of a modifier in an [`EnvironmentModifierSet`].
pub open spec fn spec_modifier_index(modifier: EnvironmentModifier) -> u16 {
    match modifier {
        EnvironmentModifier::AmplifyDamage => 0,
        EnvironmentModifier::DampenDamage => 1,
        EnvironmentModifier::MirrorHorizontal => 2,
        EnvironmentModifier::TornadoPath => 3,
        EnvironmentModifier::ElectricFollowup => 4,
        EnvironmentModifier::ActivateLinkedZone => 5,
        EnvironmentModifier::SatelliteFollowup => 6,
    }
}

impl EnvironmentModifier {
    fn bit(self) -> (bit: u16)
        ensures
            bit == 1u16 << spec_modifier_index(self),
    {
        match self {
            EnvironmentModifier::AmplifyDamage => 1u16 << 0u16,
            EnvironmentModifier::DampenDamage => 1u16 << 1u16,
            EnvironmentModifier::MirrorHorizontal => 1u16 << 2u16,
            EnvironmentModifier::TornadoPath => 1u16 << 3u16,
            EnvironmentModifier::ElectricFollowup => 1u16 << 4u16,
            EnvironmentModifier::ActivateLinkedZone => 1u16 << 5u16,
            EnvironmentModifier::SatelliteFollowup => 1u16 << 6u16,
        }
    }
}

/// Idempotence guard recording which environment types have affected a projectile.
#[derive(Debug, Clone, Copy, PartialEq, Eq, Hash)]
pub struct EnvironmentModifierSet(u16);

impl EnvironmentModifierSet {
    /// Whether `modifier` has been recorded.
    pub closed spec fn spec_contains(self, modifier: EnvironmentModifier) -> bool {
        self.0 & (1u16 << spec_modifier_index(modifier)) != 0
    }

    /// The set with `modifier` recorded.
    pub closed spec fn spec_with(self, modifier: EnvironmentModifier) -> EnvironmentModifierSet {
        EnvironmentModifierSet(self.0 | (1u16 << spec_modifier_index(modifier)))
    }

    /// Records `modifier` and returns `true` only on its first application. Other modifiers'
    /// membership is unchanged.
    pub fn apply_once(&mut self, modifier: EnvironmentModifier) -> (first: bool)
        ensures
            first == !old(self).spec_contains(modifier),
            *final(self) == old(self).spec_with(modifier),
            final(self).spec_contains(modifier),
            forall|other: EnvironmentModifier|
                other != modifier ==> final(self).spec_contains(other) == old(self).spec_contains(
                    other,
                ),
    {
        let bit = modifier.bit();
        if self.0 & bit != 0 {
            proof {
                let value = self.0;
                let i = spec_modifier_index(modifier);
                assert(value | (1u16 << i) == value) by (bit_vector)
                    requires
                        value & (1u16 << i) != 0,
                        i < 7,
                ;
            }
            return false;
        }
        let ghost before = self.0;
        self.0 = self.0 | bit;
        proof {
            let after = self.0;
            let i = spec_modifier_index(modifier);
            assert(after & (1u16 << i) != 0) by (bit_vector)
                requires
                    after == before | (1u16 << i),
                    i < 7,
            ;
            assert forall|other: EnvironmentModifier| other != modifier implies (after & (1u16
                << spec_modifier_index(other)) != 0) == (before & (1u16 << spec_modifier_index(
                other,
            )) != 0) by {
                let j = spec_modifier_index(other);
                assert(i != j);
                assert((after & (1u16 << j) != 0) == (before & (1u16 << j) != 0)) by (bit_vector)
                    requires
                        after == before | (1u16 << i),
                        i < 7,
                        j < 7,
                        i != j,
                ;
            }
        }
        true
    }

    /// Reports whether a modifier was already applied.
    pub fn contains(self, modifier: EnvironmentModifier) -> (contained: bool)
        ensures
            contained == self.spec_contains(modifier),
    {
        self.0 & modifier.bit() != 0
    }
}

impl Default for EnvironmentModifierSet {
    /// The empty set: no modifier has been applied.
    fn default() -> (set: EnvironmentModifierSet)
        ensures
            forall|modifier: EnvironmentModifier| !set.spec_contains(modifier),
    {
        let set = EnvironmentModifierSet(0);
        proof {
            assert forall|modifier: EnvironmentModifier| !set.spec_contains(modifier) by {
                let i = spec_modifier_index(modifier);
                assert(0u16 & (1u16 << i) == 0) by (bit_vector);
            }
        }
        set
    }
}

/// One leg of a path imposed by an environment zone.
#[derive(Debug, Clone, Copy, PartialEq, Eq, Hash, Structural)]
pub struct RedirectLeg {
    /// Fixed movement delta for each tick of this leg.
    pub delta_per_tick: FixedPoint,
    /// Whether normal ballistics should be restored after this leg.
    pub restores_ballistics: bool,
}

/// Builds the three-leg redirected motion used by a tornado-like zone.
///
/// The projectile first continues through the near side, then crosses with horizontal
/// direction reversed, then exits along its initial direction and resumes ordinary ballistics.
pub fn tornado_redirect(incoming_step: FixedPoint) -> (legs: [RedirectLeg; 3])
    ensures
        legs@[0] == (RedirectLeg { delta_per_tick: incoming_step, restores_ballistics: false }),
        legs@[1] == (RedirectLeg {
            delta_per_tick: FixedPoint { x: clamp_i32(-(incoming_step.x as int)), y: incoming_step.y },
            restores_ballistics: false,
        }),
        legs@[2] == (RedirectLeg { delta_per_tick: incoming_step, restores_ballistics: true }),
{
    [
        RedirectLeg { delta_per_tick: incoming_step, restores_ballistics: false },
        RedirectLeg {
            delta_per_tick: FixedPoint::new(saturating_neg_i32(incoming_step.x), incoming_step.y),
            restores_ballistics: false,
        },
        RedirectLeg { delta_per_tick: incoming_step, restores_ballistics: true },
    ]
}

/// A velocity with its horizontal component negated (saturating) and its vertical one kept.
pub open spec fn spec_mirror_horizontal(velocity: FixedPoint) -> FixedPoint {
    FixedPoint { x: clamp_i32(-(velocity.x as int)), y: velocity.y }
}

/// Reflects horizontal projectile velocity while preserving vertical velocity.
pub fn mirror_horizontal(velocity: FixedPoint) -> (reflected: FixedPoint)
    ensures
        reflected == spec_mirror_horizontal(velocity),
{
    FixedPoint::new(saturating_neg_i32(velocity.x), velocity.y)
}

/// Mergeable environment-zone data independent of rendering.
#[derive(Debug, Clone, Copy, PartialEq, Eq, Hash, Structural)]
pub struct EnvironmentZone {
    /// Environment behavior carried by the zone.
    pub modifier: EnvironmentModifier,
    /// Horizontal center in fixed-point units.
    pub center_x: i32,
    /// Relative zone strength in basis points.
    pub strength_basis_points: u16,
}

/// What [`merge_environment_zones`] returns.
pub open spec fn spec_merge_environment_zones(first: EnvironmentZone, second: EnvironmentZone) -> SimResult<
    EnvironmentZone,
> {
    if first.modifier != second.modifier {
        Err(SimError::OutOfRange { field: "environment modifier merge" })
    } else {
        Ok(
            EnvironmentZone {
                modifier: first.modifier,
                center_x: crate::fixed::spec_round_div(first.center_x + second.center_x, 2) as i32,
                strength_basis_points: saturating_add_u16(
                    first.strength_basis_points,
                    second.strength_basis_points,
                ),
            },
        )
    }
}

/// Merges two zones of the same type by averaging their centers and adding strength.
///
/// # Errors
///
/// Rejects zones with different modifiers.
pub fn merge_environment_zones(first: EnvironmentZone, second: EnvironmentZone) -> (result: SimResult<
    EnvironmentZone,
>)
    ensures
        result == spec_merge_environment_zones(first, second),
{
    if first.modifier != second.modifier {
        return Err(SimError::OutOfRange { field: "environment modifier merge" });
    }
    let center_sum: i64 = first.center_x as i64 + second.center_x as i64;
    let center_x = match round_divide(center_sum, 2) {
        Some(value) => {
            proof {
                let sum = center_sum as int;
                assert(-2147483648 <= crate::fixed::spec_round_div(sum, 2) <= 2147483647)
                    by (nonlinear_arith)
                    requires
                        -4294967296 <= sum <= 4294967294,
                        crate::fixed::spec_round_div(sum, 2) == if sum < 0 {
                            -((-sum + 1) / 2)
                        } else {
                            (sum + 1) / 2
                        },
                ;
            }
            if value < i32::MIN as i64 || value > i32::MAX as i64 {
                return Err(SimError::Overflow { context: "projectile_mechanics::zone_center" });
            }
            value as i32
        },
        None => {
            return Err(SimError::Overflow { context: "projectile_mechanics::zone_center" });
        },
    };
    Ok(
        EnvironmentZone {
            modifier: first.modifier,
            center_x,
            strength_basis_points: first.strength_basis_points.saturating_add(
                second.strength_basis_points,
            ),
        },
    )
}

/// Converts a whole-cell radius to fixed-point units without wrapping.
///
/// The conversion always fits: `u16::MAX * POSITION_SCALE` is far below `i32::MAX`.
pub fn radius_from_cells(radius_cells: u16) -> (result: SimResult<i32>)
    ensures
        result == Ok::<i32, SimError>((radius_cells * POSITION_SCALE) as i32),
{
    let radius: i32 = radius_cells as i32 * POSITION_SCALE;
    Ok(radius)
}

/// One target selected for a proximity beam cascade.
#[derive(Debug, Clone, Copy, PartialEq, Eq, Hash, Structural)]
pub struct BeamTarget {
    /// Stable authority-owned identifier.
    pub stable_id: u32,
    /// Target position.
    pub position: FixedPoint,
}

/// Whether `target` is inside a cascade of `radius` around `center` (boundary inclusive).
pub open spec fn spec_in_cascade_range(center: FixedPoint, radius: i32, target: BeamTarget) -> bool {
    radius >= 0 && clamp_i64(spec_distance_squared(center, target.position)) <= radius * radius
}

/// Whether `selected` holds some target with identifier `id`.
pub open spec fn spec_selects_id(selected: Seq<BeamTarget>, id: u32) -> bool {
    exists|k: int| 0 <= k < selected.len() && #[trigger] selected[k].stable_id == id
}

/// Whether `targets[index]` is the first in-range target carrying its identifier.
pub open spec fn spec_first_in_range(
    center: FixedPoint,
    radius: i32,
    targets: Seq<BeamTarget>,
    index: int,
) -> bool {
    &&& 0 <= index < targets.len()
    &&& spec_in_cascade_range(center, radius, targets[index])
    &&& forall|j: int|
        0 <= j < index ==> !(spec_in_cascade_range(center, radius, #[trigger] targets[j])
            && targets[j].stable_id == targets[index].stable_id)
}

/// The cascade result over the first `n` targets: `selected` is strictly ordered by
/// identifier, holds at most [`MAX_CHILD_PROJECTILES`] first-occurrence in-range targets, and
/// every in-range identifier is either selected or larger than every selected one in a full
/// selection.
pub open spec fn spec_cascade_selection(
    center: FixedPoint,
    radius: i32,
    targets: Seq<BeamTarget>,
    n: int,
    selected: Seq<BeamTarget>,
) -> bool {
    &&& spec_cascade_ordered(selected)
    &&& forall|k: int|
        0 <= k < selected.len() ==> spec_cascade_source(
            center,
            radius,
            targets,
            n,
            #[trigger] selected[k],
        )
    &&& spec_cascade_complete(center, radius, targets, n, selected)
}

/// Whether `target` is, among the first `n` targets, the first in-range one with its identifier.
pub open spec fn spec_cascade_source(
    center: FixedPoint,
    radius: i32,
    targets: Seq<BeamTarget>,
    n: int,
    target: BeamTarget,
) -> bool {
    exists|index: int|
        #![trigger targets[index]]
        0 <= index < n && targets[index] == target && spec_first_in_range(
            center,
            radius,
            targets,
            index,
        )
}

/// At most [`MAX_CHILD_PROJECTILES`] targets, strictly ordered by identifier.
pub open spec fn spec_cascade_ordered(selected: Seq<BeamTarget>) -> bool {
    &&& selected.len() <= MAX_CHILD_PROJECTILES
    &&& forall|a: int, b: int|
        0 <= a < b < selected.len() ==> (#[trigger] selected[a]).stable_id < (#[trigger] selected[
            b]).stable_id
}

/// Every in-range identifier among the first `n` targets is selected, or the selection is full
/// of smaller identifiers.
pub open spec fn spec_cascade_complete(
    center: FixedPoint,
    radius: i32,
    targets: Seq<BeamTarget>,
    n: int,
    selected: Seq<BeamTarget>,
) -> bool {
    forall|index: int|
        0 <= index < n && spec_in_cascade_range(center, radius, #[trigger] targets[index])
            ==> spec_selects_id(selected, targets[index].stable_id) || (selected.len()
            == MAX_CHILD_PROJECTILES && forall|k: int|
            0 <= k < selected.len() ==> (#[trigger] selected[k]).stable_id
                < targets[index].stable_id)
}

/// The loop form of [`spec_cascade_selection`], with the source index of every selected
/// target made explicit.
spec fn spec_cascade_tracked(
    center: FixedPoint,
    radius: i32,
    targets: Seq<BeamTarget>,
    n: int,
    selected: Seq<BeamTarget>,
    sources: Seq<int>,
) -> bool {
    &&& spec_cascade_ordered(selected)
    &&& sources.len() == selected.len()
    &&& forall|k: int|
        0 <= k < selected.len() ==> 0 <= #[trigger] sources[k] < n && targets[sources[k]]
            == selected[k] && spec_first_in_range(center, radius, targets, sources[k])
    &&& spec_cascade_complete(center, radius, targets, n, selected)
}

/// A selected target that is not below its counterpart: where two cascade selections over
/// the same targets agree on their first `k` identifiers, the `k`-th identifier of `a` is not
/// smaller than that of `b`.
proof fn lemma_cascade_not_below(
    center: FixedPoint,
    radius: i32,
    targets: Seq<BeamTarget>,
    n: int,
    a: Seq<BeamTarget>,
    b: Seq<BeamTarget>,
    k: int,
)
    requires
        spec_cascade_selection(center, radius, targets, n, a),
        spec_cascade_selection(center, radius, targets, n, b),
        0 <= k < a.len(),
        k < b.len(),
        forall|j: int| 0 <= j < k ==> (#[trigger] a[j]).stable_id == b[j].stable_id,
    ensures
        !(a[k].stable_id < b[k].stable_id),
{
    if a[k].stable_id < b[k].stable_id {
        assert(spec_cascade_source(center, radius, targets, n, a[k]));
        let index = choose|index: int|
            #![trigger targets[index]]
            0 <= index < n && targets[index] == a[k] && spec_first_in_range(
                center,
                radius,
                targets,
                index,
            );
        assert(spec_in_cascade_range(center, radius, targets[index]));
        if spec_selects_id(b, targets[index].stable_id) {
            let p = choose|p: int| 0 <= p < b.len() && #[trigger] b[p].stable_id == targets[index].stable_id;
            if p > k {
                assert(b[k].stable_id < b[p].stable_id);
            }
            assert(p != k);
            assert(a[p].stable_id == b[p].stable_id);
            assert(a[p].stable_id < a[k].stable_id);
        } else {
            assert(b[k].stable_id < targets[index].stable_id);
        }
    }
}

/// Two cascade selections over the same targets agree on their first `k` identifiers.
proof fn lemma_cascade_ids_agree(
    center: FixedPoint,
    radius: i32,
    targets: Seq<BeamTarget>,
    n: int,
    a: Seq<BeamTarget>,
    b: Seq<BeamTarget>,
    k: int,
)
    requires
        spec_cascade_selection(center, radius, targets, n, a),
        spec_cascade_selection(center, radius, targets, n, b),
        0 <= k <= a.len(),
        k <= b.len(),
    ensures
        forall|j: int| 0 <= j < k ==> (#[trigger] a[j]).stable_id == b[j].stable_id,
    decreases k,
{
    if k > 0 {
        lemma_cascade_ids_agree(center, radius, targets, n, a, b, k - 1);
        lemma_cascade_not_below(center, radius, targets, n, a, b, k - 1);
        assert forall|j: int| 0 <= j < k - 1 implies (#[trigger] b[j]).stable_id == a[j].stable_id by {
            assert(a[j].stable_id == b[j].stable_id);
        }
        lemma_cascade_not_below(center, radius, targets, n, b, a, k - 1);
    }
}

/// A selection agreeing with another on all its identifiers is no shorter than it.
proof fn lemma_cascade_not_shorter(
    center: FixedPoint,
    radius: i32,
    targets: Seq<BeamTarget>,
    n: int,
    a: Seq<BeamTarget>,
    b: Seq<BeamTarget>,
)
    requires
        spec_cascade_selection(center, radius, targets, n, a),
        spec_cascade_selection(center, radius, targets, n, b),
        a.len() <= b.len(),
        forall|j: int| 0 <= j < a.len() ==> (#[trigger] a[j]).stable_id == b[j].stable_id,
    ensures
        a.len() == b.len(),
{
    if a.len() < b.len() {
        let m = a.len() as int;
        assert(spec_cascade_source(center, radius, targets, n, b[m]));
        let index = choose|index: int|
            #![trigger targets[index]]
            0 <= index < n && targets[index] == b[m] && spec_first_in_range(
                center,
                radius,
                targets,
                index,
            );
        assert(spec_in_cascade_range(center, radius, targets[index]));
        if spec_selects_id(a, targets[index].stable_id) {
            let p = choose|p: int| 0 <= p < a.len() && #[trigger] a[p].stable_id == targets[index].stable_id;
            assert(a[p].stable_id == b[p].stable_id);
            assert(b[p].stable_id < b[m].stable_id);
        }
    }
}

/// The cascade selection is unique: any two results meeting [`spec_cascade_selection`] over
/// the same targets are equal. So [`targets_for_beam_cascade`] returns exactly the first
/// in-range occurrences of the smallest in-range identifiers, in identifier order, as many as
/// there are up to [`MAX_CHILD_PROJECTILES`].
pub proof fn lemma_cascade_selection_unique(
    center: FixedPoint,
    radius: i32,
    targets: Seq<BeamTarget>,
    n: int,
    a: Seq<BeamTarget>,
    b: Seq<BeamTarget>,
)
    requires
        spec_cascade_selection(center, radius, targets, n, a),
        spec_cascade_selection(center, radius, targets, n, b),
    ensures
        a == b,
{
    let m = if a.len() <= b.len() {
        a.len() as int
    } else {
        b.len() as int
    };
    lemma_cascade_ids_agree(center, radius, targets, n, a, b, m);
    if a.len() <= b.len() {
        lemma_cascade_not_shorter(center, radius, targets, n, a, b);
    } else {
        assert forall|j: int| 0 <= j < b.len() implies (#[trigger] b[j]).stable_id == a[j].stable_id by {
            assert(a[j].stable_id == b[j].stable_id);
        }
        lemma_cascade_not_shorter(center, radius, targets, n, b, a);
    }
    assert forall|k: int| 0 <= k < a.len() implies a[k] == b[k] by {
        assert(a[k].stable_id == b[k].stable_id);
        assert(spec_cascade_source(center, radius, targets, n, a[k]));
        assert(spec_cascade_source(center, radius, targets, n, b[k]));
        let i = choose|index: int|
            #![trigger targets[index]]
            0 <= index < n && targets[index] == a[k] && spec_first_in_range(
                center,
                radius,
                targets,
                index,
            );
        let j = choose|index: int|
            #![trigger targets[index]]
            0 <= index < n && targets[index] == b[k] && spec_first_in_range(
                center,
                radius,
                targets,
                index,
            );
        assert(spec_in_cascade_range(center, radius, targets[i]));
        assert(spec_in_cascade_range(center, radius, targets[j]));
        if i < j {
            assert(!(spec_in_cascade_range(center, radius, targets[i]) && targets[i].stable_id
                == targets[j].stable_id));
        } else if j < i {
            assert(!(spec_in_cascade_range(center, radius, targets[j]) && targets[j].stable_id
                == targets[i].stable_id));
        }
    }
    assert(a =~= b);
}

proof fn lemma_cascade_tracked_selection(
    center: FixedPoint,
    radius: i32,
    targets: Seq<BeamTarget>,
    n: int,
    selected: Seq<BeamTarget>,
    sources: Seq<int>,
)
    requires
        spec_cascade_tracked(center, radius, targets, n, selected, sources),
    ensures
        spec_cascade_selection(center, radius, targets, n, selected),
{
    assert forall|k: int| 0 <= k < selected.len() implies spec_cascade_source(
        center,
        radius,
        targets,
        n,
        #[trigger] selected[k],
    ) by {
        let index = sources[k];
        assert(targets[index] == selected[k]);
    }
}

/// Returns in-range beam targets in stable identifier order.
///
/// At most [`MAX_CHILD_PROJECTILES`] targets are kept: the lowest identifiers win, each
/// identifier appears once, and it carries the first in-range target that had it.
pub fn targets_for_beam_cascade(center: FixedPoint, radius: i32, targets: &[BeamTarget]) -> (selected:
    Vec<BeamTarget>)
    ensures
        radius < 0 ==> selected@.len() == 0,
        spec_cascade_selection(center, radius, targets@, targets@.len() as int, selected@),
{
    let mut selected: Vec<BeamTarget> = Vec::new();
    if radius < 0 {
        proof {
            lemma_cascade_tracked_selection(
                center,
                radius,
                targets@,
                targets@.len() as int,
                selected@,
                Seq::empty(),
            );
        }
        return selected;
    }
    let radius_wide: i64 = radius as i64;
    proof {
        assert(0 <= radius_wide * radius_wide <= 2147483647 * 2147483647) by (nonlinear_arith)
            requires
                0 <= radius_wide <= 2147483647,
        ;
    }
    let radius_squared: i64 = radius_wide * radius_wide;
    let maximum: usize = MAX_CHILD_PROJECTILES as usize;
    let ghost mut sources: Seq<int> = Seq::empty();
    let mut i: usize = 0;
    while i < targets.len()
        invariant
            i <= targets.len(),
            radius >= 0,
            radius_squared == radius * radius,
            maximum == MAX_CHILD_PROJECTILES,
            spec_cascade_tracked(center, radius, targets@, i as int, selected@, sources),
        decreases targets.len() - i,
    {
        let target = targets[i];
        let ghost before = selected@;
        let ghost before_sources = sources;
        if distance_squared(center, target.position) <= radius_squared {
            let mut insertion: usize = 0;
            while insertion < selected.len() && selected[insertion].stable_id < target.stable_id
                invariant
                    insertion <= selected.len(),
                    selected@ == before,
                    forall|k: int| 0 <= k < insertion ==> selected@[k].stable_id < target.stable_id,
                decreases selected.len() - insertion,
            {
                insertion = insertion + 1;
            }
            proof {
                lemma_cascade_insertion_point(before, target.stable_id, insertion as int);
            }
            if insertion < selected.len() && selected[insertion].stable_id == target.stable_id {
                proof {
                    lemma_cascade_skip(center, radius, targets@, i as int, before, before_sources);
                }
            } else if selected.len() < maximum {
                selected.insert(insertion, target);
                proof {
                    lemma_cascade_insert(
                        center,
                        radius,
                        targets@,
                        i as int,
                        before,
                        before_sources,
                        insertion as int,
                    );
                    sources = before_sources.insert(insertion as int, i as int);
                }
            } else if insertion < maximum {
                selected.insert(insertion, target);
                let _ = selected.pop();
                proof {
                    lemma_cascade_insert_evict(
                        center,
                        radius,
                        targets@,
                        i as int,
                        before,
                        before_sources,
                        insertion as int,
                    );
                    sources = before_sources.insert(insertion as int, i as int).drop_last();
                }
            } else {
                proof {
                    lemma_cascade_skip(center, radius, targets@, i as int, before, before_sources);
                }
            }
        } else {
            proof {
                lemma_cascade_skip(center, radius, targets@, i as int, before, before_sources);
            }
        }
        i = i + 1;
    }
    proof {
        lemma_cascade_tracked_selection(
            center,
            radius,
            targets@,
            targets@.len() as int,
            selected@,
            sources,
        );
    }
    selected
}

/// Facts about the linear insertion point of `id` in a strictly ordered selection.
proof fn lemma_cascade_insertion_point(selected: Seq<BeamTarget>, id: u32, p: int)
    requires
        0 <= p <= selected.len(),
        spec_cascade_ordered(selected),
        forall|k: int| 0 <= k < p ==> selected[k].stable_id < id,
        p < selected.len() ==> selected[p].stable_id >= id,
    ensures
        forall|k: int| p < k < selected.len() ==> selected[k].stable_id > selected[p].stable_id,
        (p == selected.len() || selected[p].stable_id != id) ==> !spec_selects_id(selected, id),
        p == selected.len() ==> forall|k: int| 0 <= k < selected.len() ==> selected[k].stable_id < id,
{
    if p == selected.len() || selected[p].stable_id != id {
        if spec_selects_id(selected, id) {
            let k = choose|k: int| 0 <= k < selected.len() && #[trigger] selected[k].stable_id == id;
            if k < p {
            } else if k > p {
                assert(selected[p].stable_id < selected[k].stable_id);
            }
        }
    }
}

/// Considering one more target without changing the selection keeps the invariant, provided
/// that target is out of range, already selected, or larger than a full selection.
proof fn lemma_cascade_skip(
    center: FixedPoint,
    radius: i32,
    targets: Seq<BeamTarget>,
    i: int,
    selected: Seq<BeamTarget>,
    sources: Seq<int>,
)
    requires
        0 <= i < targets.len(),
        spec_cascade_tracked(center, radius, targets, i, selected, sources),
        spec_in_cascade_range(center, radius, targets[i]) ==> (spec_selects_id(
            selected,
            targets[i].stable_id,
        ) || (selected.len() == MAX_CHILD_PROJECTILES && forall|k: int|
            0 <= k < selected.len() ==> selected[k].stable_id < targets[i].stable_id)),
    ensures
        spec_cascade_tracked(center, radius, targets, i + 1, selected, sources),
{
    assert forall|index: int|
        0 <= index < i + 1 && spec_in_cascade_range(center, radius, #[trigger] targets[index])
            implies spec_selects_id(selected, targets[index].stable_id) || (selected.len()
        == MAX_CHILD_PROJECTILES && forall|k: int|
        0 <= k < selected.len() ==> (#[trigger] selected[k]).stable_id < targets[index].stable_id) by {
        if index < i {
        }
    }
}

/// A new in-range identifier absent from the selection has no earlier in-range occurrence.
proof fn lemma_cascade_new_is_first(
    center: FixedPoint,
    radius: i32,
    targets: Seq<BeamTarget>,
    i: int,
    selected: Seq<BeamTarget>,
    sources: Seq<int>,
    p: int,
)
    requires
        0 <= i < targets.len(),
        0 <= p <= selected.len(),
        spec_in_cascade_range(center, radius, targets[i]),
        !spec_selects_id(selected, targets[i].stable_id),
        p < selected.len() ==> selected[p].stable_id > targets[i].stable_id,
        selected.len() < MAX_CHILD_PROJECTILES || p < selected.len(),
        spec_cascade_tracked(center, radius, targets, i, selected, sources),
    ensures
        spec_first_in_range(center, radius, targets, i),
{
    assert forall|j: int| 0 <= j < i implies !(spec_in_cascade_range(
        center,
        radius,
        #[trigger] targets[j],
    ) && targets[j].stable_id == targets[i].stable_id) by {
        if spec_in_cascade_range(center, radius, targets[j]) && targets[j].stable_id
            == targets[i].stable_id {
            if selected.len() == MAX_CHILD_PROJECTILES && p < selected.len() {
                assert(selected[p].stable_id < targets[j].stable_id);
            }
        }
    }
}

proof fn lemma_cascade_insert(
    center: FixedPoint,
    radius: i32,
    targets: Seq<BeamTarget>,
    i: int,
    selected: Seq<BeamTarget>,
    sources: Seq<int>,
    p: int,
)
    requires
        0 <= i < targets.len(),
        0 <= p <= selected.len(),
        selected.len() < MAX_CHILD_PROJECTILES,
        spec_in_cascade_range(center, radius, targets[i]),
        forall|k: int| 0 <= k < p ==> selected[k].stable_id < targets[i].stable_id,
        p < selected.len() ==> selected[p].stable_id > targets[i].stable_id,
        forall|k: int| p < k < selected.len() ==> selected[k].stable_id > selected[p].stable_id,
        !spec_selects_id(selected, targets[i].stable_id),
        spec_cascade_tracked(center, radius, targets, i, selected, sources),
    ensures
        spec_cascade_tracked(
            center,
            radius,
            targets,
            i + 1,
            selected.insert(p, targets[i]),
            sources.insert(p, i),
        ),
{
    let t = targets[i];
    let next = selected.insert(p, t);
    let next_sources = sources.insert(p, i);
    lemma_cascade_new_is_first(center, radius, targets, i, selected, sources, p);
    assert forall|k: int| 0 <= k < next.len() implies (k < p ==> next[k] == selected[k]
        && next_sources[k] == sources[k]) && (k == p ==> next[k] == t && next_sources[k] == i) && (k
        > p ==> next[k] == selected[k - 1] && next_sources[k] == sources[k - 1]) by {}
    assert forall|a: int, b: int| 0 <= a < b < next.len() implies (#[trigger] next[a]).stable_id
        < (#[trigger] next[b]).stable_id by {
        if b > p && b - 1 > p {
            assert(selected[p].stable_id < selected[b - 1].stable_id);
        }
        if a > p {
            assert(selected[a - 1].stable_id < selected[b - 1].stable_id);
        }
    }
    assert forall|k: int| 0 <= k < next.len() implies 0 <= #[trigger] next_sources[k] < i + 1
        && targets[next_sources[k]] == next[k] && spec_first_in_range(
        center,
        radius,
        targets,
        next_sources[k],
    ) by {
        if k < p {
            assert(sources[k] == next_sources[k]);
        } else if k > p {
            assert(sources[k - 1] == next_sources[k]);
        }
    }
    assert forall|index: int|
        0 <= index < i + 1 && spec_in_cascade_range(center, radius, #[trigger] targets[index])
            implies spec_selects_id(next, targets[index].stable_id) || (next.len()
        == MAX_CHILD_PROJECTILES && forall|k: int|
        0 <= k < next.len() ==> (#[trigger] next[k]).stable_id < targets[index].stable_id) by {
        if index == i {
            assert(next[p].stable_id == targets[index].stable_id);
        } else {
            assert(spec_selects_id(selected, targets[index].stable_id));
            let k = choose|k: int|
                0 <= k < selected.len() && #[trigger] selected[k].stable_id == targets[index].stable_id;
            if k < p {
                assert(next[k] == selected[k]);
            } else {
                assert(next[k + 1] == selected[k]);
            }
        }
    }
}

proof fn lemma_cascade_insert_evict(
    center: FixedPoint,
    radius: i32,
    targets: Seq<BeamTarget>,
    i: int,
    selected: Seq<BeamTarget>,
    sources: Seq<int>,
    p: int,
)
    requires
        0 <= i < targets.len(),
        0 <= p < selected.len(),
        selected.len() == MAX_CHILD_PROJECTILES,
        spec_in_cascade_range(center, radius, targets[i]),
        forall|k: int| 0 <= k < p ==> selected[k].stable_id < targets[i].stable_id,
        selected[p].stable_id > targets[i].stable_id,
        forall|k: int| p < k < selected.len() ==> selected[k].stable_id > selected[p].stable_id,
        !spec_selects_id(selected, targets[i].stable_id),
        spec_cascade_tracked(center, radius, targets, i, selected, sources),
    ensures
        spec_cascade_tracked(
            center,
            radius,
            targets,
            i + 1,
            selected.insert(p, targets[i]).drop_last(),
            sources.insert(p, i).drop_last(),
        ),
{
    let t = targets[i];
    let next = selected.insert(p, t).drop_last();
    let next_sources = sources.insert(p, i).drop_last();
    let evicted = selected.last();
    lemma_cascade_new_is_first(center, radius, targets, i, selected, sources, p);
    assert(next.len() == MAX_CHILD_PROJECTILES);
    assert forall|k: int| 0 <= k < next.len() implies (k < p ==> next[k] == selected[k]
        && next_sources[k] == sources[k]) && (k == p ==> next[k] == t && next_sources[k] == i) && (k
        > p ==> next[k] == selected[k - 1] && next_sources[k] == sources[k - 1]) by {}
    assert forall|a: int, b: int| 0 <= a < b < next.len() implies (#[trigger] next[a]).stable_id
        < (#[trigger] next[b]).stable_id by {
        if b > p && b - 1 > p {
            assert(selected[p].stable_id < selected[b - 1].stable_id);
        }
        if a > p {
            assert(selected[a - 1].stable_id < selected[b - 1].stable_id);
        }
    }
    assert forall|k: int| 0 <= k < next.len() implies next[k].stable_id < evicted.stable_id by {
        if k < p {
            assert(selected[k].stable_id < selected[selected.len() - 1].stable_id);
        } else if k == p {
            if p < selected.len() - 1 {
                assert(selected[p].stable_id < selected[selected.len() - 1].stable_id);
            }
        } else {
            assert(selected[k - 1].stable_id < selected[selected.len() - 1].stable_id);
        }
    }
    assert forall|k: int| 0 <= k < next.len() implies 0 <= #[trigger] next_sources[k] < i + 1
        && targets[next_sources[k]] == next[k] && spec_first_in_range(
        center,
        radius,
        targets,
        next_sources[k],
    ) by {
        if k < p {
            assert(sources[k] == next_sources[k]);
        } else if k > p {
            assert(sources[k - 1] == next_sources[k]);
        }
    }
    assert forall|index: int|
        0 <= index < i + 1 && spec_in_cascade_range(center, radius, #[trigger] targets[index])
            implies spec_selects_id(next, targets[index].stable_id) || (next.len()
        == MAX_CHILD_PROJECTILES && forall|k: int|
        0 <= k < next.len() ==> (#[trigger] next[k]).stable_id < targets[index].stable_id) by {
        let id = targets[index].stable_id;
        if index == i {
            assert(next[p].stable_id == id);
        } else if spec_selects_id(selected, id) {
            let k = choose|k: int| 0 <= k < selected.len() && #[trigger] selected[k].stable_id == id;
            if k == selected.len() - 1 {
                assert forall|m: int| 0 <= m < next.len() implies (#[trigger] next[m]).stable_id
                    < id by {
                    assert(next[m].stable_id < evicted.stable_id);
                }
            } else if k < p {
                assert(next[k] == selected[k]);
            } else {
                assert(next[k + 1] == selected[k]);
            }
        } else {
            assert forall|m: int| 0 <= m < next.len() implies (#[trigger] next[m]).stable_id < id by {
                if m < p {
                    assert(selected[m].stable_id < id);
                } else if m == p {
                    assert(selected[p].stable_id < id);
                } else {
                    assert(selected[m - 1].stable_id < id);
                }
            }
        }
    }
}

// ---------------------------------------------------------------------------------------
// Laws
// ---------------------------------------------------------------------------------------

/// A dependency group completes exactly once: of any run of resolutions at least as long as
/// the group, starting from a fresh group, exactly one reports completion; every other
/// resolution reports "not yet" or is refused.
pub proof fn lemma_dependency_group_completes_once(expected: u8, calls: nat)
    requires
        1 <= expected <= MAX_CHILD_PROJECTILES,
        calls >= expected,
    ensures
        spec_completions(expected, 0, calls) == 1,
{
    lemma_completions_from(expected, 0, calls);
}

proof fn lemma_completions_from(expected: u8, resolved: u8, calls: nat)
    requires
        resolved <= expected,
        calls >= expected - resolved,
    ensures
        spec_completions(expected, resolved, calls) == (if resolved < expected {
            1nat
        } else {
            0nat
        }),
    decreases calls,
{
    if calls > 0 {
        let (result, next) = spec_resolve_step(expected, resolved);
        lemma_completions_from(expected, next, (calls - 1) as nat);
    }
}

/// Recording an environment modifier is idempotent: recording it again changes nothing, so a
/// second application reports that it was already applied.
pub proof fn lemma_apply_once_idempotent(set: EnvironmentModifierSet, modifier: EnvironmentModifier)
    ensures
        set.spec_with(modifier).spec_contains(modifier),
        set.spec_with(modifier).spec_with(modifier) == set.spec_with(modifier),
{
    let value = set.0;
    let i = spec_modifier_index(modifier);
    assert(((value | (1u16 << i)) & (1u16 << i)) != 0 && ((value | (1u16 << i)) | (1u16 << i))
        == (value | (1u16 << i))) by (bit_vector)
        requires
            i < 7,
    ;
}

/// The order in which two environment modifiers are recorded does not matter.
pub proof fn lemma_apply_once_commutes(
    set: EnvironmentModifierSet,
    first: EnvironmentModifier,
    second: EnvironmentModifier,
)
    ensures
        set.spec_with(first).spec_with(second) == set.spec_with(second).spec_with(first),
{
    let value = set.0;
    let i = spec_modifier_index(first);
    let j = spec_modifier_index(second);
    assert(((value | (1u16 << i)) | (1u16 << j)) == ((value | (1u16 << j)) | (1u16 << i)))
        by (bit_vector);
}

/// Mirroring twice restores the velocity, for every horizontal speed whose negation is
/// representable.
pub proof fn lemma_mirror_twice(velocity: FixedPoint)
    requires
        velocity.x != i32::MIN,
    ensures
        spec_mirror_horizontal(spec_mirror_horizontal(velocity)) == velocity,
{
}

/// Merging two same-type zones does not depend on their order.
pub proof fn lemma_merge_zones_commutes(first: EnvironmentZone, second: EnvironmentZone)
    ensures
        spec_merge_environment_zones(first, second) == spec_merge_environment_zones(second, first),
{
}

/// Armor shred never heals an existing debuff and, from at or above the floor, never goes
/// below the floor.
pub proof fn lemma_armor_shred_bounded(current_modifier: i16, reduction_per_hit: u16, floor: i16)
    ensures
        spec_apply_armor_shred(current_modifier, reduction_per_hit, floor) <= current_modifier,
        current_modifier >= floor ==> spec_apply_armor_shred(current_modifier, reduction_per_hit, floor)
            >= floor,
{
}

proof fn lemma_distance_squared_nonnegative(a: FixedPoint, b: FixedPoint)
    ensures
        spec_distance_squared(a, b) >= 0,
{
    let dx = a.x - b.x;
    let dy = a.y - b.y;
    assert(dx * dx >= 0 && dy * dy >= 0) by (nonlinear_arith);
}

/// Inside a positive radius, the falloff quotient is the rounded share of `base_damage`, at
/// most `base_damage`, and falls as the (clamped) distance grows.
proof fn lemma_falloff_quotient(base_damage: u16, radius_squared: int, near: int, far: int)
    requires
        radius_squared > 0,
        0 <= near <= far <= radius_squared,
    ensures
        ({
            let near_numerator = clamp_i64(base_damage * (radius_squared - near));
            let far_numerator = clamp_i64(base_damage * (radius_squared - far));
            &&& 0 <= far_numerator <= near_numerator <= base_damage * (radius_squared - near)
            &&& crate::fixed::spec_round_div(near_numerator as int, radius_squared) == (near_numerator + radius_squared / 2)
                / radius_squared
            &&& crate::fixed::spec_round_div(far_numerator as int, radius_squared) == (far_numerator + radius_squared / 2)
                / radius_squared
            &&& 0 <= (far_numerator + radius_squared / 2) / radius_squared <= (near_numerator
                + radius_squared / 2) / radius_squared <= base_damage
        }),
{
    let b = base_damage as int;
    assert(0 <= b * (radius_squared - far) <= b * (radius_squared - near) <= b * radius_squared)
        by (nonlinear_arith)
        requires
            0 <= b,
            0 <= near <= far <= radius_squared,
    ;
    let near_numerator = clamp_i64(b * (radius_squared - near)) as int;
    let far_numerator = clamp_i64(b * (radius_squared - far)) as int;
    vstd::arithmetic::div_mod::lemma_div_is_ordered(
        far_numerator + radius_squared / 2,
        near_numerator + radius_squared / 2,
        radius_squared,
    );
    vstd::arithmetic::div_mod::lemma_div_is_ordered(
        near_numerator + radius_squared / 2,
        b * radius_squared + radius_squared / 2,
        radius_squared,
    );
    assert((b * radius_squared + radius_squared / 2) / radius_squared == b) by (nonlinear_arith)
        requires
            radius_squared > 0,
            b >= 0,
    ;
    assert(0 <= (far_numerator + radius_squared / 2) / radius_squared) by (nonlinear_arith)
        requires
            radius_squared > 0,
            far_numerator >= 0,
    ;
}

/// Radial falloff never grows with distance: a target at least as far from the impact never
/// takes more damage than a nearer one.
pub proof fn lemma_radial_damage_falls_off(
    base_damage: u16,
    impact: FixedPoint,
    near: FixedPoint,
    far: FixedPoint,
    radius: i32,
)
    requires
        spec_distance_squared(impact, near) <= spec_distance_squared(impact, far),
    ensures
        spec_radial_damage(base_damage, impact, far, radius) <= spec_radial_damage(
            base_damage,
            impact,
            near,
            radius,
        ),
{
    lemma_distance_squared_nonnegative(impact, near);
    lemma_distance_squared_nonnegative(impact, far);
    if radius >= 0 {
        let near_distance = clamp_i64(spec_distance_squared(impact, near)) as int;
        let far_distance = clamp_i64(spec_distance_squared(impact, far)) as int;
        let radius_squared = radius * radius;
        if far_distance <= radius_squared && radius_squared > 0 {
            lemma_falloff_quotient(base_damage, radius_squared, near_distance, far_distance);
        }
    }
}

/// Radial damage is never more than the base damage, and nothing at all beyond a positive
/// radius or at its edge.
pub proof fn lemma_radial_damage_bounded(
    base_damage: u16,
    impact: FixedPoint,
    target: FixedPoint,
    radius: i32,
)
    ensures
        spec_radial_damage(base_damage, impact, target, radius) <= base_damage,
        radius > 0 && spec_distance_squared(impact, target) >= radius * radius ==> spec_radial_damage(
            base_damage,
            impact,
            target,
            radius,
        ) == 0,
{
    lemma_distance_squared_nonnegative(impact, target);
    if radius > 0 {
        let distance = clamp_i64(spec_distance_squared(impact, target)) as int;
        let radius_squared = radius * radius;
        assert(0 < radius_squared <= 2147483647 * 2147483647) by (nonlinear_arith)
            requires
                0 < radius <= 2147483647,
                radius_squared == radius * radius,
        ;
        if spec_distance_squared(impact, target) >= radius_squared {
            assert(distance >= radius_squared);
        }
        if distance <= radius_squared {
            lemma_falloff_quotient(base_damage, radius_squared, distance, distance);
            let numerator = clamp_i64(base_damage * (radius_squared - distance));
            assert(spec_round_divide(numerator as int, radius_squared) == Some(
                ((numerator + radius_squared / 2) / radius_squared) as i64,
            ));
            if distance == radius_squared {
                assert(base_damage * (radius_squared - distance) == 0) by (nonlinear_arith)
                    requires
                        distance == radius_squared,
                ;
                assert((radius_squared / 2) / radius_squared == 0) by (nonlinear_arith)
                    requires
                        radius_squared > 0,
                ;
            }
        }
    } else if radius == 0 {
        assert(radius * radius == 0);
    }
}

/// Radial damage is full at the impact center whenever the falloff arithmetic is exact
/// (`base_damage * radius^2` fits in `i64`).
pub proof fn lemma_radial_damage_full_at_center(base_damage: u16, impact: FixedPoint, radius: i32)
    requires
        radius >= 0,
        base_damage * (radius * radius) <= i64::MAX,
    ensures
        spec_radial_damage(base_damage, impact, impact, radius) == base_damage,
{
    let radius_squared = radius * radius;
    assert(spec_distance_squared(impact, impact) == 0);
    if radius_squared > 0 {
        let b = base_damage as int;
        assert(0 <= b * radius_squared) by (nonlinear_arith)
            requires
                b >= 0,
                radius_squared > 0,
        ;
        assert((b * radius_squared + radius_squared / 2) / radius_squared == b) by (nonlinear_arith)
            requires
                radius_squared > 0,
                b >= 0,
        ;
    }
}

/// A volley's spread is centered on its base angle: children `k` and `count - 1 - k`, when
/// both are scheduled, deviate from the base angle by opposite amounts.
pub proof fn lemma_volley_centered(spec: VolleySpec, base_angle_millidegrees: i32, base_power: i32, k: int)
    requires
        0 <= k < spec.count,
        spec_volley_child(spec, base_angle_millidegrees, base_power, k) is Ok,
        spec_volley_child(spec, base_angle_millidegrees, base_power, spec.count - 1 - k) is Ok,
    ensures
        spec_volley_child(spec, base_angle_millidegrees, base_power, k)->Ok_0.angle_millidegrees
            + spec_volley_child(
            spec,
            base_angle_millidegrees,
            base_power,
            spec.count - 1 - k,
        )->Ok_0.angle_millidegrees == 2 * base_angle_millidegrees,
{
    let a = 2 * k - (spec.count - 1);
    let j = spec.count - 1 - k;
    let step = spec.angle_step_millidegrees as int;
    assert(2 * j - (spec.count - 1) == -a);
    assert((-a) * step == -(a * step)) by (nonlinear_arith);
    let n = a * step;
    assert(crate::fixed::spec_round_div(-n, 2) == -crate::fixed::spec_round_div(n, 2));
}

/// A fingerprint of a design name: its length, first character and eleventh character.
pub open spec fn spec_name_fingerprint(name: Seq<char>) -> (int, char, char) {
    (name.len() as int, name[0], name[10])
}

/// The fingerprint of each mechanic's design name.
pub open spec fn spec_mechanic_fingerprint(mechanic: ProjectileMechanic) -> (int, char, char) {
    match mechanic {
        ProjectileMechanic::BallisticArc => (13, 'b', 'a'),
        ProjectileMechanic::SubstepCollision => (17, 's', 'l'),
        ProjectileMechanic::BoundsExpiry => (13, 'b', 'i'),
        ProjectileMechanic::RadialDamage => (13, 'r', 'a'),
        ProjectileMechanic::CircularTerrainBlast => (22, 'c', 'e'),
        ProjectileMechanic::SpawnDelay => (11, 's', 'y'),
        ProjectileMechanic::FreezeDelay => (12, 'f', 'a'),
        ProjectileMechanic::DependencyCompletion => (21, 'd', '-'),
        ProjectileMechanic::DoubleBlast => (12, 'd', 's'),
        ProjectileMechanic::TimedArming => (12, 't', 'n'),
        ProjectileMechanic::AngleSpreadVolley => (19, 'a', 'a'),
        ProjectileMechanic::PowerSpreadVolley => (19, 'p', 'a'),
        ProjectileMechanic::StaggeredVolley => (16, 's', 'v'),
        ProjectileMechanic::ImpactConvergenceFan => (22, 'i', 'v'),
        ProjectileMechanic::SatelliteConvergence => (21, 's', 'c'),
        ProjectileMechanic::OrbitingPayloadCarrier => (24, 'o', 'a'),
        ProjectileMechanic::ConvergingHelix => (16, 'c', '-'),
        ProjectileMechanic::TimedSplit => (11, 't', 't'),
        ProjectileMechanic::SequencedImpactRing => (21, 's', 'i'),
        ProjectileMechanic::LastSurfaceBeam => (17, 'l', 'c'),
        ProjectileMechanic::RadialBeamCascade => (19, 'r', 'm'),
        ProjectileMechanic::TargetBeamCascade => (19, 't', 'm'),
        ProjectileMechanic::GlobalImpactFollowup => (22, 'g', 'a'),
        ProjectileMechanic::TerrainOnlyContact => (20, 't', 'l'),
        ProjectileMechanic::DeployProximityMine => (21, 'd', 'x'),
        ProjectileMechanic::TargetSeekingMine => (19, 't', 'k'),
        ProjectileMechanic::DeployRoamingMine => (19, 'd', 'm'),
        ProjectileMechanic::ObstacleReflectingMine => (24, 'o', 'e'),
        ProjectileMechanic::TeleportLanding => (16, 't', 'a'),
        ProjectileMechanic::ArmorShred => (11, 'a', 'd'),
        ProjectileMechanic::ShieldPurge => (12, 's', 'g'),
        ProjectileMechanic::DamageAmplifier => (16, 'd', 'l'),
        ProjectileMechanic::DamageDampener => (15, 'd', 'p'),
        ProjectileMechanic::HorizontalMirror => (17, 'h', '-'),
        ProjectileMechanic::TornadoRedirect => (16, 't', 'd'),
        ProjectileMechanic::ElectricImpactFollowup => (24, 'e', 'm'),
        ProjectileMechanic::RandomEnvironmentTrigger => (26, 'r', 'i'),
        ProjectileMechanic::MergeableEnvironmentZone => (26, 'm', 'e'),
        ProjectileMechanic::TerrainCollapse => (16, 't', 'l'),
    }
}

proof fn lemma_design_name_fingerprint(mechanic: ProjectileMechanic)
    ensures
        spec_name_fingerprint(spec_design_name(mechanic)) == spec_mechanic_fingerprint(mechanic),
{
    match mechanic {
        ProjectileMechanic::BallisticArc => reveal_strlit("ballistic-arc"),
        ProjectileMechanic::SubstepCollision => reveal_strlit("substep-collision"),
        ProjectileMechanic::BoundsExpiry => reveal_strlit("bounds-expiry"),
        ProjectileMechanic::RadialDamage => reveal_strlit("radial-damage"),
        ProjectileMechanic::CircularTerrainBlast => reveal_strlit("circular-terrain-blast"),
        ProjectileMechanic::SpawnDelay => reveal_strlit("spawn-delay"),
        ProjectileMechanic::FreezeDelay => reveal_strlit("freeze-delay"),
        ProjectileMechanic::DependencyCompletion => reveal_strlit("dependency-completion"),
        ProjectileMechanic::DoubleBlast => reveal_strlit("double-blast"),
        ProjectileMechanic::TimedArming => reveal_strlit("timed-arming"),
        ProjectileMechanic::AngleSpreadVolley => reveal_strlit("angle-spread-volley"),
        ProjectileMechanic::PowerSpreadVolley => reveal_strlit("power-spread-volley"),
        ProjectileMechanic::StaggeredVolley => reveal_strlit("staggered-volley"),
        ProjectileMechanic::ImpactConvergenceFan => reveal_strlit("impact-convergence-fan"),
        ProjectileMechanic::SatelliteConvergence => reveal_strlit("satellite-convergence"),
        ProjectileMechanic::OrbitingPayloadCarrier => reveal_strlit("orbiting-payload-carrier"),
        ProjectileMechanic::ConvergingHelix => reveal_strlit("converging-helix"),
        ProjectileMechanic::TimedSplit => reveal_strlit("timed-split"),
        ProjectileMechanic::SequencedImpactRing => reveal_strlit("sequenced-impact-ring"),
        ProjectileMechanic::LastSurfaceBeam => reveal_strlit("last-surface-beam"),
        ProjectileMechanic::RadialBeamCascade => reveal_strlit("radial-beam-cascade"),
        ProjectileMechanic::TargetBeamCascade => reveal_strlit("target-beam-cascade"),
        ProjectileMechanic::GlobalImpactFollowup => reveal_strlit("global-impact-followup"),
        ProjectileMechanic::TerrainOnlyContact => reveal_strlit("terrain-only-contact"),
        ProjectileMechanic::DeployProximityMine => reveal_strlit("deploy-proximity-mine"),
        ProjectileMechanic::TargetSeekingMine => reveal_strlit("target-seeking-mine"),
        ProjectileMechanic::DeployRoamingMine => reveal_strlit("deploy-roaming-mine"),
        ProjectileMechanic::ObstacleReflectingMine => reveal_strlit("obstacle-reflecting-mine"),
        ProjectileMechanic::TeleportLanding => reveal_strlit("teleport-landing"),
        ProjectileMechanic::ArmorShred => reveal_strlit("armor-shred"),
        ProjectileMechanic::ShieldPurge => reveal_strlit("shield-purge"),
        ProjectileMechanic::DamageAmplifier => reveal_strlit("damage-amplifier"),
        ProjectileMechanic::DamageDampener => reveal_strlit("damage-dampener"),
        ProjectileMechanic::HorizontalMirror => reveal_strlit("horizontal-mirror"),
        ProjectileMechanic::TornadoRedirect => reveal_strlit("tornado-redirect"),
        ProjectileMechanic::ElectricImpactFollowup => reveal_strlit("electric-impact-followup"),
        ProjectileMechanic::RandomEnvironmentTrigger => reveal_strlit("random-environment-trigger"),
        ProjectileMechanic::MergeableEnvironmentZone => reveal_strlit("mergeable-environment-zone"),
        ProjectileMechanic::TerrainCollapse => reveal_strlit("terrain-collapse"),
    }
}

/// Design names are distinct: two different mechanics never share a name.
pub proof fn lemma_design_name_injective(a: ProjectileMechanic, b: ProjectileMechanic)
    ensures
        a != b ==> spec_design_name(a) != spec_design_name(b),
{
    lemma_design_name_fingerprint(a);
    lemma_design_name_fingerprint(b);
}

} // verus!

//! Relocation-family resolvers: Teleport, Relocate and Obscure, with the seeded point draw
//! and the deterministic legal-position search they share.

use crate::error::{SimError, SimResult};
use crate::fixed::{
    clamp_i64, scale, spec_cell_of, spec_scale, spec_within_radius, within_radius, FixedPoint, BODY_WIDTH,
    POSITION_SCALE,
};
use crate::movement::{is_locked_down, spec_player_locked};
use crate::rng::{spec_advance, spec_bounded_value, spec_draw, Rng};
use crate::terrain::{self, TerrainMask};
use crate::types::{
    lemma_find_player, lemma_find_view, lemma_find_view_same_ids, spec_find_player, spec_find_view, spec_player_views,
    DamageView, EffectKind, PersistentObject, PlayerState, PersistentObjectChange, PersistentObjectKind,
    PersistentObjectTransition, PlayerView, RandomOutcome, SimulationState, SpecialEffect,
    BASE_ATTACK,
};
use super::objects::{
    place_object, spec_bump, spec_change_views, spec_new_object, spec_object_views,
    spec_same_but_objects,
};
use super::attack_mods::{
    lemma_view_index_facts, lemma_view_index_update, spec_direct_grown, spec_direct_of,
};
use super::{
    insert_sorted_id, spec_damage_views, spec_kept_ids, spec_sort_ids, spec_string_views, spec_touch_entry,
    spec_view_index, spec_zero_view,
    ResolveContext,
};
use vstd::prelude::*;

verus! {

/// Attempts of the rejection-sampled point draw before falling back to the center.
pub const MAX_DRAW_ATTEMPTS: u32 = 64;

/// The thrown character's damage share of a Body Throw, percent of [`BASE_ATTACK`].
pub const THROWN_DAMAGE_PERCENT: i32 = 40;

// ---------------------------------------------------------------------------------------
// Legal-position search
// ---------------------------------------------------------------------------------------

/// Whether cell `(x, y)` is a legal standing cell: representable, inside the mask, and not
/// solid.
pub open spec fn spec_legal_cell(mask: TerrainMask, x: int, y: int) -> bool {
    &&& i32::MIN <= x <= i32::MAX
    &&& i32::MIN <= y <= i32::MAX
    &&& 0 <= x < mask.width
    &&& 0 <= y < mask.height
    &&& !mask.spec_material_at(x, y).spec_is_solid()
}

/// Whether `position` is a legal standing position.
pub open spec fn spec_legal_position(mask: TerrainMask, position: FixedPoint) -> bool {
    spec_legal_cell(mask, spec_cell_of(position.x as int), spec_cell_of(position.y as int))
}

/// The cells of ring `ring` around `(x, y)` in search order: the north edge west to east,
/// the south edge west to east, then the west and east edges north to south without their
/// corners.
pub open spec fn spec_ring_cells(x: int, y: int, ring: int) -> Seq<(int, int)> {
    Seq::new((2 * ring + 1) as nat, |i: int| (x - ring + i, y - ring)) + Seq::new(
        (2 * ring + 1) as nat,
        |i: int| (x - ring + i, y + ring),
    ) + Seq::new((2 * ring - 1) as nat, |i: int| (x - ring, y - ring + 1 + i)) + Seq::new(
        (2 * ring - 1) as nat,
        |i: int| (x + ring, y - ring + 1 + i),
    )
}

/// The first legal cell among the first `n` of `cells`.
pub open spec fn spec_first_legal(mask: TerrainMask, cells: Seq<(int, int)>, n: int) -> Option<(int, int)>
    decreases n,
{
    if n <= 0 {
        None
    } else {
        match spec_first_legal(mask, cells, n - 1) {
            Some(cell) => Some(cell),
            None => if spec_legal_cell(mask, cells[n - 1].0, cells[n - 1].1) {
                Some(cells[n - 1])
            } else {
                None
            },
        }
    }
}

/// The first legal cell of the first `n` rings (from ring 1).
pub open spec fn spec_rings(mask: TerrainMask, x: int, y: int, n: int) -> Option<(int, int)>
    decreases n,
{
    if n <= 0 {
        None
    } else {
        match spec_rings(mask, x, y, n - 1) {
            Some(cell) => Some(cell),
            None => {
                let cells = spec_ring_cells(x, y, n);
                spec_first_legal(mask, cells, cells.len() as int)
            },
        }
    }
}

/// How many rings the search visits: every ring out to the mask's width plus height, capped
/// at `i32::MAX`.
pub open spec fn spec_ring_limit(mask: TerrainMask) -> int {
    if mask.width + mask.height > i32::MAX {
        i32::MAX as int
    } else {
        mask.width + mask.height
    }
}

/// What [`nearest_legal_position`] returns: `desired` itself when legal, else the origin
/// corner of the first legal cell in ring order, an overflow error when that corner is not
/// representable, or an error when no ring holds a legal cell.
pub open spec fn spec_nearest_legal(mask: TerrainMask, desired: FixedPoint) -> SimResult<FixedPoint> {
    if spec_legal_position(mask, desired) {
        Ok(desired)
    } else {
        match spec_rings(
            mask,
            spec_cell_of(desired.x as int),
            spec_cell_of(desired.y as int),
            spec_ring_limit(mask),
        ) {
            None => Err(SimError::OutOfRange { field: "relocation::teleport_destination" }),
            Some(cell) => if i32::MIN <= cell.0 * POSITION_SCALE <= i32::MAX && i32::MIN <= cell.1
                * POSITION_SCALE <= i32::MAX {
                Ok(
                    FixedPoint {
                        x: (cell.0 * POSITION_SCALE) as i32,
                        y: (cell.1 * POSITION_SCALE) as i32,
                    },
                )
            } else {
                Err(SimError::Overflow { context: "relocation::teleport_destination_cell" })
            },
        }
    }
}

/// Whether cell `(x, y)` is a legal standing cell.
fn is_legal_cell(mask: &TerrainMask, x: i32, y: i32) -> (legal: bool)
    ensures
        legal == spec_legal_cell(*mask, x as int, y as int),
{
    if x < 0 || y < 0 {
        return false;
    }
    if !((x as u32) < mask.width && (y as u32) < mask.height) {
        return false;
    }
    !terrain::material_at(mask, x, y).is_solid()
}

/// Whether `position` is a legal standing position.
fn is_legal_position(mask: &TerrainMask, position: FixedPoint) -> (legal: bool)
    ensures
        legal == spec_legal_position(*mask, position),
{
    let (x, y) = position.to_cells();
    is_legal_cell(mask, x, y)
}

/// Scans `count` cells starting at `(x0, y0)` and stepping by `(dx, dy)` for the first legal
/// one; cells outside the `i32` range are skipped.
fn scan_edge(mask: &TerrainMask, x0: i64, y0: i64, dx: i64, dy: i64, count: i64) -> (found: Option<(i32, i32)>)
    requires
        0 <= count <= 0x1_0000_0000,
        -0x1_0000_0000 <= x0 <= 0x1_0000_0000,
        -0x1_0000_0000 <= y0 <= 0x1_0000_0000,
        0 <= dx <= 1,
        0 <= dy <= 1,
    ensures
        ({
            let cells = Seq::new(count as nat, |i: int| (x0 + dx * i, y0 + dy * i));
            match spec_first_legal(*mask, cells, count as int) {
                None => found is None,
                Some(cell) => found == Some((cell.0 as i32, cell.1 as i32)),
            }
        }),
{
    let ghost cells = Seq::new(count as nat, |i: int| (x0 + dx * i, y0 + dy * i));
    let mut i: i64 = 0;
    while i < count
        invariant
            0 <= i <= count,
            count <= 0x1_0000_0000,
            -0x1_0000_0000 <= x0 <= 0x1_0000_0000,
            -0x1_0000_0000 <= y0 <= 0x1_0000_0000,
            0 <= dx <= 1,
            0 <= dy <= 1,
            cells == Seq::new(count as nat, |i: int| (x0 + dx * i, y0 + dy * i)),
            spec_first_legal(*mask, cells, i as int) is None,
        decreases count - i,
    {
        assert(0 <= dx * i <= i && 0 <= dy * i <= i) by (nonlinear_arith)
            requires
                0 <= dx <= 1,
                0 <= dy <= 1,
                0 <= i,
        ;
        let x: i64 = x0 + dx * i;
        let y: i64 = y0 + dy * i;
        assert(cells[i as int] == (x as int, y as int));
        if i32::MIN as i64 <= x && x <= i32::MAX as i64 && i32::MIN as i64 <= y && y <= i32::MAX as i64 {
            if is_legal_cell(mask, x as i32, y as i32) {
                proof {
                    lemma_first_legal_prefix(*mask, cells, i as int, count as int);
                }
                return Some((x as i32, y as i32));
            }
        }
        i = i + 1;
    }
    None
}

/// Once a first legal cell is found, longer prefixes keep it.
proof fn lemma_first_legal_prefix(mask: TerrainMask, cells: Seq<(int, int)>, i: int, n: int)
    requires
        0 <= i < n <= cells.len(),
        spec_first_legal(mask, cells, i) is None,
        spec_legal_cell(mask, cells[i].0, cells[i].1),
    ensures
        spec_first_legal(mask, cells, n) == Some(cells[i]),
    decreases n,
{
    if n > i + 1 {
        lemma_first_legal_prefix(mask, cells, i, n - 1);
    }
}

/// The first legal cell of a concatenation is the first of the front part, else of the back.
proof fn lemma_first_legal_concat(mask: TerrainMask, a: Seq<(int, int)>, b: Seq<(int, int)>, n: int)
    requires
        0 <= n <= b.len(),
    ensures
        spec_first_legal(mask, a + b, a.len() + n) == match spec_first_legal(mask, a, a.len() as int) {
            Some(cell) => Some(cell),
            None => spec_first_legal(mask, b, n),
        },
    decreases n,
{
    if n == 0 {
        lemma_first_legal_same(mask, a + b, a, a.len() as int);
    } else {
        lemma_first_legal_concat(mask, a, b, n - 1);
        assert((a + b)[a.len() + n - 1] == b[n - 1]);
    }
}

/// Two sequences agreeing on a prefix agree on its first legal cell.
proof fn lemma_first_legal_same(mask: TerrainMask, a: Seq<(int, int)>, b: Seq<(int, int)>, n: int)
    requires
        0 <= n <= a.len(),
        n <= b.len(),
        forall|i: int| 0 <= i < n ==> a[i] == b[i],
    ensures
        spec_first_legal(mask, a, n) == spec_first_legal(mask, b, n),
    decreases n,
{
    if n > 0 {
        lemma_first_legal_same(mask, a, b, n - 1);
    }
}

/// Searches ring `ring` around cell `(x, y)` for the first legal cell, in ring order.
fn ring_search(mask: &TerrainMask, x: i32, y: i32, ring: i32) -> (found: Option<(i32, i32)>)
    requires
        1 <= ring,
    ensures
        ({
            let cells = spec_ring_cells(x as int, y as int, ring as int);
            match spec_first_legal(*mask, cells, cells.len() as int) {
                None => found is None,
                Some(cell) => found == Some((cell.0 as i32, cell.1 as i32)),
            }
        }),
{
    let r: i64 = ring as i64;
    let xw: i64 = x as i64;
    let yw: i64 = y as i64;
    let ghost north = Seq::new((2 * r + 1) as nat, |i: int| (x - r + i, y - r));
    let ghost south = Seq::new((2 * r + 1) as nat, |i: int| (x - r + i, y + r));
    let ghost west = Seq::new((2 * r - 1) as nat, |i: int| (x - r, y - r + 1 + i));
    let ghost east = Seq::new((2 * r - 1) as nat, |i: int| (x + r, y - r + 1 + i));
    proof {
        let cells = spec_ring_cells(x as int, y as int, ring as int);
        assert(cells == north + south + west + east);
        lemma_first_legal_concat(*mask, north + south + west, east, east.len() as int);
        lemma_first_legal_concat(*mask, north + south, west, west.len() as int);
        lemma_first_legal_concat(*mask, north, south, south.len() as int);
        assert(Seq::new((2 * r + 1) as nat, |i: int| (xw - r + 1 * i, yw - r + 0 * i)) =~= north);
        assert(Seq::new((2 * r + 1) as nat, |i: int| (xw - r + 1 * i, yw + r + 0 * i)) =~= south);
        assert(Seq::new((2 * r - 1) as nat, |i: int| (xw - r + 0 * i, yw - r + 1 + 1 * i)) =~= west);
        assert(Seq::new((2 * r - 1) as nat, |i: int| (xw + r + 0 * i, yw - r + 1 + 1 * i)) =~= east);
    }
    match scan_edge(mask, xw - r, yw - r, 1, 0, 2 * r + 1) {
        Some(cell) => {
            return Some(cell);
        },
        None => {},
    }
    match scan_edge(mask, xw - r, yw + r, 1, 0, 2 * r + 1) {
        Some(cell) => {
            return Some(cell);
        },
        None => {},
    }
    match scan_edge(mask, xw - r, yw - r + 1, 0, 1, 2 * r - 1) {
        Some(cell) => {
            return Some(cell);
        },
        None => {},
    }
    scan_edge(mask, xw + r, yw - r + 1, 0, 1, 2 * r - 1)
}

/// The first legal cell found is legal.
proof fn lemma_first_legal_is_legal(mask: TerrainMask, cells: Seq<(int, int)>, n: int)
    ensures
        spec_first_legal(mask, cells, n) matches Some(cell) ==> spec_legal_cell(mask, cell.0, cell.1),
    decreases n,
{
    if n > 0 {
        lemma_first_legal_is_legal(mask, cells, n - 1);
    }
}

/// Once a ring search finds a cell, more rings keep it.
proof fn lemma_rings_prefix(mask: TerrainMask, x: int, y: int, r: int, n: int)
    requires
        1 <= r <= n,
        spec_rings(mask, x, y, r - 1) is None,
        spec_rings(mask, x, y, r) is Some,
    ensures
        spec_rings(mask, x, y, n) == spec_rings(mask, x, y, r),
    decreases n,
{
    if n > r {
        lemma_rings_prefix(mask, x, y, r, n - 1);
    }
}

/// `desired` when it is a legal standing position, else the nearest legal cell in ring
/// order (see [`spec_nearest_legal`]). Rings out to the mask's width plus height (at most
/// `i32::MAX`) are searched; a board with no legal cell there is an error.
pub fn nearest_legal_position(mask: &TerrainMask, desired: FixedPoint) -> (result: SimResult<FixedPoint>)
    ensures
        result == spec_nearest_legal(*mask, desired),
{
    if is_legal_position(mask, desired) {
        return Ok(desired);
    }
    let (want_x, want_y) = desired.to_cells();
    let sum: u64 = mask.width as u64 + mask.height as u64;
    let max_ring: i64 = if sum > 2147483647 {
        2147483647
    } else {
        sum as i64
    };
    let mut ring: i64 = 1;
    while ring <= max_ring
        invariant
            1 <= ring <= max_ring + 1,
            max_ring == spec_ring_limit(*mask),
            max_ring <= i32::MAX,
            !spec_legal_position(*mask, desired),
            want_x as int == spec_cell_of(desired.x as int),
            want_y as int == spec_cell_of(desired.y as int),
            spec_rings(*mask, want_x as int, want_y as int, ring - 1) is None,
        decreases max_ring + 1 - ring,
    {
        match ring_search(mask, want_x, want_y, ring as i32) {
            Some(cell) => {
                proof {
                    let cells = spec_ring_cells(want_x as int, want_y as int, ring as int);
                    lemma_first_legal_is_legal(*mask, cells, cells.len() as int);
                    lemma_rings_prefix(*mask, want_x as int, want_y as int, ring as int, max_ring as int);
                }
                return match FixedPoint::from_cells(cell.0, cell.1) {
                    Some(point) => Ok(point),
                    None => Err(SimError::Overflow { context: "relocation::teleport_destination_cell" }),
                };
            },
            None => {},
        }
        ring = ring + 1;
    }
    Err(SimError::OutOfRange { field: "relocation::teleport_destination" })
}

// ---------------------------------------------------------------------------------------
// Seeded point draw
// ---------------------------------------------------------------------------------------

/// A point drawn within a radius, with the public draw details.
#[derive(Debug, Clone, Copy, PartialEq, Eq, Structural)]
pub struct PointDraw {
    /// Per-axis draw bound (`2 * radius + 1`).
    pub axis_bound: u32,
    /// Last x draw.
    pub x_result: u32,
    /// Last y draw.
    pub y_result: u32,
    /// Whether every attempt missed the disk and the center was used.
    pub fallback_used: bool,
    /// The drawn point.
    pub drawn_point: FixedPoint,
}

/// The per-axis bound of a draw of `radius`, when `2 * radius + 1` is a non-negative `i32`.
pub open spec fn spec_draw_span(radius: i32) -> Option<u32> {
    if i32::MIN <= 2 * radius <= i32::MAX && 0 <= 2 * radius + 1 <= i32::MAX {
        Some((2 * radius + 1) as u32)
    } else {
        None
    }
}

/// The rejection-sampling attempts of a draw, from generator state `state`, with `fuel`
/// attempts left: each attempt draws an x and a y offset in `-radius..=radius` and keeps the
/// first pair inside the disk; after the last miss the center is the fallback. Returns the
/// outcome and the generator state after it.
pub open spec fn spec_attempts(
    state: u64,
    center: FixedPoint,
    radius: i32,
    span: u32,
    fuel: nat,
    last: (u32, u32),
) -> (SimResult<PointDraw>, u64)
    decreases fuel,
{
    if fuel == 0 {
        (
            Ok(
                PointDraw {
                    axis_bound: span,
                    x_result: last.0,
                    y_result: last.1,
                    fallback_used: true,
                    drawn_point: center,
                },
            ),
            state,
        )
    } else {
        let x_result = spec_bounded_value(spec_draw(state), span);
        let middle = spec_advance(state);
        let y_result = spec_bounded_value(spec_draw(middle), span);
        let after = spec_advance(middle);
        let dx = x_result - radius;
        let dy = y_result - radius;
        if dx * dx + dy * dy <= radius * radius {
            if !(i32::MIN <= center.x + dx <= i32::MAX) {
                (Err(SimError::Overflow { context: "relocation::teleport_draw_center_x" }), after)
            } else if !(i32::MIN <= center.y + dy <= i32::MAX) {
                (Err(SimError::Overflow { context: "relocation::teleport_draw_center_y" }), after)
            } else {
                (
                    Ok(
                        PointDraw {
                            axis_bound: span,
                            x_result,
                            y_result,
                            fallback_used: false,
                            drawn_point: FixedPoint {
                                x: (center.x + dx) as i32,
                                y: (center.y + dy) as i32,
                            },
                        },
                    ),
                    after,
                )
            }
        } else {
            spec_attempts(after, center, radius, span, (fuel - 1) as nat, (x_result, y_result))
        }
    }
}

/// A seeded draw of a point within `radius` of `center` (see [`spec_attempts`]), and the
/// generator state after it; an unrepresentable span is an overflow error.
pub open spec fn spec_point_draw(state: u64, center: FixedPoint, radius: i32) -> (SimResult<PointDraw>, u64) {
    match spec_draw_span(radius) {
        None => (Err(SimError::Overflow { context: "relocation::teleport_draw_span" }), state),
        Some(span) => spec_attempts(state, center, radius, span, MAX_DRAW_ATTEMPTS as nat, (0, 0)),
    }
}

/// One attempt of a draw: the x and y results and whether the offset lies in the disk.
fn draw_attempt(rng: &mut Rng, radius: i32, span: u32) -> (attempt: (u32, u32, bool))
    requires
        0 <= radius <= 1073741823,
        span as int == 2 * radius + 1,
    ensures
        attempt.0 == spec_bounded_value(spec_draw(old(rng)@), span),
        attempt.1 == spec_bounded_value(spec_draw(spec_advance(old(rng)@)), span),
        final(rng)@ == spec_advance(spec_advance(old(rng)@)),
        attempt.0 < span,
        attempt.1 < span,
        attempt.2 == ((attempt.0 - radius) * (attempt.0 - radius) + (attempt.1 - radius) * (
        attempt.1 - radius) <= radius * radius),
{
    let x_result = rng.bounded(span);
    let y_result = rng.bounded(span);
    let radius_wide: i64 = radius as i64;
    let dx: i64 = x_result as i64 - radius_wide;
    let dy: i64 = y_result as i64 - radius_wide;
    proof {
        assert(0 <= dx * dx <= 1073741824 * 1073741824) by (nonlinear_arith)
            requires
                -1073741824 <= dx <= 1073741824,
        ;
        assert(0 <= dy * dy <= 1073741824 * 1073741824) by (nonlinear_arith)
            requires
                -1073741824 <= dy <= 1073741824,
        ;
        assert(0 <= radius_wide * radius_wide <= 1073741824 * 1073741824) by (nonlinear_arith)
            requires
                0 <= radius_wide <= 1073741824,
        ;
    }
    let inside = dx * dx + dy * dy <= radius_wide * radius_wide;
    (x_result, y_result, inside)
}

/// Draws a point uniformly within `radius` of `center` by rejection sampling in the bounding
/// square, falling back to the center after [`MAX_DRAW_ATTEMPTS`] misses.
#[verifier::rlimit(40)]
pub fn draw_point_in_radius(rng: &mut Rng, center: FixedPoint, radius: i32) -> (result: SimResult<PointDraw>)
    ensures
        (result, final(rng)@) == spec_point_draw(old(rng)@, center, radius),
{
    if radius < -1073741824 || radius > 1073741823 {
        return Err(SimError::Overflow { context: "relocation::teleport_draw_span" });
    }
    let span: i32 = radius * 2 + 1;
    if span < 0 {
        return Err(SimError::Overflow { context: "relocation::teleport_draw_span" });
    }
    let span_u32: u32 = span as u32;
    let ghost start = rng@;
    let mut last_x: u32 = 0;
    let mut last_y: u32 = 0;
    let mut attempt: u32 = 0;
    while attempt < MAX_DRAW_ATTEMPTS
        invariant
            attempt <= MAX_DRAW_ATTEMPTS,
            0 <= radius <= 1073741823,
            span_u32 as int == 2 * radius + 1,
            start == old(rng)@,
            spec_point_draw(start, center, radius) == spec_attempts(
                rng@,
                center,
                radius,
                span_u32,
                (MAX_DRAW_ATTEMPTS - attempt) as nat,
                (last_x, last_y),
            ),
        decreases MAX_DRAW_ATTEMPTS - attempt,
    {
        let ghost state = rng@;
        let (x_result, y_result, inside) = draw_attempt(rng, radius, span_u32);
        last_x = x_result;
        last_y = y_result;
        if inside {
            let dx: i64 = x_result as i64 - radius as i64;
            let dy: i64 = y_result as i64 - radius as i64;
            let x: i64 = center.x as i64 + dx;
            let y: i64 = center.y as i64 + dy;
            if x < i32::MIN as i64 || x > i32::MAX as i64 {
                return Err(SimError::Overflow { context: "relocation::teleport_draw_center_x" });
            }
            if y < i32::MIN as i64 || y > i32::MAX as i64 {
                return Err(SimError::Overflow { context: "relocation::teleport_draw_center_y" });
            }
            return Ok(
                PointDraw {
                    axis_bound: span_u32,
                    x_result,
                    y_result,
                    fallback_used: false,
                    drawn_point: FixedPoint::new(x as i32, y as i32),
                },
            );
        }
        attempt = attempt + 1;
    }
    Ok(
        PointDraw {
            axis_bound: span_u32,
            x_result: last_x,
            y_result: last_y,
            fallback_used: true,
            drawn_point: center,
        },
    )
}

/// The public record of an Aleph point draw and where it landed.
pub open spec fn spec_veilstep_outcome(draw: PointDraw, destination: FixedPoint) -> RandomOutcome {
    RandomOutcome::AlephVeilstepTeleportPoint {
        axis_bound: draw.axis_bound,
        x_result: draw.x_result,
        y_result: draw.y_result,
        fallback_used: draw.fallback_used,
        drawn_point: draw.drawn_point,
        destination,
    }
}

/// Aleph's point draw and its legal correction (see [`spec_point_draw`] and
/// [`spec_nearest_legal`]), and the generator state after the draw.
pub open spec fn spec_veilstep(state: u64, terrain: TerrainMask, center: FixedPoint, radius: i32) -> (
    SimResult<RandomOutcome>,
    u64,
) {
    let (draw, after) = spec_point_draw(state, center, radius);
    match draw {
        Err(error) => (Err(error), after),
        Ok(point) => match spec_nearest_legal(terrain, point.drawn_point) {
            Err(error) => (Err(error), after),
            Ok(destination) => (Ok(spec_veilstep_outcome(point, destination)), after),
        },
    }
}

/// Draws Aleph's teleport point within `radius` of `center` and corrects it to the nearest
/// legal standing position.
pub fn draw_aleph_veilstep_point(rng: &mut Rng, terrain: &TerrainMask, center: FixedPoint, radius: i32) -> (result:
    SimResult<RandomOutcome>)
    ensures
        (result, final(rng)@) == spec_veilstep(old(rng)@, *terrain, center, radius),
{
    let draw = match draw_point_in_radius(rng, center, radius) {
        Err(error) => {
            return Err(error);
        },
        Ok(draw) => draw,
    };
    let destination = match nearest_legal_position(terrain, draw.drawn_point) {
        Err(error) => {
            return Err(error);
        },
        Ok(destination) => destination,
    };
    Ok(
        RandomOutcome::AlephVeilstepTeleportPoint {
            axis_bound: draw.axis_bound,
            x_result: draw.x_result,
            y_result: draw.y_result,
            fallback_used: draw.fallback_used,
            drawn_point: draw.drawn_point,
            destination,
        },
    )
}

/// How far from the first target a chain strike looks for its teleport target: twelve body
/// widths.
pub const CHAIN_STRIKE_SEARCH_RADIUS: i32 = 12 * BODY_WIDTH;

/// The ids of the living players other than `actor` within [`CHAIN_STRIKE_SEARCH_RADIUS`] of
/// `center`, in roster order.
pub open spec fn spec_chain_candidates(players: Seq<PlayerState>, actor: Seq<char>, center: FixedPoint) -> Seq<
    Seq<char>,
>
    decreases players.len(),
{
    if players.len() == 0 {
        Seq::empty()
    } else {
        let rest = spec_chain_candidates(players.drop_last(), actor, center);
        let last = players.last();
        if last.health != 0 && last.id@ != actor && spec_within_radius(
            last.position,
            center,
            CHAIN_STRIKE_SEARCH_RADIUS as int,
        ) {
            rest.push(last.id@)
        } else {
            rest
        }
    }
}

/// A chain strike's teleport draw against the generator state `state`: nothing (and no
/// draw) when `first` names no player or no candidate is near it; otherwise one bounded draw
/// over the identifier-sorted candidates, answered as the candidate count, the drawn index,
/// the chosen id and that player's position. Also the generator state afterwards.
pub open spec fn spec_chain_strike_draw(
    state: u64,
    players: Seq<PlayerState>,
    actor: Seq<char>,
    first: Seq<char>,
) -> (SimResult<Option<(u32, u32, Seq<char>, FixedPoint)>>, u64) {
    match spec_find_player(players, first) {
        None => (Ok(None), state),
        Some(t) => {
            let sorted = spec_sort_ids(spec_chain_candidates(players, actor, players[t].position));
            if sorted.len() == 0 {
                (Ok(None), state)
            } else if sorted.len() > u32::MAX {
                (Err(SimError::Overflow { context: "relocation::arzum_candidate_count" }), state)
            } else {
                let count = sorted.len() as u32;
                let index = spec_bounded_value(spec_draw(state), count);
                let target = sorted[index as int];
                match spec_find_player(players, target) {
                    None => (Ok(None), spec_advance(state)),
                    Some(k) => (Ok(Some((count, index, target, players[k].position))), spec_advance(state)),
                }
            }
        },
    }
}

/// Whether `result` is the outcome record that [`spec_chain_strike_draw`]'s answer describes.
pub open spec fn spec_chain_strike_record(
    expected: SimResult<Option<(u32, u32, Seq<char>, FixedPoint)>>,
    result: SimResult<Option<RandomOutcome>>,
) -> bool {
    match expected {
        Err(error) => result == Err::<Option<RandomOutcome>, SimError>(error),
        Ok(None) => result == Ok::<Option<RandomOutcome>, SimError>(None),
        Ok(Some((count, index, target, position))) => result matches Ok(
            Some(
                RandomOutcome::ArzumChainStrikeTeleportTarget {
                    candidate_count,
                    selected_index,
                    target_player_id,
                    destination,
                },
            ),
        ) && candidate_count == count && selected_index == index && target_player_id@ == target
            && destination == position,
    }
}

/// The identifier-sorted ids of the living players other than `actor` within
/// [`CHAIN_STRIKE_SEARCH_RADIUS`] of `center`.
fn chain_candidates(players: &Vec<PlayerState>, actor: &str, center: FixedPoint) -> (ids: Vec<String>)
    ensures
        spec_string_views(ids@) == spec_sort_ids(spec_chain_candidates(players@, actor@, center)),
{
    let actor_key: String = actor.to_owned();
    let mut ids: Vec<String> = Vec::new();
    let mut i: usize = 0;
    assert(players@.subrange(0, 0) =~= Seq::<PlayerState>::empty());
    assert(spec_string_views(ids@) =~= Seq::<Seq<char>>::empty());
    assert(spec_chain_candidates(players@.subrange(0, 0), actor@, center) =~= Seq::<Seq<char>>::empty());
    while i < players.len()
        invariant
            i <= players@.len(),
            actor_key@ == actor@,
            spec_string_views(ids@) == spec_sort_ids(
                spec_chain_candidates(players@.subrange(0, i as int), actor@, center),
            ),
        decreases players@.len() - i,
    {
        let player = &players[i];
        let ghost rest = spec_chain_candidates(players@.subrange(0, i as int), actor@, center);
        assert(players@.subrange(0, i + 1).drop_last() =~= players@.subrange(0, i as int));
        assert(players@.subrange(0, i + 1).last() == *player);
        assert(rest.push(player.id@).drop_last() =~= rest);
        if !player.is_eliminated() && player.id != actor_key && within_radius(
            player.position,
            center,
            CHAIN_STRIKE_SEARCH_RADIUS,
        ) {
            insert_sorted_id(&mut ids, player.id.clone());
        }
        i = i + 1;
    }
    assert(players@.subrange(0, players@.len() as int) =~= players@);
    ids
}

/// Draws a chain strike's teleport target: a living enemy within
/// [`CHAIN_STRIKE_SEARCH_RADIUS`] of the first target, chosen uniformly by one seeded draw
/// over the identifier-sorted candidates (see [`spec_chain_strike_draw`]). The first target
/// itself is a candidate. `None` when the first target is unknown or nobody qualifies.
pub fn draw_arzum_chain_strike_target(
    rng: &mut Rng,
    state: &SimulationState,
    actor_id: &str,
    first_target_id: &str,
) -> (result: SimResult<Option<RandomOutcome>>)
    ensures
        ({
            let (expected, after) = spec_chain_strike_draw(
                old(rng)@,
                state.players@,
                actor_id@,
                first_target_id@,
            );
            final(rng)@ == after && spec_chain_strike_record(expected, result)
        }),
{
    let first_position = match state.player(first_target_id) {
        None => {
            return Ok(None);
        },
        Some(player) => player.position,
    };
    let candidates = chain_candidates(&state.players, actor_id, first_position);
    if candidates.len() == 0 {
        return Ok(None);
    }
    if candidates.len() > 4294967295 {
        return Err(SimError::Overflow { context: "relocation::arzum_candidate_count" });
    }
    let candidate_count: u32 = candidates.len() as u32;
    let selected_index = rng.bounded(candidate_count);
    let target_player_id = candidates[selected_index as usize].clone();
    let destination = match state.player(target_player_id.as_str()) {
        None => {
            return Ok(None);
        },
        Some(player) => player.position,
    };
    Ok(
        Some(
            RandomOutcome::ArzumChainStrikeTeleportTarget {
                candidate_count,
                selected_index,
                target_player_id,
                destination,
            },
        ),
    )
}

/// The outcome of a radius Teleport: a non-positive radius or an unknown actor is refused
/// with nothing changed; otherwise the actor is moved to the corrected draw around its own
/// position and the draw is published. A failed draw or correction is an error that has
/// still consumed its generator draws.
pub open spec fn spec_teleport(
    before: ResolveContext,
    after: ResolveContext,
    effect: SpecialEffect,
    result: SimResult<()>,
) -> bool {
    if effect.magnitude <= 0 {
        result == Err::<(), SimError>(SimError::OutOfRange { field: "relocation::teleport_radius" })
            && after == before
    } else {
        match spec_find_player(before.state.players@, before.actor_id@) {
            None => result == Err::<(), SimError>(
                SimError::OutOfRange { field: "relocation::teleport_actor" },
            ) && after == before,
            Some(i) => {
                let center = before.state.players@[i].position;
                let (outcome, state) = spec_veilstep(before.rng@, before.state.terrain, center, effect.magnitude);
                &&& after.rng@ == state
                &&& match outcome {
                    Err(error) => result == Err::<(), SimError>(error) && after == (ResolveContext {
                        rng: after.rng,
                        ..before
                    }),
                    Ok(record) => {
                        let destination = record->AlephVeilstepTeleportPoint_destination;
                        &&& result == Ok::<(), SimError>(())
                        &&& after.random_outcomes@ == before.random_outcomes@.push(record)
                        &&& after.state.players@ == before.state.players@.update(
                            i,
                            crate::types::PlayerState {
                                position: destination,
                                ..before.state.players@[i]
                            },
                        )
                        &&& after == (ResolveContext {
                            state: SimulationState { players: after.state.players, ..before.state },
                            rng: after.rng,
                            random_outcomes: after.random_outcomes,
                            ..before
                        })
                    },
                }
            },
        }
    }
}

/// Teleport: moves the actor to a seeded point within `magnitude` of its position,
/// corrected to the nearest legal standing position (see [`spec_teleport`]).
fn resolve_radius_teleport(ctx: &mut ResolveContext, effect: &SpecialEffect) -> (result: SimResult<()>)
    ensures
        spec_teleport(*old(ctx), *final(ctx), *effect, result),
{
    let radius = effect.magnitude;
    if radius <= 0 {
        return Err(SimError::OutOfRange { field: "relocation::teleport_radius" });
    }
    let index = match ctx.state.player_index(ctx.actor_id.as_str()) {
        None => {
            return Err(SimError::OutOfRange { field: "relocation::teleport_actor" });
        },
        Some(index) => index,
    };
    let center = ctx.state.players[index].position;
    let outcome = match draw_aleph_veilstep_point(&mut ctx.rng, &ctx.state.terrain, center, radius) {
        Err(error) => {
            return Err(error);
        },
        Ok(outcome) => outcome,
    };
    let destination = match outcome {
        RandomOutcome::AlephVeilstepTeleportPoint { destination, .. } => destination,
        _ => {
            return Err(SimError::OutOfRange { field: "relocation::aleph_random_outcome" });
        },
    };
    ctx.random_outcomes.push(outcome);
    ctx.state.players[index].position = destination;
    Ok(())
}

/// The outcome of a chain strike's teleport: without a first target nothing happens;
/// otherwise the draw of [`spec_chain_strike_draw`] runs, a failed draw is an error and an
/// empty one a no-op, and a drawn target is published and the actor moved onto that
/// player's position. An unknown actor is an error after publication.
pub open spec fn spec_chain_strike_teleport(
    before: ResolveContext,
    after: ResolveContext,
    result: SimResult<()>,
) -> bool {
    match before.primary_target_id {
        None => result == Ok::<(), SimError>(()) && after == before,
        Some(first) => {
            let (drawn, state) = spec_chain_strike_draw(
                before.rng@,
                before.state.players@,
                before.actor_id@,
                first@,
            );
            &&& after.rng@ == state
            &&& match drawn {
                Err(error) => result == Err::<(), SimError>(error) && after == (ResolveContext {
                    rng: after.rng,
                    ..before
                }),
                Ok(None) => result == Ok::<(), SimError>(()) && after == (ResolveContext {
                    rng: after.rng,
                    ..before
                }),
                Ok(Some((count, index, target, destination))) => {
                    &&& after.random_outcomes@.len() == before.random_outcomes@.len() + 1
                    &&& after.random_outcomes@.drop_last() == before.random_outcomes@
                    &&& spec_chain_strike_record(drawn, Ok(Some(after.random_outcomes@.last())))
                    &&& match spec_find_player(before.state.players@, before.actor_id@) {
                        None => result == Err::<(), SimError>(
                            SimError::OutOfRange { field: "relocation::teleport_actor" },
                        ) && after == (ResolveContext {
                            rng: after.rng,
                            random_outcomes: after.random_outcomes,
                            ..before
                        }),
                        Some(i) => {
                            &&& result == Ok::<(), SimError>(())
                            &&& after.state.players@ == before.state.players@.update(
                                i,
                                PlayerState { position: destination, ..before.state.players@[i] },
                            )
                            &&& after == (ResolveContext {
                                state: SimulationState { players: after.state.players, ..before.state },
                                rng: after.rng,
                                random_outcomes: after.random_outcomes,
                                ..before
                            })
                        },
                    }
                },
            }
        },
    }
}

/// A chain strike's follow-up: after the first hit, the actor teleports onto a random living
/// enemy near the first target (see [`spec_chain_strike_teleport`]). Finding nobody is not an
/// error. No ability routes to this teleport at present.
#[allow(dead_code)]
fn resolve_arzum_chain_strike_teleport(ctx: &mut ResolveContext) -> (result: SimResult<()>)
    ensures
        spec_chain_strike_teleport(*old(ctx), *final(ctx), result),
{
    let first_target_id = match &ctx.primary_target_id {
        None => {
            return Ok(());
        },
        Some(id) => id.clone(),
    };
    let outcome = match draw_arzum_chain_strike_target(
        &mut ctx.rng,
        &ctx.state,
        ctx.actor_id.as_str(),
        first_target_id.as_str(),
    ) {
        Err(error) => {
            return Err(error);
        },
        Ok(None) => {
            return Ok(());
        },
        Ok(Some(outcome)) => outcome,
    };
    let destination = match &outcome {
        RandomOutcome::ArzumChainStrikeTeleportTarget { destination, .. } => *destination,
        _ => {
            return Err(SimError::OutOfRange { field: "relocation::arzum_random_outcome" });
        },
    };
    let ghost outcomes = ctx.random_outcomes@;
    ctx.random_outcomes.push(outcome);
    assert(ctx.random_outcomes@.drop_last() =~= outcomes);
    let index = match ctx.state.player_index(ctx.actor_id.as_str()) {
        None => {
            return Err(SimError::OutOfRange { field: "relocation::teleport_actor" });
        },
        Some(index) => index,
    };
    ctx.state.players[index].position = destination;
    Ok(())
}

/// Direct damage of `percent` of [`BASE_ATTACK`] to the player named `id`: an overflow or an
/// unknown player is an error that changes nothing; otherwise health drops by what the
/// player has left at most, the landed damage is recorded, and the elimination flag is set
/// to whether health reached zero.
pub open spec fn spec_direct_hit(
    players: Seq<PlayerView>,
    damage: Seq<DamageView>,
    id: Seq<char>,
    percent: i32,
) -> (SimResult<()>, Seq<PlayerView>, Seq<DamageView>) {
    match spec_scale(BASE_ATTACK as int, percent as int, 100) {
        None => (Err(SimError::Overflow { context: "relocation::direct_damage_scale" }), players, damage),
        Some(raw) => {
            let requested: u16 = if raw < 0 {
                0
            } else if raw > u16::MAX {
                u16::MAX
            } else {
                raw as u16
            };
            match spec_find_view(players, id) {
                None => (
                    Err(SimError::OutOfRange { field: "relocation::direct_damage_target" }),
                    players,
                    damage,
                ),
                Some(i) => {
                    let health = players[i].health;
                    let actual: u16 = if requested < health {
                        requested
                    } else {
                        health
                    };
                    let left = (health - actual) as u16;
                    let (touched, k) = spec_touch_entry(damage, id);
                    let direct: u16 = if touched[k].direct + actual > u16::MAX {
                        u16::MAX
                    } else {
                        (touched[k].direct + actual) as u16
                    };
                    (
                        Ok(()),
                        players.update(i, PlayerView { health: left, ..players[i] }),
                        touched.update(k, DamageView { direct, eliminated: left == 0, ..touched[k] }),
                    )
                },
            }
        },
    }
}

/// Applies `percent` of direct damage to `id` (see [`spec_direct_hit`]).
fn apply_direct_damage(ctx: &mut ResolveContext, id: &str, percent: i32) -> (result: SimResult<()>)
    ensures
        ({
            let (expected, players, damage) = spec_direct_hit(
                spec_player_views(old(ctx).state.players@),
                spec_damage_views(old(ctx).damage@),
                id@,
                percent,
            );
            &&& result == expected
            &&& spec_player_views(final(ctx).state.players@) == players
            &&& spec_damage_views(final(ctx).damage@) == damage
            &&& super::attack_mods::spec_same_but_hits(*final(ctx), *old(ctx))
        }),
{
    proof {
        lemma_find_view(ctx.state.players@, id@);
    }
    let raw = match scale(BASE_ATTACK, percent, 100) {
        None => {
            return Err(SimError::Overflow { context: "relocation::direct_damage_scale" });
        },
        Some(raw) => raw,
    };
    let requested: u16 = if raw < 0 {
        0
    } else if raw > 65535 {
        65535
    } else {
        raw as u16
    };
    let index = match ctx.state.player_index(id) {
        None => {
            return Err(SimError::OutOfRange { field: "relocation::direct_damage_target" });
        },
        Some(index) => index,
    };
    let health = ctx.state.players[index].health;
    let actual: u16 = if requested < health {
        requested
    } else {
        health
    };
    let left: u16 = health - actual;
    let ghost players_before = ctx.state.players@;
    ctx.state.players[index].health = left;
    assert(spec_player_views(ctx.state.players@) =~= spec_player_views(players_before).update(
        index as int,
        PlayerView { health: left, ..spec_player_views(players_before)[index as int] },
    ));
    let e = ctx.touch_entry(id);
    let ghost touched = ctx.damage@;
    let current: u32 = ctx.damage[e].direct as u32;
    let direct: u16 = if current + actual as u32 > 65535 {
        65535
    } else {
        (current + actual as u32) as u16
    };
    ctx.damage[e].direct = direct;
    ctx.damage[e].eliminated = left == 0;
    assert(spec_damage_views(ctx.damage@) =~= spec_damage_views(touched).update(
        e as int,
        DamageView { direct, eliminated: left == 0, ..spec_damage_views(touched)[e as int] },
    ));
    Ok(())
}

/// The outcome of Relocate (a Body Throw): without a thrown or destination target, or with
/// an unknown destination, it is refused with nothing changed. The thrown character moves
/// onto the destination's position unless locked down (an unknown thrown character is then
/// an error), and then both take direct damage — [`THROWN_DAMAGE_PERCENT`] for the thrown
/// character, `magnitude` for the destination — stopping at the first failing hit.
pub open spec fn spec_relocate(
    before: ResolveContext,
    after: ResolveContext,
    effect: SpecialEffect,
    result: SimResult<()>,
) -> bool {
    let players = spec_player_views(before.state.players@);
    let damage = spec_damage_views(before.damage@);
    match before.primary_target_id {
        None => result == Err::<(), SimError>(
            SimError::OutOfRange { field: "relocation::relocate_thrown_target" },
        ) && after == before,
        Some(thrown) => match before.secondary_target_id {
            None => result == Err::<(), SimError>(
                SimError::OutOfRange { field: "relocation::relocate_destination_target" },
            ) && after == before,
            Some(destination) => match spec_find_view(players, destination@) {
                None => result == Err::<(), SimError>(
                    SimError::OutOfRange { field: "relocation::relocate_destination_target" },
                ) && after == before,
                Some(d) => {
                    let locked = match spec_find_player(before.state.players@, thrown@) {
                        Some(t) => spec_player_locked(before.state.players@[t]),
                        None => false,
                    };
                    let moved: Option<Seq<PlayerView>> = if locked {
                        Some(players)
                    } else {
                        match spec_find_view(players, thrown@) {
                            None => None,
                            Some(t) => Some(players.update(t, PlayerView { position: players[d].position, ..players[t] })),
                        }
                    };
                    &&& super::attack_mods::spec_same_but_hits(after, before)
                    &&& match moved {
                        None => result == Err::<(), SimError>(
                            SimError::OutOfRange { field: "relocation::relocate_thrown_target" },
                        ) && after == before,
                        Some(placed) => {
                            let (first, p1, d1) = spec_direct_hit(placed, damage, thrown@, THROWN_DAMAGE_PERCENT);
                            match first {
                                Err(error) => result == Err::<(), SimError>(error) && spec_player_views(
                                    after.state.players@,
                                ) == p1 && spec_damage_views(after.damage@) == d1,
                                Ok(_) => {
                                    let (second, p2, d2) = spec_direct_hit(p1, d1, destination@, effect.magnitude);
                                    &&& result == second
                                    &&& spec_player_views(after.state.players@) == p2
                                    &&& spec_damage_views(after.damage@) == d2
                                },
                            }
                        },
                    }
                },
            },
        },
    }
}

/// Relocate: Huck's Body Throw (see [`spec_relocate`]).
fn resolve_relocate(ctx: &mut ResolveContext, effect: &SpecialEffect) -> (result: SimResult<()>)
    ensures
        spec_relocate(*old(ctx), *final(ctx), *effect, result),
{
    let thrown: String = match &ctx.primary_target_id {
        None => {
            return Err(SimError::OutOfRange { field: "relocation::relocate_thrown_target" });
        },
        Some(thrown) => thrown.clone(),
    };
    let destination: String = match &ctx.secondary_target_id {
        None => {
            return Err(SimError::OutOfRange { field: "relocation::relocate_destination_target" });
        },
        Some(destination) => destination.clone(),
    };
    proof {
        lemma_find_view(ctx.state.players@, destination@);
        lemma_find_view(ctx.state.players@, thrown@);
    }
    let destination_position = match ctx.state.player_index(destination.as_str()) {
        None => {
            return Err(SimError::OutOfRange { field: "relocation::relocate_destination_target" });
        },
        Some(index) => ctx.state.players[index].position,
    };
    if !is_locked_down(&ctx.state, thrown.as_str()) {
        match ctx.state.player_index(thrown.as_str()) {
            None => {
                return Err(SimError::OutOfRange { field: "relocation::relocate_thrown_target" });
            },
            Some(index) => {
                let ghost players_before = ctx.state.players@;
                ctx.state.players[index].position = destination_position;
                assert(spec_player_views(ctx.state.players@) =~= spec_player_views(players_before).update(
                    index as int,
                    PlayerView {
                        position: destination_position,
                        ..spec_player_views(players_before)[index as int]
                    },
                ));
            },
        }
    }
    match apply_direct_damage(ctx, thrown.as_str(), THROWN_DAMAGE_PERCENT) {
        Err(error) => {
            return Err(error);
        },
        Ok(()) => {},
    }
    apply_direct_damage(ctx, destination.as_str(), effect.magnitude)
}

/// The outcome of Obscure: an unknown actor is refused with nothing changed; otherwise a
/// gas cloud that never loses health takes the next object sequence at the actor's
/// position for `duration_turns` turns.
pub open spec fn spec_obscure(
    before: ResolveContext,
    after: ResolveContext,
    effect: SpecialEffect,
    result: SimResult<()>,
) -> bool {
    match spec_find_player(before.state.players@, before.actor_id@) {
        None => result == Err::<(), SimError>(SimError::OutOfRange { field: "relocation::obscure_actor" })
            && after == before,
        Some(i) => {
            let cloud = spec_new_object(
                before.state.next_object_sequence,
                before.actor_id@,
                PersistentObjectKind::GasCloud,
                before.state.players@[i].position,
                u16::MAX,
                effect.duration_turns,
            );
            &&& result == Ok::<(), SimError>(())
            &&& spec_object_views(after.state.objects@) == spec_object_views(before.state.objects@).push(cloud)
            &&& after.state.next_object_sequence == spec_bump(before.state.next_object_sequence)
            &&& spec_change_views(after.object_changes@) == spec_change_views(before.object_changes@).push(
                (cloud, PersistentObjectTransition::Spawned),
            )
            &&& spec_same_but_objects(after, before)
        },
    }
}

/// Obscure: Aleph's gas cloud, centred on the actor (see [`spec_obscure`]).
fn resolve_obscure(ctx: &mut ResolveContext, effect: &SpecialEffect) -> (result: SimResult<()>)
    ensures
        spec_obscure(*old(ctx), *final(ctx), *effect, result),
{
    let center = match ctx.state.player_index(ctx.actor_id.as_str()) {
        None => {
            return Err(SimError::OutOfRange { field: "relocation::obscure_actor" });
        },
        Some(index) => ctx.state.players[index].position,
    };
    place_object(ctx, PersistentObjectKind::GasCloud, center, 65535, effect.duration_turns);
    Ok(())
}

/// What [`resolve`] does with `effect` in `before`: the context it leaves and the result.
pub open spec fn spec_resolve_outcome(
    before: ResolveContext,
    after: ResolveContext,
    effect: SpecialEffect,
    result: SimResult<()>,
) -> bool {
    &&& (effect.kind == EffectKind::Teleport ==> spec_teleport(before, after, effect, result))
    &&& (effect.kind == EffectKind::Relocate ==> spec_relocate(before, after, effect, result))
    &&& (effect.kind == EffectKind::Obscure ==> spec_obscure(before, after, effect, result))
    &&& (!(effect.kind == EffectKind::Teleport || effect.kind == EffectKind::Relocate || effect.kind
            == EffectKind::Obscure) ==> result == Err::<(), SimError>(
            SimError::OutOfRange { field: "relocation::unsupported_effect_kind" }
        ) && after == before)
}

/// Resolves a relocation-family effect: Teleport, Relocate or Obscure. Any other kind is
/// refused.
pub fn resolve(ctx: &mut ResolveContext, effect: &SpecialEffect) -> (result: SimResult<()>)
    ensures
        spec_resolve_outcome(*old(ctx), *final(ctx), *effect, result),
{
    match effect.kind {
        EffectKind::Teleport => resolve_radius_teleport(ctx, effect),
        EffectKind::Relocate => resolve_relocate(ctx, effect),
        EffectKind::Obscure => resolve_obscure(ctx, effect),
        _ => Err(SimError::OutOfRange { field: "relocation::unsupported_effect_kind" }),
    }
}

// ---------------------------------------------------------------------------------------
// Laws
// ---------------------------------------------------------------------------------------

proof fn lemma_rings_legal(mask: TerrainMask, x: int, y: int, n: int)
    ensures
        spec_rings(mask, x, y, n) matches Some(cell) ==> spec_legal_cell(mask, cell.0, cell.1),
    decreases n,
{
    if n > 0 {
        lemma_rings_legal(mask, x, y, n - 1);
        let cells = spec_ring_cells(x, y, n);
        lemma_first_legal_is_legal(mask, cells, cells.len() as int);
    }
}

/// The legal-position search only ever answers with a legal standing position: in bounds
/// and not inside solid terrain.
pub proof fn lemma_nearest_legal_is_legal(mask: TerrainMask, desired: FixedPoint)
    ensures
        spec_nearest_legal(mask, desired) matches Ok(position) ==> spec_legal_position(mask, position),
{
    if !spec_legal_position(mask, desired) {
        let x = spec_cell_of(desired.x as int);
        let y = spec_cell_of(desired.y as int);
        lemma_rings_legal(mask, x, y, spec_ring_limit(mask));
        match spec_rings(mask, x, y, spec_ring_limit(mask)) {
            Some(cell) => {
                let cx = cell.0 * POSITION_SCALE;
                let cy = cell.1 * POSITION_SCALE;
                assert(cx / 1024 == cell.0) by (nonlinear_arith)
                    requires
                        cx == cell.0 * 1024,
                ;
                assert(cy / 1024 == cell.1) by (nonlinear_arith)
                    requires
                        cy == cell.1 * 1024,
                ;
            },
            None => {},
        }
    }
}

/// A successful point draw lies within `radius` of `center` (boundary inclusive).
pub proof fn lemma_point_draw_within(state: u64, center: FixedPoint, radius: i32)
    ensures
        spec_point_draw(state, center, radius).0 matches Ok(draw) ==> crate::fixed::spec_within_radius(
            draw.drawn_point,
            center,
            radius as int,
        ),
{
    match spec_draw_span(radius) {
        None => {},
        Some(span) => {
            lemma_attempts_within(state, center, radius, span, MAX_DRAW_ATTEMPTS as nat, (0, 0));
        },
    }
}

proof fn lemma_attempts_within(
    state: u64,
    center: FixedPoint,
    radius: i32,
    span: u32,
    fuel: nat,
    last: (u32, u32),
)
    requires
        radius >= 0,
    ensures
        spec_attempts(state, center, radius, span, fuel, last).0 matches Ok(draw)
            ==> crate::fixed::spec_within_radius(draw.drawn_point, center, radius as int),
    decreases fuel,
{
    if fuel > 0 {
        let x_result = spec_bounded_value(spec_draw(state), span);
        let middle = spec_advance(state);
        let y_result = spec_bounded_value(spec_draw(middle), span);
        let after = spec_advance(middle);
        let dx = x_result - radius;
        let dy = y_result - radius;
        if dx * dx + dy * dy <= radius * radius {
        } else {
            lemma_attempts_within(after, center, radius, span, (fuel - 1) as nat, (x_result, y_result));
        }
    } else {
        assert(crate::fixed::spec_distance_squared(center, center) == 0);
        assert(radius * radius >= 0) by (nonlinear_arith)
            requires
                radius >= 0,
        ;
    }
}

/// Who may be a chain strike's candidate: exactly the living players other than the actor
/// standing within [`CHAIN_STRIKE_SEARCH_RADIUS`] of `center`.
proof fn lemma_chain_candidates_contains(
    players: Seq<PlayerState>,
    actor: Seq<char>,
    center: FixedPoint,
    id: Seq<char>,
)
    ensures
        spec_chain_candidates(players, actor, center).contains(id) <==> exists|i: int|
            0 <= i < players.len() && #[trigger] players[i].id@ == id && players[i].health != 0
                && id != actor && spec_within_radius(
                players[i].position,
                center,
                CHAIN_STRIKE_SEARCH_RADIUS as int,
            ),
    decreases players.len(),
{
    if players.len() > 0 {
        let rest = players.drop_last();
        lemma_chain_candidates_contains(rest, actor, center, id);
        let found = spec_chain_candidates(players, actor, center);
        let before = spec_chain_candidates(rest, actor, center);
        if found.contains(id) {
            let k = choose|k: int| 0 <= k < found.len() && found[k] == id;
            if k < before.len() {
                assert(before[k] == id);
                let i = choose|i: int|
                    0 <= i < rest.len() && #[trigger] rest[i].id@ == id && rest[i].health != 0
                        && id != actor && spec_within_radius(
                        rest[i].position,
                        center,
                        CHAIN_STRIKE_SEARCH_RADIUS as int,
                    );
                assert(players[i] == rest[i]);
            } else {
                assert(players[players.len() - 1].id@ == id);
            }
        }
        if exists|i: int|
            0 <= i < players.len() && #[trigger] players[i].id@ == id && players[i].health != 0
                && id != actor && spec_within_radius(
                players[i].position,
                center,
                CHAIN_STRIKE_SEARCH_RADIUS as int,
            ) {
            let i = choose|i: int|
                0 <= i < players.len() && #[trigger] players[i].id@ == id && players[i].health != 0
                    && id != actor && spec_within_radius(
                    players[i].position,
                    center,
                    CHAIN_STRIKE_SEARCH_RADIUS as int,
                );
            if i == players.len() - 1 {
                assert(found.last() == id);
                assert(found[found.len() - 1] == id);
            } else {
                assert(rest[i] == players[i]);
                assert(rest[i].id@ == id);
                let k = choose|k: int| 0 <= k < before.len() && before[k] == id;
                assert(found[k] == id);
            }
        }
    }
}

/// A chain strike only ever teleports onto a living player other than the actor who stands
/// within [`CHAIN_STRIKE_SEARCH_RADIUS`] of the first target, drawn among every such player.
pub proof fn lemma_chain_strike_target_eligible(
    state: u64,
    players: Seq<PlayerState>,
    actor: Seq<char>,
    first: Seq<char>,
)
    ensures
        match spec_chain_strike_draw(state, players, actor, first).0 {
            Ok(Some((count, index, target, _))) => spec_find_player(players, first) matches Some(t)
                && index < count && exists|i: int|
                0 <= i < players.len() && #[trigger] players[i].id@ == target && players[i].health
                    != 0 && target != actor && spec_within_radius(
                    players[i].position,
                    players[t].position,
                    CHAIN_STRIKE_SEARCH_RADIUS as int,
                ),
            _ => true,
        },
{
    match spec_find_player(players, first) {
        None => {},
        Some(t) => {
            let center = players[t].position;
            let candidates = spec_chain_candidates(players, actor, center);
            let sorted = spec_sort_ids(candidates);
            if 0 < sorted.len() <= u32::MAX {
                let count = sorted.len() as u32;
                let index = spec_bounded_value(spec_draw(state), count);
                assert(index < count) by {
                    lemma_bounded_below(spec_draw(state), count);
                }
                let target = sorted[index as int];
                assert(sorted.contains(target));
                crate::resolve::lemma_sort_ids_contains(candidates, target);
                lemma_chain_candidates_contains(players, actor, center, target);
            }
        },
    }
}

/// A bounded draw over a non-empty range lands inside it.
proof fn lemma_bounded_below(raw: u64, bound: u32)
    requires
        bound > 0,
    ensures
        spec_bounded_value(raw, bound) < bound,
{
    let high = raw / 0x1_0000_0000;
    assert(0 <= high < 0x1_0000_0000);
    assert(high * bound / 0x1_0000_0000 < bound) by (nonlinear_arith)
        requires
            0 <= high < 0x1_0000_0000,
            bound > 0,
    ;
}

/// A chain strike's candidate filter: living players other than `actor` within
/// [`CHAIN_STRIKE_SEARCH_RADIUS`] of `center`.
pub open spec fn spec_chain_candidate(actor: Seq<char>, center: FixedPoint) -> spec_fn(PlayerState) -> bool {
    |player: PlayerState|
        player.health != 0 && player.id@ != actor && spec_within_radius(
            player.position,
            center,
            CHAIN_STRIKE_SEARCH_RADIUS as int,
        )
}

proof fn lemma_chain_candidates_kept(players: Seq<PlayerState>, actor: Seq<char>, center: FixedPoint)
    ensures
        spec_chain_candidates(players, actor, center) == spec_kept_ids(
            players,
            spec_chain_candidate(actor, center),
        ),
    decreases players.len(),
{
    if players.len() > 0 {
        lemma_chain_candidates_kept(players.drop_last(), actor, center);
    }
}

/// A chain strike's sorted candidates do not depend on roster order: two rosters holding the
/// same players in any order give the same list around the same center, so the draw depends
/// on the seed alone.
pub proof fn lemma_chain_candidates_order_free(
    a: Seq<PlayerState>,
    b: Seq<PlayerState>,
    actor: Seq<char>,
    center: FixedPoint,
)
    requires
        a.to_multiset() == b.to_multiset(),
    ensures
        spec_sort_ids(spec_chain_candidates(a, actor, center)) == spec_sort_ids(
            spec_chain_candidates(b, actor, center),
        ),
{
    lemma_chain_candidates_kept(a, actor, center);
    lemma_chain_candidates_kept(b, actor, center);
    crate::resolve::lemma_sorted_kept_ids_order_free(a, b, spec_chain_candidate(actor, center));
}

/// The health a direct hit of `percent` of [`BASE_ATTACK`] asks for: the percent itself,
/// clamped to the `u16` range.
pub open spec fn spec_requested_damage(percent: i32) -> int {
    if percent < 0 {
        0
    } else if percent > u16::MAX {
        u16::MAX as int
    } else {
        percent as int
    }
}

/// A direct hit on a present player only lowers that player's health, by what it has left
/// at most.
proof fn lemma_direct_hit_health(players: Seq<PlayerView>, damage: Seq<DamageView>, id: Seq<char>, percent: i32, i: int)
    requires
        0 <= i < players.len(),
        spec_find_view(players, id) == Some(i),
    ensures
        ({
            let (result, after, _) = spec_direct_hit(players, damage, id, percent);
            let requested = spec_requested_damage(percent);
            let left = players[i].health - if requested < players[i].health {
                requested
            } else {
                players[i].health as int
            };
            &&& result == Ok::<(), SimError>(())
            &&& after.len() == players.len()
            &&& after[i] == (PlayerView { health: left as u16, ..players[i] })
            &&& forall|j: int| 0 <= j < players.len() && j != i ==> after[j] == players[j]
        }),
{
    let product = BASE_ATTACK as int * percent as int;
    assert(product == 100 * percent);
    if percent >= 0 {
        assert((product + 50) / 100 == percent) by (nonlinear_arith)
            requires
                product == 100 * percent,
                0 <= percent,
        ;
        assert(crate::fixed::abs_int(product) == product);
    } else {
        assert((-product + 50) / 100 == -percent) by (nonlinear_arith)
            requires
                product == 100 * percent,
                percent < 0,
        ;
        assert(crate::fixed::abs_int(product) == -product);
    }
    assert(crate::fixed::spec_round_div(product, 100) == percent);
    assert(spec_scale(BASE_ATTACK as int, percent as int, 100) == Some(percent));
}

/// A direct hit records exactly the health it took as direct damage against its target
/// (saturating) and leaves every other player's record alone.
proof fn lemma_direct_hit_record(
    players: Seq<PlayerView>,
    damage: Seq<DamageView>,
    id: Seq<char>,
    percent: i32,
    i: int,
    other: Seq<char>,
)
    requires
        0 <= i < players.len(),
        spec_find_view(players, id) == Some(i),
        spec_direct_hit(players, damage, id, percent).0 is Ok,
    ensures
        ({
            let (_, after, recorded) = spec_direct_hit(players, damage, id, percent);
            &&& spec_direct_of(recorded, id) == spec_direct_grown(
                spec_direct_of(damage, id),
                players[i].health - after[i].health,
            )
            &&& other != id ==> spec_direct_of(recorded, other) == spec_direct_of(damage, other)
        }),
{
    let (touched, k) = spec_touch_entry(damage, id);
    lemma_view_index_facts(damage, id);
    lemma_view_index_facts(damage, other);
    if spec_view_index(damage, id) is None {
        let pushed = damage.push(spec_zero_view(id));
        assert(pushed.drop_last() =~= damage);
        lemma_view_index_facts(pushed, id);
        if other != id {
            lemma_view_index_facts(pushed, other);
            assert(spec_view_index(pushed, other) == spec_view_index(damage, other));
        }
    }
    lemma_view_index_facts(touched, id);
    lemma_view_index_facts(touched, other);
    let recorded = spec_direct_hit(players, damage, id, percent).2;
    let entry = recorded[k];
    assert(entry.player_id == touched[k].player_id);
    lemma_view_index_update(touched, k, entry, id);
    lemma_view_index_update(touched, k, entry, other);
    assert(recorded == touched.update(k, entry));
}

/// A Body Throw moves the thrown player onto the destination's position (unless locked down)
/// and takes 40 health from the thrown player and `magnitude` (clamped to the `u16` range, and
/// as far as health allows) from the destination; nobody else changes.
pub proof fn lemma_relocate_moves_and_damages(
    before: ResolveContext,
    after: ResolveContext,
    effect: SpecialEffect,
    result: SimResult<()>,
    thrown: int,
    destination: int,
)
    requires
        spec_relocate(before, after, effect, result),
        before.primary_target_id matches Some(a) && spec_find_player(before.state.players@, a@)
            == Some(thrown),
        before.secondary_target_id matches Some(b) && spec_find_player(before.state.players@, b@)
            == Some(destination),
        thrown != destination,
    ensures
        ({
            let old_players = spec_player_views(before.state.players@);
            let new_players = spec_player_views(after.state.players@);
            let t = old_players[thrown];
            let d = old_players[destination];
            &&& result == Ok::<(), SimError>(())
            &&& new_players.len() == old_players.len()
            &&& new_players[thrown].health == t.health - if 40 < t.health { 40 } else { t.health as int }
            &&& new_players[destination].health == d.health - if spec_requested_damage(
                effect.magnitude,
            ) < d.health {
                spec_requested_damage(effect.magnitude)
            } else {
                d.health as int
            }
            &&& new_players[thrown].position == if spec_player_locked(before.state.players@[thrown]) {
                t.position
            } else {
                d.position
            }
            &&& new_players[destination].position == d.position
            &&& forall|j: int|
                0 <= j < old_players.len() && j != thrown && j != destination ==> new_players[j]
                    == old_players[j]
            &&& spec_direct_of(spec_damage_views(after.damage@), t.id) == spec_direct_grown(
                spec_direct_of(spec_damage_views(before.damage@), t.id),
                t.health - new_players[thrown].health,
            )
            &&& spec_direct_of(spec_damage_views(after.damage@), d.id) == spec_direct_grown(
                spec_direct_of(spec_damage_views(before.damage@), d.id),
                d.health - new_players[destination].health,
            )
        }),
{
    let a = before.primary_target_id->Some_0;
    let b = before.secondary_target_id->Some_0;
    let players = spec_player_views(before.state.players@);
    let damage = spec_damage_views(before.damage@);
    lemma_find_player(before.state.players@, a@);
    lemma_find_player(before.state.players@, b@);
    lemma_find_view(before.state.players@, a@);
    lemma_find_view(before.state.players@, b@);
    let locked = spec_player_locked(before.state.players@[thrown]);
    let placed = if locked {
        players
    } else {
        players.update(thrown, PlayerView { position: players[destination].position, ..players[thrown] })
    };
    lemma_find_view_same_ids(placed, players, a@);
    lemma_find_view_same_ids(placed, players, b@);
    lemma_direct_hit_health(placed, damage, a@, THROWN_DAMAGE_PERCENT, thrown);
    let (_, p1, d1) = spec_direct_hit(placed, damage, a@, THROWN_DAMAGE_PERCENT);
    lemma_find_view_same_ids(p1, placed, b@);
    lemma_direct_hit_health(p1, d1, b@, effect.magnitude, destination);
    lemma_direct_hit_record(placed, damage, a@, THROWN_DAMAGE_PERCENT, thrown, b@);
    lemma_direct_hit_record(p1, d1, b@, effect.magnitude, destination, a@);
}

} // verus!

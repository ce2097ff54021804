//! Integer-only fixed-point geometry shared by every simulation module.
//!
//! Positions are `i32` pairs in units of `1 / POSITION_SCALE` of a terrain cell. The only
//! sanctioned rounding rule is [`round_divide`]: the quotient rounded half away from zero.

use vstd::prelude::*;

verus! {

/// Fixed-point units per terrain cell.
pub const POSITION_SCALE: i32 = 1024;

/// One character body width, in fixed-point units (four terrain cells).
pub const BODY_WIDTH: i32 = 4096;

/// Basis points in one whole (100.00%).
pub const BASIS_POINTS: i32 = 10_000;

/// A position or displacement in fixed-point units. `+Y` points down.
#[derive(Debug, Clone, Copy, PartialEq, Eq, PartialOrd, Ord, Hash, Structural)]
pub struct FixedPoint {
    /// Horizontal component.
    pub x: i32,
    /// Vertical component (`+Y` is down).
    pub y: i32,
}

/// Clamps a mathematical integer into the `i32` range.
pub open spec fn clamp_i32(value: int) -> i32 {
    if value < i32::MIN {
        i32::MIN
    } else if value > i32::MAX {
        i32::MAX
    } else {
        value as i32
    }
}

/// Clamps a mathematical integer into the `i64` range.
pub open spec fn clamp_i64(value: int) -> i64 {
    if value < i64::MIN {
        i64::MIN
    } else if value > i64::MAX {
        i64::MAX
    } else {
        value as i64
    }
}

/// Absolute value of a mathematical integer.
pub open spec fn abs_int(value: int) -> int {
    if value < 0 {
        -value
    } else {
        value
    }
}

/// The quotient `numerator / denominator` rounded half away from zero.
pub open spec fn spec_round_div(numerator: int, denominator: int) -> int {
    let magnitude = (abs_int(numerator) + abs_int(denominator) / 2) / abs_int(denominator);
    if (numerator < 0) != (denominator < 0) {
        -magnitude
    } else {
        magnitude
    }
}

/// What [`round_divide`] returns: `None` for a zero denominator or an unrepresentable quotient.
pub open spec fn spec_round_divide(numerator: int, denominator: int) -> Option<i64> {
    if denominator == 0 {
        None
    } else if i64::MIN <= spec_round_div(numerator, denominator) <= i64::MAX {
        Some(spec_round_div(numerator, denominator) as i64)
    } else {
        None
    }
}

/// What [`scale`] returns: `value * numerator / denominator`, rounded half away from zero.
pub open spec fn spec_scale(value: int, numerator: int, denominator: int) -> Option<i32> {
    if denominator == 0 {
        None
    } else if i32::MIN <= spec_round_div(value * numerator, denominator) <= i32::MAX {
        Some(spec_round_div(value * numerator, denominator) as i32)
    } else {
        None
    }
}

/// Squared Euclidean distance between two points.
pub open spec fn spec_distance_squared(a: FixedPoint, b: FixedPoint) -> int {
    (a.x - b.x) * (a.x - b.x) + (a.y - b.y) * (a.y - b.y)
}

/// Whether `b` lies within `radius` of `a` (inclusive); a negative radius contains nothing.
pub open spec fn spec_within_radius(a: FixedPoint, b: FixedPoint, radius: int) -> bool {
    radius >= 0 && spec_distance_squared(a, b) <= radius * radius
}

/// Floor of `value / POSITION_SCALE`: the terrain cell containing a coordinate.
pub open spec fn spec_cell_of(value: int) -> int {
    value / (POSITION_SCALE as int)
}

/// Component-wise saturating sum.
pub open spec fn spec_point_add(a: FixedPoint, b: FixedPoint) -> FixedPoint {
    FixedPoint { x: clamp_i32(a.x + b.x), y: clamp_i32(a.y + b.y) }
}

/// Component-wise saturating difference.
pub open spec fn spec_point_sub(a: FixedPoint, b: FixedPoint) -> FixedPoint {
    FixedPoint { x: clamp_i32(a.x - b.x), y: clamp_i32(a.y - b.y) }
}

/// `a + b`, saturating at the `i32` bounds.
pub fn saturating_add_i32(a: i32, b: i32) -> (result: i32)
    ensures
        result == clamp_i32(a + b),
{
    let sum: i64 = a as i64 + b as i64;
    if sum < i32::MIN as i64 {
        i32::MIN
    } else if sum > i32::MAX as i64 {
        i32::MAX
    } else {
        sum as i32
    }
}

/// `a - b`, saturating at the `i32` bounds.
pub fn saturating_sub_i32(a: i32, b: i32) -> (result: i32)
    ensures
        result == clamp_i32(a - b),
{
    let difference: i64 = a as i64 - b as i64;
    if difference < i32::MIN as i64 {
        i32::MIN
    } else if difference > i32::MAX as i64 {
        i32::MAX
    } else {
        difference as i32
    }
}

/// `a * b`, saturating at the `i32` bounds.
pub fn saturating_mul_i32(a: i32, b: i32) -> (result: i32)
    ensures
        result == clamp_i32(a * b),
{
    proof {
        assert(-2147483648 * 2147483648 <= a * b <= 2147483648 * 2147483648) by (nonlinear_arith)
            requires
                -2147483648 <= a <= 2147483647,
                -2147483648 <= b <= 2147483647,
        ;
    }
    let product: i64 = a as i64 * b as i64;
    if product < i32::MIN as i64 {
        i32::MIN
    } else if product > i32::MAX as i64 {
        i32::MAX
    } else {
        product as i32
    }
}

/// `|a|`, saturating `i32::MIN` to `i32::MAX`.
pub fn saturating_abs_i32(a: i32) -> (result: i32)
    ensures
        result == clamp_i32(abs_int(a as int)),
{
    if a == i32::MIN {
        i32::MAX
    } else if a < 0 {
        -a
    } else {
        a
    }
}

/// `-a`, saturating `i32::MIN` to `i32::MAX`.
pub fn saturating_neg_i32(a: i32) -> (result: i32)
    ensures
        result == clamp_i32(-(a as int)),
{
    if a == i32::MIN {
        i32::MAX
    } else {
        -a
    }
}

/// `a + b`, saturating at the `i64` bounds.
pub fn saturating_add_i64(a: i64, b: i64) -> (result: i64)
    ensures
        result == clamp_i64(a + b),
{
    let sum: i128 = a as i128 + b as i128;
    if sum < i64::MIN as i128 {
        i64::MIN
    } else if sum > i64::MAX as i128 {
        i64::MAX
    } else {
        sum as i64
    }
}

/// `a * b`, saturating at the `i64` bounds.
pub fn saturating_mul_i64(a: i64, b: i64) -> (result: i64)
    ensures
        result == clamp_i64(a * b),
{
    proof {
        assert(-9223372036854775808 * 9223372036854775808 <= a * b <= 9223372036854775808
            * 9223372036854775808) by (nonlinear_arith)
            requires
                -9223372036854775808 <= a <= 9223372036854775807,
                -9223372036854775808 <= b <= 9223372036854775807,
        ;
    }
    let product: i128 = a as i128 * b as i128;
    if product < i64::MIN as i128 {
        i64::MIN
    } else if product > i64::MAX as i128 {
        i64::MAX
    } else {
        product as i64
    }
}

/// Divides with the crate's one rounding rule: half away from zero.
///
/// Returns `None` for a zero denominator or when the quotient does not fit in `i64`
/// (only `i64::MIN / -1`).
pub fn round_divide(numerator: i64, denominator: i64) -> (result: Option<i64>)
    ensures
        result == spec_round_divide(numerator as int, denominator as int),
{
    if denominator == 0 {
        return None;
    }
    let n_abs: u128 = if numerator < 0 {
        (-(numerator as i128)) as u128
    } else {
        numerator as u128
    };
    let d_abs: u128 = if denominator < 0 {
        (-(denominator as i128)) as u128
    } else {
        denominator as u128
    };
    assert(n_abs as int == abs_int(numerator as int));
    assert(d_abs as int == abs_int(denominator as int));
    let half: u128 = d_abs / 2;
    let magnitude: u128 = (n_abs + half) / d_abs;
    proof {
        let total: int = n_abs as int + half as int;
        let divisor: int = d_abs as int;
        assert(total / divisor <= total) by (nonlinear_arith)
            requires
                divisor >= 1,
                total >= 0,
        ;
    }
    let negative = (numerator < 0) != (denominator < 0);
    if negative {
        if magnitude > 9223372036854775808u128 {
            return None;
        }
        let value: i128 = -(magnitude as i128);
        Some(value as i64)
    } else {
        if magnitude > 9223372036854775807u128 {
            return None;
        }
        Some(magnitude as i64)
    }
}

/// Computes `value * numerator / denominator` with [`round_divide`]'s rounding, in `i32`.
///
/// Returns `None` for a zero denominator or an unrepresentable result.
pub fn scale(value: i32, numerator: i32, denominator: i32) -> (result: Option<i32>)
    ensures
        result == spec_scale(value as int, numerator as int, denominator as int),
{
    proof {
        assert(-2147483648 * 2147483648 <= value * numerator <= 2147483648 * 2147483648)
            by (nonlinear_arith)
            requires
                -2147483648 <= value <= 2147483647,
                -2147483648 <= numerator <= 2147483647,
        ;
    }
    let product: i64 = value as i64 * numerator as i64;
    match round_divide(product, denominator as i64) {
        None => None,
        Some(quotient) => {
            if quotient < i32::MIN as i64 || quotient > i32::MAX as i64 {
                None
            } else {
                Some(quotient as i32)
            }
        },
    }
}

/// Applies a basis-point multiplier (`10_000` = 100%) with [`scale`]'s rounding.
pub fn apply_basis_points(value: i32, basis_points: i32) -> (result: Option<i32>)
    ensures
        result == spec_scale(value as int, basis_points as int, BASIS_POINTS as int),
{
    scale(value, basis_points, BASIS_POINTS)
}

/// Squared Euclidean distance, saturating at `i64::MAX`.
pub fn distance_squared(a: FixedPoint, b: FixedPoint) -> (result: i64)
    ensures
        result == clamp_i64(spec_distance_squared(a, b)),
        result >= 0,
{
    let dx: i64 = a.x as i64 - b.x as i64;
    let dy: i64 = a.y as i64 - b.y as i64;
    let dx_squared = saturating_mul_i64(dx, dx);
    let dy_squared = saturating_mul_i64(dy, dy);
    proof {
        assert(dx * dx >= 0) by (nonlinear_arith);
        assert(dy * dy >= 0) by (nonlinear_arith);
        assert(dx * dx <= 4294967296 * 4294967296) by (nonlinear_arith)
            requires
                -4294967296 <= dx <= 4294967296,
        ;
        assert(dy * dy <= 4294967296 * 4294967296) by (nonlinear_arith)
            requires
                -4294967296 <= dy <= 4294967296,
        ;
    }
    saturating_add_i64(dx_squared, dy_squared)
}

/// Whether `b` lies within `radius` of `a`, boundary inclusive. A negative radius is empty.
pub fn within_radius(a: FixedPoint, b: FixedPoint, radius: i32) -> (result: bool)
    ensures
        result == spec_within_radius(a, b, radius as int),
{
    if radius < 0 {
        return false;
    }
    let radius_wide: i64 = radius as i64;
    proof {
        assert(radius_wide * radius_wide <= 2147483648 * 2147483648) by (nonlinear_arith)
            requires
                0 <= radius_wide <= 2147483647,
        ;
        assert(spec_distance_squared(a, b) <= 2 * (4294967296 * 4294967296)) by (nonlinear_arith)
            requires
                -4294967296 <= a.x - b.x <= 4294967296,
                -4294967296 <= a.y - b.y <= 4294967296,
        ;
    }
    distance_squared(a, b) <= radius_wide * radius_wide
}

/// Floor of `value / POSITION_SCALE`.
pub fn cell_of(value: i32) -> (result: i32)
    ensures
        result as int == spec_cell_of(value as int),
        -2097152 <= result <= 2097151,
{
    proof {
        lemma_cell_of_bounds(value);
    }
    if value >= 0 {
        let quotient: u32 = (value as u32) / 1024;
        quotient as i32
    } else {
        let magnitude: u32 = ((-(value as i64)) - 1) as u32;
        let quotient: u32 = magnitude / 1024;
        proof {
            let v = value as int;
            let m = magnitude as int;
            assert(m == -v - 1);
            assert(v / 1024 == -(m / 1024) - 1) by (nonlinear_arith)
                requires
                    m == -v - 1,
                    m >= 0,
            ;
        }
        -(quotient as i32) - 1
    }
}

/// Cells of `i32` coordinates lie within `[-2^21, 2^21)`.
pub proof fn lemma_cell_of_bounds(value: i32)
    ensures
        -2097152 <= spec_cell_of(value as int) <= 2097151,
{
    let v = value as int;
    assert(-2097152 <= v / 1024 <= 2097151) by (nonlinear_arith)
        requires
            -2147483648 <= v <= 2147483647,
    ;
}

impl FixedPoint {
    /// The origin.
    pub fn zero() -> (origin: FixedPoint)
        ensures
            origin.x == 0,
            origin.y == 0,
    {
        FixedPoint { x: 0, y: 0 }
    }

    /// Builds a point from its components.
    pub fn new(x: i32, y: i32) -> (point: FixedPoint)
        ensures
            point.x == x,
            point.y == y,
    {
        FixedPoint { x, y }
    }

    /// The origin corner of terrain cell `(x, y)`, or `None` when it does not fit in `i32`.
    pub fn from_cells(x: i32, y: i32) -> (point: Option<FixedPoint>)
        ensures
            point matches Some(p) ==> p.x == x * POSITION_SCALE && p.y == y * POSITION_SCALE,
            point is Some <==> (i32::MIN <= x * POSITION_SCALE <= i32::MAX && i32::MIN <= y
                * POSITION_SCALE <= i32::MAX),
    {
        let px: i64 = x as i64 * 1024;
        let py: i64 = y as i64 * 1024;
        if px < i32::MIN as i64 || px > i32::MAX as i64 || py < i32::MIN as i64 || py
            > i32::MAX as i64 {
            None
        } else {
            Some(FixedPoint { x: px as i32, y: py as i32 })
        }
    }

    /// The terrain cell containing this point (floor division by [`POSITION_SCALE`]).
    pub fn to_cells(self) -> (cells: (i32, i32))
        ensures
            cells.0 as int == spec_cell_of(self.x as int),
            cells.1 as int == spec_cell_of(self.y as int),
            -2097152 <= cells.0 <= 2097151,
            -2097152 <= cells.1 <= 2097151,
    {
        (cell_of(self.x), cell_of(self.y))
    }

    /// Component-wise saturating sum.
    pub fn saturating_add(self, other: FixedPoint) -> (sum: FixedPoint)
        ensures
            sum == spec_point_add(self, other),
    {
        FixedPoint {
            x: saturating_add_i32(self.x, other.x),
            y: saturating_add_i32(self.y, other.y),
        }
    }

    /// Component-wise saturating difference.
    pub fn saturating_sub(self, other: FixedPoint) -> (difference: FixedPoint)
        ensures
            difference == spec_point_sub(self, other),
    {
        FixedPoint {
            x: saturating_sub_i32(self.x, other.x),
            y: saturating_sub_i32(self.y, other.y),
        }
    }
}

} // verus!

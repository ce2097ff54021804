//! The destructible terrain mask: one material byte per cell, row-major.
//!
//! Reads outside the mask see [`Material::Empty`]. Every destructive operation is an
//! explicit [`TerrainOperation`] whose material mask decides which materials it may remove.

use crate::error::{SimError, SimResult};
use crate::fixed::{spec_cell_of, FixedPoint};
use vstd::prelude::*;

verus! {

/// Largest number of cells a mask may hold.
pub const MAX_MASK_CELLS: u64 = 16_777_216;

/// What occupies one terrain cell.
#[derive(Debug, Clone, Copy, PartialEq, Eq, PartialOrd, Ord, Hash, Structural)]
pub enum Material {
    /// Open air.
    Empty,
    /// Diggable earth.
    Soil,
    /// Diggable timber.
    Wood,
    /// Terrain no ordinary blast can remove.
    ReinforcedStone,
}

/// The stored byte for a material.
pub open spec fn spec_material_code(material: Material) -> u8 {
    match material {
        Material::Empty => 0,
        Material::Soil => 1,
        Material::Wood => 2,
        Material::ReinforcedStone => 3,
    }
}

/// The material a stored byte denotes. Unknown codes read as reinforced stone, so a
/// corrupted cell is never silently diggable or passable.
pub open spec fn spec_material_from_code(code: u8) -> Material {
    if code == 0 {
        Material::Empty
    } else if code == 1 {
        Material::Soil
    } else if code == 2 {
        Material::Wood
    } else {
        Material::ReinforcedStone
    }
}

impl Material {
    /// Whether this material blocks bodies and projectiles.
    pub open spec fn spec_is_solid(self) -> bool {
        self != Material::Empty
    }

    /// Whether this material blocks bodies and projectiles.
    pub fn is_solid(self) -> (solid: bool)
        ensures
            solid == self.spec_is_solid(),
    {
        match self {
            Material::Empty => false,
            _ => true,
        }
    }

    /// The byte stored in a [`TerrainMask`] for this material.
    pub fn code(self) -> (code: u8)
        ensures
            code == spec_material_code(self),
    {
        match self {
            Material::Empty => 0,
            Material::Soil => 1,
            Material::Wood => 2,
            Material::ReinforcedStone => 3,
        }
    }

    /// Decodes a stored byte.
    pub fn from_code(code: u8) -> (material: Material)
        ensures
            material == spec_material_from_code(code),
    {
        if code == 0 {
            Material::Empty
        } else if code == 1 {
            Material::Soil
        } else if code == 2 {
            Material::Wood
        } else {
            Material::ReinforcedStone
        }
    }
}

/// Which materials a destructive operation may remove.
#[derive(Debug, Clone, Copy, PartialEq, Eq, Hash, Structural)]
pub enum MaterialMask {
    /// Soil and wood only; reinforced stone survives.
    Soft,
    /// Every solid material.
    All,
}

impl MaterialMask {
    /// Soil and wood only.
    pub fn soft() -> (mask: MaterialMask)
        ensures
            mask == MaterialMask::Soft,
    {
        MaterialMask::Soft
    }

    /// Every solid material.
    pub fn all() -> (mask: MaterialMask)
        ensures
            mask == MaterialMask::All,
    {
        MaterialMask::All
    }

    /// Whether this mask removes `material`.
    pub open spec fn spec_removes(self, material: Material) -> bool {
        match self {
            MaterialMask::Soft => material == Material::Soil || material == Material::Wood,
            MaterialMask::All => material != Material::Empty,
        }
    }

    /// Whether this mask removes `material`.
    pub fn removes(self, material: Material) -> (removed: bool)
        ensures
            removed == self.spec_removes(material),
    {
        match self {
            MaterialMask::Soft => match material {
                Material::Soil | Material::Wood => true,
                _ => false,
            },
            MaterialMask::All => match material {
                Material::Empty => false,
                _ => true,
            },
        }
    }
}

/// A rectangular grid of material bytes, row-major: cell `(x, y)` is `cells[y * width + x]`.
#[derive(Debug, Clone, PartialEq, Eq, Hash)]
pub struct TerrainMask {
    /// Width in cells.
    pub width: u32,
    /// Height in cells.
    pub height: u32,
    /// Material codes, `width * height` of them.
    pub cells: Vec<u8>,
}

/// Geometry of a destructive terrain operation, in cell coordinates of its fixed-point inputs.
#[derive(Debug, Clone, Copy, PartialEq, Eq, Hash, Structural)]
pub enum TerrainShape {
    /// Every cell within `radius_cells` of the cell containing `center`.
    SubtractCircle {
        /// Blast center.
        center: FixedPoint,
        /// Radius in whole cells.
        radius_cells: u16,
    },
    /// Every cell within `radius_cells` of the segment between the cells of `start` and `end`.
    SubtractCapsule {
        /// Segment start.
        start: FixedPoint,
        /// Segment end.
        end: FixedPoint,
        /// Radius in whole cells.
        radius_cells: u16,
    },
}

/// One ordered terrain mutation.
#[derive(Debug, Clone, Copy, PartialEq, Eq, Hash, Structural)]
pub struct TerrainOperation {
    /// Position of this operation in the match's terrain-operation order.
    pub sequence: u32,
    /// What region is affected.
    pub shape: TerrainShape,
    /// Which materials may be removed.
    pub material_mask: MaterialMask,
}

/// Whether `(x, y)` lies inside a `width` by `height` grid.
pub open spec fn spec_in_bounds(width: int, height: int, x: int, y: int) -> bool {
    0 <= x < width && 0 <= y < height
}

impl TerrainMask {
    /// The material at cell `(x, y)`; outside the grid (or past the stored cells) is empty.
    pub open spec fn spec_material_at(self, x: int, y: int) -> Material {
        if spec_in_bounds(self.width as int, self.height as int, x, y) && y * self.width + x
            < self.cells.len() {
            spec_material_from_code(self.cells[y * self.width + x])
        } else {
            Material::Empty
        }
    }

    /// Whether the cell containing `point` is solid.
    pub open spec fn spec_is_solid_at(self, point: FixedPoint) -> bool {
        self.spec_material_at(spec_cell_of(point.x as int), spec_cell_of(point.y as int)).spec_is_solid()
    }

    /// Whether the stored cells match the declared dimensions.
    pub open spec fn well_formed(self) -> bool {
        self.cells.len() == self.width * self.height
    }
}

/// Whether cell `(x, y)` lies within `r` of cell `(cx, cy)`.
pub open spec fn spec_in_circle(cx: int, cy: int, r: int, x: int, y: int) -> bool {
    (x - cx) * (x - cx) + (y - cy) * (y - cy) <= r * r
}

/// Whether cell `(x, y)` lies within `r` of the segment from `(ax, ay)` to `(bx, by)`.
///
/// Exact in integers: with `w = p - a` and `d = b - a`, the closest point is `a` when
/// `w·d <= 0`, `b` when `w·d >= d·d`, and otherwise the perpendicular foot, whose squared
/// distance times `d·d` is `|w|²·(d·d) - (w·d)²`.
pub open spec fn spec_in_capsule(ax: int, ay: int, bx: int, by: int, r: int, x: int, y: int) -> bool {
    let wx = x - ax;
    let wy = y - ay;
    let dx = bx - ax;
    let dy = by - ay;
    let dd = dx * dx + dy * dy;
    let wd = wx * dx + wy * dy;
    if dd == 0 || wd <= 0 {
        spec_in_circle(ax, ay, r, x, y)
    } else if wd >= dd {
        spec_in_circle(bx, by, r, x, y)
    } else {
        (wx * wx + wy * wy) * dd - wd * wd <= r * r * dd
    }
}

/// Whether `shape` covers cell `(x, y)`.
pub open spec fn spec_in_shape(shape: TerrainShape, x: int, y: int) -> bool {
    match shape {
        TerrainShape::SubtractCircle { center, radius_cells } => spec_in_circle(
            spec_cell_of(center.x as int),
            spec_cell_of(center.y as int),
            radius_cells as int,
            x,
            y,
        ),
        TerrainShape::SubtractCapsule { start, end, radius_cells } => spec_in_capsule(
            spec_cell_of(start.x as int),
            spec_cell_of(start.y as int),
            spec_cell_of(end.x as int),
            spec_cell_of(end.y as int),
            radius_cells as int,
            x,
            y,
        ),
    }
}

/// Whether `operation` removes the material stored at index `index` of a `width`-wide grid
/// holding `cell_count` meaningful cells.
pub open spec fn spec_removes_cell(
    cells: Seq<u8>,
    width: int,
    cell_count: int,
    operation: TerrainOperation,
    index: int,
) -> bool {
    &&& 0 <= index < cell_count
    &&& index < cells.len()
    &&& width > 0
    &&& spec_in_shape(operation.shape, index % width, index / width)
    &&& operation.material_mask.spec_removes(spec_material_from_code(cells[index]))
}

/// Number of indices below `n` that `operation` removes.
pub open spec fn spec_removed_count(
    cells: Seq<u8>,
    width: int,
    cell_count: int,
    operation: TerrainOperation,
    n: int,
) -> nat
    decreases n,
{
    if n <= 0 {
        0
    } else {
        spec_removed_count(cells, width, cell_count, operation, n - 1) + if spec_removes_cell(
            cells,
            width,
            cell_count,
            operation,
            n - 1,
        ) {
            1nat
        } else {
            0nat
        }
    }
}

/// The cells after `operation`: removed cells become empty, all others are unchanged.
pub open spec fn spec_after_operation(
    cells: Seq<u8>,
    width: int,
    cell_count: int,
    operation: TerrainOperation,
) -> Seq<u8> {
    Seq::new(
        cells.len(),
        |i: int|
            if spec_removes_cell(cells, width, cell_count, operation, i) {
                0u8
            } else {
                cells[i]
            },
    )
}

/// An operation never reports more removed cells than the mask stores.
pub proof fn lemma_removed_count_bounded(
    cells: Seq<u8>,
    width: int,
    cell_count: int,
    operation: TerrainOperation,
    n: int,
)
    requires
        n >= 0,
    ensures
        spec_removed_count(cells, width, cell_count, operation, n) <= n,
    decreases n,
{
    if n > 0 {
        lemma_removed_count_bounded(cells, width, cell_count, operation, n - 1);
    }
}

/// Creates a `width` by `height` mask filled with `fill`.
///
/// # Errors
///
/// Rejects a zero dimension or more than [`MAX_MASK_CELLS`] cells.
pub fn create_mask(width: u32, height: u32, fill: Material) -> (result: SimResult<TerrainMask>)
    ensures
        (width == 0 || height == 0 || width * height > MAX_MASK_CELLS) ==> result == Err::<
            TerrainMask,
            SimError,
        >(SimError::OutOfRange { field: "terrain dimensions" }),
        !(width == 0 || height == 0 || width * height > MAX_MASK_CELLS) ==> (result matches Ok(
            mask,
        ) && mask.width == width && mask.height == height && mask.well_formed() && forall|i: int|
            0 <= i < mask.cells.len() ==> mask.cells[i] == spec_material_code(fill)),
{
    proof {
        assert(width * height <= 4294967295 * 4294967295) by (nonlinear_arith)
            requires
                width <= 4294967295,
                height <= 4294967295,
        ;
    }
    let total: u64 = width as u64 * height as u64;
    if width == 0 || height == 0 || total > MAX_MASK_CELLS {
        return Err(SimError::OutOfRange { field: "terrain dimensions" });
    }
    let code = fill.code();
    let count = total as usize;
    let mut cells: Vec<u8> = Vec::new();
    let mut i: usize = 0;
    while i < count
        invariant
            i <= count,
            cells.len() == i,
            forall|j: int| 0 <= j < i ==> cells[j] == code,
        decreases count - i,
    {
        cells.push(code);
        i = i + 1;
    }
    Ok(TerrainMask { width, height, cells })
}

/// Index of cell `(x, y)` in `mask.cells`, when it is inside the grid and stored.
pub fn cell_index(mask: &TerrainMask, x: i32, y: i32) -> (index: Option<usize>)
    ensures
        index is Some <==> (spec_in_bounds(mask.width as int, mask.height as int, x as int, y as int)
            && y * mask.width + x < mask.cells.len()),
        index matches Some(i) ==> i == y * mask.width + x,
{
    if x < 0 || y < 0 {
        return None;
    }
    let xu: u64 = x as u64;
    let yu: u64 = y as u64;
    if xu >= mask.width as u64 || yu >= mask.height as u64 {
        return None;
    }
    proof {
        assert(yu * (mask.width as u64) <= 4294967295 * 4294967295) by (nonlinear_arith)
            requires
                yu <= 4294967295,
                mask.width <= 4294967295,
        ;
    }
    let index: u64 = yu * mask.width as u64 + xu;
    if index >= mask.cells.len() as u64 {
        return None;
    }
    Some(index as usize)
}

/// The material at cell `(x, y)`; anything outside the stored grid reads as empty.
pub fn material_at(mask: &TerrainMask, x: i32, y: i32) -> (material: Material)
    ensures
        material == mask.spec_material_at(x as int, y as int),
{
    match cell_index(mask, x, y) {
        Some(index) => Material::from_code(mask.cells[index]),
        None => Material::Empty,
    }
}

/// Writes `material` into cell `(x, y)`. Returns whether the cell exists; nothing changes
/// when it does not.
pub fn set_material(mask: &mut TerrainMask, x: i32, y: i32, material: Material) -> (written: bool)
    ensures
        final(mask).width == old(mask).width,
        final(mask).height == old(mask).height,
        written == (spec_in_bounds(old(mask).width as int, old(mask).height as int, x as int, y as int)
            && y * old(mask).width + x < old(mask).cells.len()),
        written ==> final(mask).cells@ == old(mask).cells@.update(
            y * old(mask).width + x,
            spec_material_code(material),
        ),
        !written ==> final(mask).cells@ == old(mask).cells@,
{
    match cell_index(mask, x, y) {
        Some(index) => {
            let code = material.code();
            mask.cells.set(index, code);
            true
        },
        None => false,
    }
}

/// Whether the cell containing `point` is solid.
pub fn is_solid_at(mask: &TerrainMask, point: FixedPoint) -> (solid: bool)
    ensures
        solid == mask.spec_is_solid_at(point),
{
    let (x, y) = point.to_cells();
    material_at(mask, x, y).is_solid()
}

/// Exact circle membership in cell coordinates.
fn in_circle(cx: i64, cy: i64, r: i64, x: i64, y: i64) -> (inside: bool)
    requires
        -4_194_304 <= cx <= 4_194_304,
        -4_194_304 <= cy <= 4_194_304,
        -4_294_967_296 <= x <= 4_294_967_296,
        -4_294_967_296 <= y <= 4_294_967_296,
        0 <= r <= 65_535,
    ensures
        inside == spec_in_circle(cx as int, cy as int, r as int, x as int, y as int),
{
    let dx: i128 = x as i128 - cx as i128;
    let dy: i128 = y as i128 - cy as i128;
    let r_wide: i128 = r as i128;
    proof {
        assert(0 <= dx * dx <= 8589934592 * 8589934592) by (nonlinear_arith)
            requires
                -8589934592 <= dx <= 8589934592,
        ;
        assert(0 <= dy * dy <= 8589934592 * 8589934592) by (nonlinear_arith)
            requires
                -8589934592 <= dy <= 8589934592,
        ;
        assert(0 <= r_wide * r_wide <= 65535 * 65535) by (nonlinear_arith)
            requires
                0 <= r_wide <= 65535,
        ;
    }
    dx * dx + dy * dy <= r_wide * r_wide
}

/// Exact capsule membership in cell coordinates; see [`spec_in_capsule`].
fn in_capsule(ax: i64, ay: i64, bx: i64, by: i64, r: i64, x: i64, y: i64) -> (inside: bool)
    requires
        -4_194_304 <= ax <= 4_194_304,
        -4_194_304 <= ay <= 4_194_304,
        -4_194_304 <= bx <= 4_194_304,
        -4_194_304 <= by <= 4_194_304,
        -4_294_967_296 <= x <= 4_294_967_296,
        -4_294_967_296 <= y <= 4_294_967_296,
        0 <= r <= 65_535,
    ensures
        inside == spec_in_capsule(
            ax as int,
            ay as int,
            bx as int,
            by as int,
            r as int,
            x as int,
            y as int,
        ),
{
    let wx: i128 = x as i128 - ax as i128;
    let wy: i128 = y as i128 - ay as i128;
    let dx: i128 = bx as i128 - ax as i128;
    let dy: i128 = by as i128 - ay as i128;
    // |w| components stay below 2^33 and |d| components below 2^23, so every product below
    // is under 2^116.
    proof {
        assert(-8589934592 * 8388608 <= wx * dx <= 8589934592 * 8388608) by (nonlinear_arith)
            requires
                -8589934592 <= wx <= 8589934592,
                -8388608 <= dx <= 8388608,
        ;
        assert(-8589934592 * 8388608 <= wy * dy <= 8589934592 * 8388608) by (nonlinear_arith)
            requires
                -8589934592 <= wy <= 8589934592,
                -8388608 <= dy <= 8388608,
        ;
        assert(0 <= dx * dx <= 8388608 * 8388608) by (nonlinear_arith)
            requires
                -8388608 <= dx <= 8388608,
        ;
        assert(0 <= dy * dy <= 8388608 * 8388608) by (nonlinear_arith)
            requires
                -8388608 <= dy <= 8388608,
        ;
    }
    let dd: i128 = dx * dx + dy * dy;
    let wd: i128 = wx * dx + wy * dy;
    if dd == 0 || wd <= 0 {
        return in_circle(ax, ay, r, x, y);
    }
    if wd >= dd {
        return in_circle(bx, by, r, x, y);
    }
    let r_wide: i128 = r as i128;
    proof {
        assert(0 <= wx * wx <= 8589934592 * 8589934592) by (nonlinear_arith)
            requires
                -8589934592 <= wx <= 8589934592,
        ;
        assert(0 <= wy * wy <= 8589934592 * 8589934592) by (nonlinear_arith)
            requires
                -8589934592 <= wy <= 8589934592,
        ;
        let ww = wx * wx + wy * wy;
        let big: int = 147573952589676412928int;
        let small: int = 140737488355328int;
        assert(0 <= ww * dd <= big * small) by (nonlinear_arith)
            requires
                0 <= ww <= big,
                0 <= dd <= small,
        ;
        assert(0 <= wd * wd <= small * small) by (nonlinear_arith)
            requires
                0 <= wd <= small,
        ;
        assert(0 <= r_wide * r_wide <= 65535 * 65535) by (nonlinear_arith)
            requires
                0 <= r_wide <= 65535,
        ;
        assert(0 <= (r_wide * r_wide) * dd <= (65535 * 65535) * small) by (nonlinear_arith)
            requires
                0 <= r_wide * r_wide <= 65535 * 65535,
                0 <= dd <= small,
        ;
    }
    let ww: i128 = wx * wx + wy * wy;
    let rr: i128 = r_wide * r_wide;
    ww * dd - wd * wd <= rr * dd
}

/// Whether `shape` covers cell `(x, y)`.
fn in_shape(shape: &TerrainShape, x: i64, y: i64) -> (inside: bool)
    requires
        0 <= x <= 4_294_967_296,
        0 <= y <= 4_294_967_296,
    ensures
        inside == spec_in_shape(*shape, x as int, y as int),
{
    match shape {
        TerrainShape::SubtractCircle { center, radius_cells } => {
            let (cx, cy) = center.to_cells();
            in_circle(cx as i64, cy as i64, *radius_cells as i64, x, y)
        },
        TerrainShape::SubtractCapsule { start, end, radius_cells } => {
            let (ax, ay) = start.to_cells();
            let (bx, by) = end.to_cells();
            in_capsule(ax as i64, ay as i64, bx as i64, by as i64, *radius_cells as i64, x, y)
        },
    }
}

/// Applies `operation`: every covered cell whose material the operation's mask removes
/// becomes empty. Returns how many cells changed (saturating at `u32::MAX`).
pub fn apply_operation(mask: &mut TerrainMask, operation: &TerrainOperation) -> (removed: u32)
    ensures
        final(mask).width == old(mask).width,
        final(mask).height == old(mask).height,
        final(mask).cells@ == spec_after_operation(
            old(mask).cells@,
            old(mask).width as int,
            old(mask).width * old(mask).height,
            *operation,
        ),
        removed as int == if spec_removed_count(
            old(mask).cells@,
            old(mask).width as int,
            old(mask).width * old(mask).height,
            *operation,
            old(mask).cells.len() as int,
        ) > u32::MAX {
            u32::MAX as int
        } else {
            spec_removed_count(
                old(mask).cells@,
                old(mask).width as int,
                old(mask).width * old(mask).height,
                *operation,
                old(mask).cells.len() as int,
            ) as int
        },
{
    let ghost initial = mask.cells@;
    let ghost width = mask.width as int;
    let ghost cell_count = mask.width * mask.height;
    let len = mask.cells.len();
    let width_u: u64 = mask.width as u64;
    proof {
        assert(mask.width * mask.height <= 4294967295 * 4294967295) by (nonlinear_arith)
            requires
                mask.width <= 4294967295,
                mask.height <= 4294967295,
        ;
    }
    let grid: u64 = mask.width as u64 * mask.height as u64;
    let mut count: u64 = 0;
    let mut i: usize = 0;
    while i < len
        invariant
            i <= len,
            len == initial.len(),
            mask.cells.len() == len,
            mask.width == old(mask).width,
            mask.height == old(mask).height,
            initial == old(mask).cells@,
            width == mask.width as int,
            width_u == mask.width,
            grid as int == cell_count,
            cell_count == mask.width * mask.height,
            count as int == spec_removed_count(initial, width, cell_count, *operation, i as int),
            count <= i,
            forall|j: int|
                0 <= j < i ==> mask.cells[j] == spec_after_operation(
                    initial,
                    width,
                    cell_count,
                    *operation,
                )[j],
            forall|j: int| i <= j < len ==> mask.cells[j] == initial[j],
        decreases len - i,
    {
        let index: u64 = i as u64;
        let mut remove = false;
        if index < grid && width_u > 0 {
            let x: u64 = index % width_u;
            let y: u64 = index / width_u;
            proof {
                assert(y <= index) by (nonlinear_arith)
                    requires
                        width_u >= 1,
                        y == index / width_u,
                ;
                assert(x < width_u) by (nonlinear_arith)
                    requires
                        x == index % width_u,
                        width_u >= 1,
                ;
                assert(y < mask.height) by (nonlinear_arith)
                    requires
                        y == index / width_u,
                        index < width_u * mask.height,
                        width_u >= 1,
                ;
            }
            let material = Material::from_code(mask.cells[i]);
            if operation.material_mask.removes(material) && in_shape(
                &operation.shape,
                x as i64,
                y as i64,
            ) {
                remove = true;
            }
        }
        proof {
            assert(remove == spec_removes_cell(initial, width, cell_count, *operation, i as int));
        }
        if remove {
            mask.cells.set(i, 0u8);
            count = count + 1;
        }
        i = i + 1;
    }
    proof {
        assert(mask.cells@ =~= spec_after_operation(initial, width, cell_count, *operation));
    }
    if count > u32::MAX as u64 {
        u32::MAX
    } else {
        count as u32
    }
}

/// A terrain operation only ever empties cells: every cell after it is either unchanged or
/// empty, and a cell it empties held a material its mask removes.
pub proof fn lemma_operation_only_empties(
    cells: Seq<u8>,
    width: int,
    cell_count: int,
    operation: TerrainOperation,
)
    ensures
        forall|i: int|
            0 <= i < cells.len() ==> {
                let after = #[trigger] spec_after_operation(cells, width, cell_count, operation)[i];
                after == cells[i] || (after == 0 && operation.material_mask.spec_removes(
                    spec_material_from_code(cells[i]),
                ))
            },
{
}

/// A soft operation spares reinforced stone: every cell that is neither soil nor wood keeps
/// its material.
pub proof fn lemma_soft_spares_reinforced(
    cells: Seq<u8>,
    width: int,
    cell_count: int,
    operation: TerrainOperation,
)
    requires
        operation.material_mask == MaterialMask::Soft,
    ensures
        forall|i: int|
            0 <= i < cells.len() && spec_material_from_code(cells[i]) != Material::Soil
                && spec_material_from_code(cells[i]) != Material::Wood ==> #[trigger] spec_after_operation(
                cells,
                width,
                cell_count,
                operation,
            )[i] == cells[i],
{
}

/// Repeating an operation changes nothing more: the second application leaves the cells as
/// the first left them and removes no cell.
pub proof fn lemma_operation_idempotent(
    cells: Seq<u8>,
    width: int,
    cell_count: int,
    operation: TerrainOperation,
)
    ensures
        spec_after_operation(spec_after_operation(cells, width, cell_count, operation), width, cell_count, operation)
            == spec_after_operation(cells, width, cell_count, operation),
        spec_removed_count(
            spec_after_operation(cells, width, cell_count, operation),
            width,
            cell_count,
            operation,
            cells.len() as int,
        ) == 0,
{
    let once = spec_after_operation(cells, width, cell_count, operation);
    assert forall|i: int| 0 <= i < once.len() implies !spec_removes_cell(
        once,
        width,
        cell_count,
        operation,
        i,
    ) by {
        if spec_removes_cell(cells, width, cell_count, operation, i) {
            assert(once[i] == 0u8);
            assert(spec_material_from_code(once[i]) == Material::Empty);
        } else {
            assert(once[i] == cells[i]);
        }
    }
    assert(spec_after_operation(once, width, cell_count, operation) =~= once);
    lemma_no_removals(once, width, cell_count, operation, cells.len() as int);
}

proof fn lemma_no_removals(
    cells: Seq<u8>,
    width: int,
    cell_count: int,
    operation: TerrainOperation,
    n: int,
)
    requires
        n <= cells.len(),
        forall|i: int| 0 <= i < cells.len() ==> !spec_removes_cell(cells, width, cell_count, operation, i),
    ensures
        spec_removed_count(cells, width, cell_count, operation, n) == 0,
    decreases n,
{
    if n > 0 {
        lemma_no_removals(cells, width, cell_count, operation, n - 1);
    }
}

} // verus!

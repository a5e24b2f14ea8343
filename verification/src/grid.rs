//! Grid geometry: cell dims, face grids, cell indexing, and the shape of
//! the multigrid hierarchy built over a domain.
//!
//! Each multigrid level halves every axis still longer than one cell,
//! rounding up, down to 1×1×1. An axis that reaches 1 stops while the
//! others go on (semi-coarsening). A level's last cell along an axis may be
//! partial, covering only the fine cells left before the domain's edge.

use vstd::prelude::*;

verus! {

/// A grid's size in cells along x, y and z.
#[derive(Debug, Clone, Copy, PartialEq, Eq, Structural)]
pub struct FieldDims {
    pub x: u32,
    pub y: u32,
    pub z: u32,
}

/// One of the three axes.
#[derive(Debug, Clone, Copy, PartialEq, Eq, Structural)]
pub enum Axis {
    X,
    Y,
    Z,
}

impl Axis {
    /// The axis's number: 0 for x, 1 for y, 2 for z.
    pub open spec fn spec_index(self) -> int {
        match self {
            Axis::X => 0,
            Axis::Y => 1,
            Axis::Z => 2,
        }
    }
}

/// The axis's number as the kernels' uniforms hold it: 0, 1 or 2.
pub fn axis_index(axis: Axis) -> (i: u32)
    ensures
        i == axis.spec_index(),
{
    match axis {
        Axis::X => 0,
        Axis::Y => 1,
        Axis::Z => 2,
    }
}

/// The longest an axis may be for the hierarchy's cell scales to fit a `u32`.
pub const MAX_AXIS: u32 = 0x8000_0000;

impl FieldDims {
    pub fn new(x: u32, y: u32, z: u32) -> (d: Self)
        ensures
            d.x == x && d.y == y && d.z == z,
    {
        FieldDims { x, y, z }
    }

    /// The length along axis `a` (0, 1 or 2).
    pub open spec fn along(self, a: int) -> u32 {
        if a == 0 { self.x } else if a == 1 { self.y } else { self.z }
    }

    pub open spec fn spec_voxel_count(self) -> nat {
        self.x as nat * self.y as nat * self.z as nat
    }

    /// The number of cells.
    pub fn voxel_count(&self) -> (n: u128)
        ensures
            n == self.spec_voxel_count(),
    {
        proof {
            assert((self.x as int) * (self.y as int) <= u64::MAX) by (nonlinear_arith)
                requires self.x <= u32::MAX, self.y <= u32::MAX, self.x >= 0, self.y >= 0;
        }
        let xy = (self.x as u64) * (self.y as u64);
        proof {
            assert(xy * (self.z as int) <= u64::MAX as int * u32::MAX as int) by (nonlinear_arith)
                requires xy <= u64::MAX, self.z <= u32::MAX;
        }
        (xy as u128) * (self.z as u128)
    }

    /// Whether every axis is at most one cell long: the coarsest level.
    pub open spec fn is_unit(self) -> bool {
        self.x <= 1 && self.y <= 1 && self.z <= 1
    }

    /// The sum of the axes, which every coarsening step lowers.
    pub open spec fn extent(self) -> nat {
        self.x as nat + self.y as nat + self.z as nat
    }
}

/// The texel dims of the grid of faces normal to `axis`: one longer along
/// that axis than the cells.
pub open spec fn spec_face_dims(cells: FieldDims, axis: Axis) -> FieldDims {
    match axis {
        Axis::X => FieldDims { x: (cells.x + 1) as u32, ..cells },
        Axis::Y => FieldDims { y: (cells.y + 1) as u32, ..cells },
        Axis::Z => FieldDims { z: (cells.z + 1) as u32, ..cells },
    }
}

/// The grid of faces normal to `axis` for a domain of `cells`.
pub fn face_dims(cells: FieldDims, axis: Axis) -> (d: FieldDims)
    requires
        cells.x < u32::MAX && cells.y < u32::MAX && cells.z < u32::MAX,
    ensures
        d == spec_face_dims(cells, axis),
{
    match axis {
        Axis::X => FieldDims { x: cells.x + 1, ..cells },
        Axis::Y => FieldDims { y: cells.y + 1, ..cells },
        Axis::Z => FieldDims { z: cells.z + 1, ..cells },
    }
}

/// The index of cell (i, j, k) in an x-fastest array of `dims`.
pub open spec fn spec_cell_index(dims: FieldDims, i: nat, j: nat, k: nat) -> nat {
    i + dims.x as nat * (j + dims.y as nat * k)
}

/// The index of cell (i, j, k) in an x-fastest array of `dims`.
pub fn cell_index(dims: FieldDims, i: u32, j: u32, k: u32) -> (n: u128)
    requires
        i < dims.x && j < dims.y && k < dims.z,
    ensures
        n == spec_cell_index(dims, i as nat, j as nat, k as nat),
        n < dims.spec_voxel_count(),
{
    let x = dims.x as u128;
    let y = dims.y as u128;
    proof {
        let (xi, yi, zi) = (dims.x as int, dims.y as int, dims.z as int);
        assert((j as int) + yi * (k as int) < yi * zi) by (nonlinear_arith)
            requires j < yi, k < zi, k >= 0, j >= 0;
        assert((i as int) + xi * ((j as int) + yi * (k as int)) < xi * (yi * zi)) by (nonlinear_arith)
            requires i < xi, (j as int) + yi * (k as int) < yi * zi, i >= 0, j >= 0, k >= 0, yi >= 0;
        assert(xi * (yi * zi) == xi * yi * zi) by (nonlinear_arith);
        assert(xi * yi * zi <= 0xffff_ffff_ffff_ffff_ffff_ffff) by (nonlinear_arith)
            requires 0 <= xi <= u32::MAX, 0 <= yi <= u32::MAX, 0 <= zi <= u32::MAX;
        assert(yi * (k as int) <= yi * zi) by (nonlinear_arith) requires k < zi, yi >= 0, k >= 0;
        assert(xi * ((j as int) + yi * (k as int)) <= xi * (yi * zi)) by (nonlinear_arith)
            requires (j as int) + yi * (k as int) < yi * zi, xi >= 0;
        assert(yi * zi <= 0xffff_ffff_ffff_ffff) by (nonlinear_arith)
            requires 0 <= yi <= u32::MAX, 0 <= zi <= u32::MAX;
    }
    (i as u128) + x * ((j as u128) + y * (k as u128))
}

/// One axis of the next level: halved, rounding up, while longer than 1.
pub open spec fn halve_axis(n: u32) -> u32 {
    if n > 1 { ((n as nat + 1) / 2) as u32 } else { n }
}

pub open spec fn spec_halve(d: FieldDims) -> FieldDims {
    FieldDims { x: halve_axis(d.x), y: halve_axis(d.y), z: halve_axis(d.z) }
}

/// The next multigrid level: every axis longer than 1 halved, rounding up.
pub fn halve(dims: FieldDims) -> (h: FieldDims)
    ensures
        h == spec_halve(dims),
{
    FieldDims { x: halve_one(dims.x), y: halve_one(dims.y), z: halve_one(dims.z) }
}

fn halve_one(n: u32) -> (h: u32)
    ensures
        h == halve_axis(n),
{
    if n > 1 { n / 2 + n % 2 } else { n }
}

/// Halving leaves a grid unchanged exactly when it is already the
/// coarsest, one cell (or none) along every axis; otherwise it shrinks.
pub proof fn lemma_halve_fixed_point(d: FieldDims)
    ensures
        spec_halve(d) == d <==> d.is_unit(),
        !d.is_unit() ==> spec_halve(d).extent() < d.extent(),
{
}

/// A power of two.
pub open spec fn is_pow2(s: nat) -> bool
    decreases s,
{
    if s == 1 { true } else if s < 2 || s % 2 == 1 { false } else { is_pow2(s / 2) }
}

/// `c` cells of `s` fine cells each cover a fine axis of `n` cells, the
/// last cell possibly partial: (c − 1)·s < n ≤ c·s, so c = ⌈n / s⌉.
pub open spec fn covers(n: nat, c: nat, s: nat) -> bool {
    (c - 1) * s < n && n <= c * s
}

/// One level of the hierarchy: its cells, and how many fine cells one of
/// its cells spans along each axis.
#[derive(Debug, Clone, Copy, PartialEq, Eq, Structural)]
pub struct LevelShape {
    pub cells: FieldDims,
    pub scale: FieldDims,
}

/// One coarsening step's scale: doubled on each axis the step halved.
pub open spec fn next_scale(from: FieldDims, to: FieldDims, s: FieldDims) -> FieldDims {
    FieldDims {
        x: if from.x == to.x { s.x } else { (2 * s.x) as u32 },
        y: if from.y == to.y { s.y } else { (2 * s.y) as u32 },
        z: if from.z == to.z { s.z } else { (2 * s.z) as u32 },
    }
}

/// What every level of a hierarchy over `fine` satisfies along axis `a`.
pub open spec fn level_axis_ok(fine: FieldDims, level: LevelShape, a: int) -> bool {
    &&& is_pow2(level.scale.along(a) as nat)
    &&& fine.along(a) >= 1 ==> covers(fine.along(a) as nat, level.cells.along(a) as nat, level.scale.along(a) as nat)
    &&& fine.along(a) >= 1 ==> level.cells.along(a) >= 1
    &&& fine.along(a) == 0 ==> level.cells.along(a) == 0
}

pub open spec fn level_ok(fine: FieldDims, level: LevelShape) -> bool {
    level_axis_ok(fine, level, 0) && level_axis_ok(fine, level, 1) && level_axis_ok(fine, level, 2)
}

/// One coarsening step keeps an axis's covering: ⌈⌈n/s⌉/2⌉ = ⌈n/2s⌉.
proof fn lemma_covers_step(n: nat, c: nat, s: nat)
    requires
        n >= 1,
        s >= 1,
        c > 1,
        covers(n, c, s),
    ensures
        covers(n, (c + 1) / 2, 2 * s),
{
    let h = (c + 1) / 2;
    assert(2 * (h - 1) <= c - 1);
    assert(c <= 2 * h);
    assert((h - 1) * (2 * s) <= (c - 1) * s) by (nonlinear_arith)
        requires 2 * (h - 1) <= c - 1, s >= 1, h >= 1;
    assert(c * s <= h * (2 * s)) by (nonlinear_arith)
        requires c <= 2 * h, s >= 1;
}

/// A covering with more than one cell needs a scale below the axis length.
proof fn lemma_scale_below(n: nat, c: nat, s: nat)
    requires
        c > 1,
        s >= 1,
        covers(n, c, s),
    ensures
        s < n,
{
    assert(s <= (c - 1) * s) by (nonlinear_arith)
        requires c > 1, s >= 1;
}

proof fn lemma_axis_step(fine: FieldDims, level: LevelShape, next: LevelShape, a: int)
    requires
        0 <= a < 3,
        fine.along(a) <= MAX_AXIS,
        level_axis_ok(fine, level, a),
        next.cells == spec_halve(level.cells),
        next.scale == next_scale(level.cells, next.cells, level.scale),
    ensures
        level_axis_ok(fine, next, a),
        level.cells.along(a) > 1 ==> 2 * level.scale.along(a) <= u32::MAX,
{
    let n = fine.along(a) as nat;
    let c = level.cells.along(a) as nat;
    let s = level.scale.along(a) as nat;
    assert(is_pow2(s));
    if c > 1 {
        assert(n >= 1);
        lemma_pow2_positive(s);
        lemma_covers_step(n, c, s);
        lemma_scale_below(n, c, s);
        assert(is_pow2(2 * s)) by {
            assert((2 * s) % 2 == 0);
            assert((2 * s) / 2 == s);
        }
        assert(next.cells.along(a) == (c + 1) / 2);
        assert(next.scale.along(a) == 2 * s);
    } else {
        assert(next.cells.along(a) == level.cells.along(a));
        assert(next.scale.along(a) == level.scale.along(a));
    }
}

proof fn lemma_pow2_positive(s: nat)
    requires
        is_pow2(s),
    ensures
        s >= 1,
{
}

/// The levels of the multigrid hierarchy over a domain of `fine` cells,
/// the fine level first: each next level is `halve` of the one before,
/// until halving changes nothing. Each level's scale doubles on exactly
/// the axes its step halved, so a level's cell spans a power of two of fine
/// cells along each axis and its cells cover the fine axis, the last one
/// possibly partial.
pub fn level_shapes(fine: FieldDims) -> (levels: Vec<LevelShape>)
    requires
        fine.x <= MAX_AXIS && fine.y <= MAX_AXIS && fine.z <= MAX_AXIS,
    ensures
        levels.len() >= 1,
        levels[0] == (LevelShape { cells: fine, scale: FieldDims { x: 1, y: 1, z: 1 } }),
        forall|l: int| 0 <= l < levels.len() - 1 ==> {
            &&& #[trigger] levels[l + 1].cells == spec_halve(levels[l].cells)
            &&& levels[l + 1].cells != levels[l].cells
            &&& levels[l + 1].scale == next_scale(levels[l].cells, levels[l + 1].cells, levels[l].scale)
        },
        spec_halve(levels[levels.len() - 1].cells) == levels[levels.len() - 1].cells,
        levels[levels.len() - 1].cells.is_unit(),
        fine.x >= 1 && fine.y >= 1 && fine.z >= 1 ==> levels[levels.len() - 1].cells == (FieldDims {
            x: 1,
            y: 1,
            z: 1,
        }),
        forall|l: int| 0 <= l < levels.len() ==> level_ok(fine, #[trigger] levels[l]),
{
    let first = LevelShape { cells: fine, scale: FieldDims { x: 1, y: 1, z: 1 } };
    let mut levels: Vec<LevelShape> = Vec::new();
    levels.push(first);
    let mut cur = first;
    proof {
        assert(is_pow2(1));
        assert(level_ok(fine, first));
    }
    loop
        invariant
            fine.x <= MAX_AXIS && fine.y <= MAX_AXIS && fine.z <= MAX_AXIS,
            levels.len() >= 1,
            levels[0] == first,
            first == (LevelShape { cells: fine, scale: FieldDims { x: 1, y: 1, z: 1 } }),
            cur == levels[levels.len() - 1],
            forall|l: int| 0 <= l < levels.len() - 1 ==> {
                &&& #[trigger] levels[l + 1].cells == spec_halve(levels[l].cells)
                &&& levels[l + 1].cells != levels[l].cells
                &&& levels[l + 1].scale == next_scale(levels[l].cells, levels[l + 1].cells, levels[l].scale)
            },
            forall|l: int| 0 <= l < levels.len() ==> level_ok(fine, #[trigger] levels[l]),
        ensures
            levels.len() >= 1,
            levels[0] == first,
            forall|l: int| 0 <= l < levels.len() - 1 ==> {
                &&& #[trigger] levels[l + 1].cells == spec_halve(levels[l].cells)
                &&& levels[l + 1].cells != levels[l].cells
                &&& levels[l + 1].scale == next_scale(levels[l].cells, levels[l + 1].cells, levels[l].scale)
            },
            spec_halve(levels[levels.len() - 1].cells) == levels[levels.len() - 1].cells,
            forall|l: int| 0 <= l < levels.len() ==> level_ok(fine, #[trigger] levels[l]),
        decreases cur.cells.extent(),
    {
        let next = halve(cur.cells);
        if next == cur.cells {
            break;
        }
        proof {
            lemma_halve_fixed_point(cur.cells);
            assert(level_ok(fine, levels[levels.len() - 1]));
        }
        let ghost nshape = LevelShape {
            cells: next,
            scale: next_scale(cur.cells, next, cur.scale),
        };
        proof {
            lemma_axis_step(fine, cur, nshape, 0);
            lemma_axis_step(fine, cur, nshape, 1);
            lemma_axis_step(fine, cur, nshape, 2);
        }
        let scale = FieldDims {
            x: if next.x == cur.cells.x { cur.scale.x } else { 2 * cur.scale.x },
            y: if next.y == cur.cells.y { cur.scale.y } else { 2 * cur.scale.y },
            z: if next.z == cur.cells.z { cur.scale.z } else { 2 * cur.scale.z },
        };
        let shape = LevelShape { cells: next, scale };
        assert(shape == nshape);
        let ghost prev = levels@;
        levels.push(shape);
        cur = shape;
        proof {
            assert forall|l: int| 0 <= l < levels.len() - 1 implies {
                &&& #[trigger] levels[l + 1].cells == spec_halve(levels[l].cells)
                &&& levels[l + 1].cells != levels[l].cells
                &&& levels[l + 1].scale == next_scale(levels[l].cells, levels[l + 1].cells, levels[l].scale)
            } by {
                if l < levels.len() - 2 {
                    assert(levels[l] == prev[l] && levels[l + 1] == prev[l + 1]);
                }
            }
            assert forall|l: int| 0 <= l < levels.len() implies level_ok(fine, #[trigger] levels[l]) by {
                if l < levels.len() - 1 {
                    assert(levels[l] == prev[l]);
                }
            }
        }
    }
    proof {
        lemma_halve_fixed_point(levels[levels.len() - 1].cells);
        if fine.x >= 1 && fine.y >= 1 && fine.z >= 1 {
            lemma_coarsest_is_one_cell(fine, levels[levels.len() - 1]);
        }
    }
    levels
}

/// Over a domain at least one cell long on every axis, a level that
/// halving leaves unchanged and that keeps the covering is one cell.
pub proof fn lemma_coarsest_is_one_cell(fine: FieldDims, level: LevelShape)
    requires
        fine.x >= 1 && fine.y >= 1 && fine.z >= 1,
        level_ok(fine, level),
        spec_halve(level.cells) == level.cells,
    ensures
        level.cells == (FieldDims { x: 1, y: 1, z: 1 }),
{
    lemma_halve_fixed_point(level.cells);
    assert(fine.along(0) == fine.x && fine.along(1) == fine.y && fine.along(2) == fine.z);
    assert(level.cells.along(0) == level.cells.x && level.cells.along(1) == level.cells.y
        && level.cells.along(2) == level.cells.z);
}

} // verus!

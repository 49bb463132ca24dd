//! Grid indices and fixed-point 2-D vectors, with the segment-distance
//! helper the force model and the rasterizer build on.

use vstd::prelude::*;

use crate::fixed::{div_floor, div_floor_i128, exp_neg, is_sqrt, isqrt, lemma_div_bound, lemma_mul_bounds, sqrt_floor, FAR, SCALE};
use crate::grid::ScalarGrid;
use crate::rng::rand_below;

verus! {

/// Grid cell index (column `x`, row `y`); signed so neighbor offsets of
/// border cells stay representable.
#[derive(Debug, Default, Clone, Copy, PartialEq, Eq, Structural)]
pub struct Index {
    pub y: i32,
    pub x: i32,
}

impl Index {
    pub fn new(x: i32, y: i32) -> (r: Index)
        ensures
            r.x == x,
            r.y == y,
    {
        Index { x, y }
    }

    pub fn add(self, x: i32, y: i32) -> (r: Index)
        requires
            -0x40000000 <= self.x + x <= 0x40000000,
            -0x40000000 <= self.y + y <= 0x40000000,
        ensures
            r.x == self.x + x,
            r.y == self.y + y,
    {
        Index { x: self.x + x, y: self.y + y }
    }

    /// Whether the index lies inside a grid of shape `(rows, cols)`.
    pub fn is_inside(self, shape: (usize, usize)) -> (r: bool)
        ensures
            r == (0 <= self.x < shape.1 && 0 <= self.y < shape.0),
    {
        self.x >= 0 && (self.x as u64) < (shape.1 as u64) && self.y >= 0 && (self.y as u64)
            < (shape.0 as u64)
    }
}

/// A 2-D vector of fixed-point scalars.
#[derive(Debug, Default, Clone, Copy, PartialEq, Eq, Structural)]
pub struct Vec2Fx {
    pub x: i64,
    pub y: i64,
}

impl Vec2Fx {
    /// Both components within `b` in magnitude.
    pub open spec fn bounded_by(self, b: int) -> bool {
        -b <= self.x <= b && -b <= self.y <= b
    }

    /// The standard operating range of a world coordinate.
    pub open spec fn bounded(self) -> bool {
        self.bounded_by(FAR as int)
    }

    /// Squared Euclidean length, exact.
    pub open spec fn spec_len_sq(self) -> int {
        self.x * self.x + self.y * self.y
    }

    /// Euclidean length rounded down.
    pub open spec fn spec_len(self) -> int {
        sqrt_floor(self.spec_len_sq())
    }

    pub fn new(x: i64, y: i64) -> (r: Vec2Fx)
        ensures
            r == (Vec2Fx { x, y }),
    {
        Vec2Fx { x, y }
    }

    pub fn zero() -> (r: Vec2Fx)
        ensures
            r == (Vec2Fx { x: 0, y: 0 }),
    {
        Vec2Fx { x: 0, y: 0 }
    }

    pub fn add(self, o: Vec2Fx) -> (r: Vec2Fx)
        requires
            self.bounded_by(0x2000000000000000),
            o.bounded_by(0x2000000000000000),
        ensures
            r == (Vec2Fx { x: (self.x + o.x) as i64, y: (self.y + o.y) as i64 }),
    {
        Vec2Fx { x: self.x + o.x, y: self.y + o.y }
    }

    pub fn sub(self, o: Vec2Fx) -> (r: Vec2Fx)
        requires
            self.bounded_by(0x2000000000000000),
            o.bounded_by(0x2000000000000000),
        ensures
            r == (Vec2Fx { x: (self.x - o.x) as i64, y: (self.y - o.y) as i64 }),
    {
        Vec2Fx { x: self.x - o.x, y: self.y - o.y }
    }

    /// Exact dot product, wide.
    pub fn dot(self, o: Vec2Fx) -> (r: i128)
        requires
            self.bounded_by(0x2000000000000000),
            o.bounded_by(0x2000000000000000),
        ensures
            r == self.x * o.x + self.y * o.y,
    {
        proof {
            assert(-0x4000000000000000000000000000000 <= self.x * o.x
                <= 0x4000000000000000000000000000000 && -0x4000000000000000000000000000000
                <= self.y * o.y <= 0x4000000000000000000000000000000) by (nonlinear_arith)
                requires
                    self.bounded_by(0x2000000000000000),
                    o.bounded_by(0x2000000000000000);
        }
        (self.x as i128) * (o.x as i128) + (self.y as i128) * (o.y as i128)
    }

    /// Squared length, wide and exact.
    pub fn length_squared(self) -> (r: i128)
        requires
            self.bounded_by(0x2000000000000000),
        ensures
            r == self.spec_len_sq(),
    {
        self.dot(self)
    }

    /// Euclidean length, rounded down.
    pub fn length(self) -> (r: i64)
        requires
            self.bounded_by(0x100000000000000),
        ensures
            r == self.spec_len(),
            is_sqrt(self.spec_len_sq(), r as int),
            r >= 0,
    {
        let sq = self.length_squared();
        proof {
            assert(0 <= sq <= 0x20000000000000000000000000000) by (nonlinear_arith)
                requires
                    sq == self.x * self.x + self.y * self.y,
                    self.bounded_by(0x100000000000000);
        }
        let r = isqrt(sq as u128);
        proof {
            assert(sq as u128 as int == self.spec_len_sq());
            assert(r as int <= 0x200000000000000) by (nonlinear_arith)
                requires
                    (r as int) * (r as int) <= 0x20000000000000000000000000000int;
        }
        r as i64
    }

    /// The unit direction of `self`, scaled by `SCALE`; the zero vector when
    /// `self` has length zero (a degenerate input must not fail).
    pub fn normalize_or_zero(self) -> (r: Vec2Fx)
        requires
            self.bounded_by(0x100000000000000),
        ensures
            r == spec_normalize_or_zero(self),
            r.bounded_by(SCALE as int),
    {
        let len = self.length();
        if len == 0 {
            Vec2Fx { x: 0, y: 0 }
        } else {
            proof {
                lemma_len_dominates_components(self, len as int);
                assert(-(len as int) * SCALE <= self.x * SCALE <= (len as int) * SCALE && -(
                len as int) * SCALE <= self.y * SCALE <= (len as int) * SCALE)
                    by (nonlinear_arith)
                    requires
                        len > 0,
                        -len <= self.x <= len,
                        -len <= self.y <= len;
                lemma_div_bound(self.x * SCALE, len as int, SCALE as int);
                lemma_div_bound(self.y * SCALE, len as int, SCALE as int);
            }
            let rx = div_floor_i128((self.x as i128) * (SCALE as i128), len as i128);
            let ry = div_floor_i128((self.y as i128) * (SCALE as i128), len as i128);
            Vec2Fx { x: rx as i64, y: ry as i64 }
        }
    }

    /// Clamp the vector's length to at most `max`, keeping its direction.
    pub fn clamp_length_max(self, max: i64) -> (r: Vec2Fx)
        requires
            self.bounded_by(0x100000000000000),
            0 <= max <= 0x100000000000000,
        ensures
            r == spec_clamp_len(self, max as int),
            r.bounded_by(max as int),
    {
        let len = self.length();
        if len <= max {
            proof {
                lemma_len_dominates_components(self, len as int);
            }
            self
        } else {
            proof {
                lemma_len_dominates_components(self, len as int);
                assert(-((max as int) * (len as int)) <= self.x * max <= (max as int) * (
                len as int) && -((max as int) * (len as int)) <= self.y * max <= (max as int) * (
                len as int)) by (nonlinear_arith)
                    requires
                        len > 0,
                        0 <= max,
                        -len <= self.x <= len,
                        -len <= self.y <= len;
                lemma_div_bound(self.x * max, len as int, max as int);
                lemma_div_bound(self.y * max, len as int, max as int);
                crate::fixed::lemma_mul_bounds(
                    self.x as int,
                    max as int,
                    0x100000000000000,
                    0x100000000000000,
                );
                crate::fixed::lemma_mul_bounds(
                    self.y as int,
                    max as int,
                    0x100000000000000,
                    0x100000000000000,
                );
            }
            let rx = div_floor_i128((self.x as i128) * (max as i128), len as i128);
            let ry = div_floor_i128((self.y as i128) * (max as i128), len as i128);
            Vec2Fx { x: rx as i64, y: ry as i64 }
        }
    }

    /// Component-wise scaling by the ratio `num / SCALE`, rounded down.
    /// `num` is a fixed-point factor of at most 1024 units in magnitude.
    pub fn scale_ratio(self, num: i64) -> (r: Vec2Fx)
        requires
            self.bounded_by(2 * FAR as int),
            -0x100000 <= num <= 0x100000,
        ensures
            r == spec_scale_ratio(self, num as int),
            r.bounded_by(0x2000000000000000),
    {
        proof {
            assert(-0x2000000000000000 * (SCALE as int) <= self.x * num <= 0x2000000000000000 * (
            SCALE as int) && -0x2000000000000000 * (SCALE as int) <= self.y * num
                <= 0x2000000000000000 * (SCALE as int)) by (nonlinear_arith)
                requires
                    self.bounded_by(2 * FAR as int),
                    -0x100000 <= num <= 0x100000;
            lemma_div_bound(self.x * num, SCALE as int, 0x2000000000000000);
            lemma_div_bound(self.y * num, SCALE as int, 0x2000000000000000);
        }
        let x = div_floor_i128((self.x as i128) * (num as i128), SCALE as i128);
        let y = div_floor_i128((self.y as i128) * (num as i128), SCALE as i128);
        Vec2Fx { x: x as i64, y: y as i64 }
    }
}

/// `v` shortened to length `max` when it is longer, exact direction up to
/// the fixed-point rounding of the per-component scaling.
pub open spec fn spec_clamp_len(v: Vec2Fx, max: int) -> Vec2Fx {
    let len = v.spec_len();
    if len <= max {
        v
    } else {
        Vec2Fx { x: ((v.x * max) / len) as i64, y: ((v.y * max) / len) as i64 }
    }
}

/// `v * num / SCALE`, component-wise, rounded down.
pub open spec fn spec_scale_ratio(v: Vec2Fx, num: int) -> Vec2Fx {
    Vec2Fx { x: ((v.x * num) / (SCALE as int)) as i64, y: ((v.y * num) / (SCALE as int)) as i64 }
}

/// `v * SCALE / v.len`, or zero for a zero-length vector.
pub open spec fn spec_normalize_or_zero(v: Vec2Fx) -> Vec2Fx {
    let len = v.spec_len();
    if len == 0 {
        Vec2Fx { x: 0, y: 0 }
    } else {
        Vec2Fx { x: ((v.x * SCALE) / len) as i64, y: ((v.y * SCALE) / len) as i64 }
    }
}

/// The floor length of a vector is at least the magnitude of each component.
proof fn lemma_len_dominates_components(v: Vec2Fx, len: int)
    requires
        is_sqrt(v.spec_len_sq(), len),
    ensures
        -len <= v.x <= len,
        -len <= v.y <= len,
{
    assert(-len <= v.x <= len && -len <= v.y <= len) by (nonlinear_arith)
        requires
            0 <= len,
            len * len <= v.x * v.x + v.y * v.y,
            v.x * v.x + v.y * v.y < (len + 1) * (len + 1);
}

/// The vector from the closest point of segment `line` to `point`, exact up
/// to the fixed-point rounding of the projection parameter.
///
/// A zero-length segment degenerates gracefully to the vector from its one
/// point, `point - line[0]`; it never fails.
pub open spec fn spec_distance_from_line(point: Vec2Fx, l0: Vec2Fx, l1: Vec2Fx) -> Vec2Fx {
    let a = Vec2Fx { x: (point.x - l0.x) as i64, y: (point.y - l0.y) as i64 };
    let b = Vec2Fx { x: (l1.x - l0.x) as i64, y: (l1.y - l0.y) as i64 };
    if b.spec_len_sq() == 0 {
        a
    } else {
        let t0 = (a.x * b.x + a.y * b.y) * SCALE / b.spec_len_sq();
        let t = if t0 < 0 { 0int } else if t0 > SCALE { SCALE as int } else { t0 };
        Vec2Fx {
            x: (a.x - (t * b.x) / (SCALE as int)) as i64,
            y: (a.y - (t * b.y) / (SCALE as int)) as i64,
        }
    }
}

/// Distance vector from a line segment to a point: `point` minus the closest
/// point of the segment (the projection parameter is clamped to the segment).
pub fn distance_from_line(point: Vec2Fx, line: [Vec2Fx; 2]) -> (r: Vec2Fx)
    requires
        point.bounded(),
        line[0].bounded(),
        line[1].bounded(),
    ensures
        r == spec_distance_from_line(point, line[0], line[1]),
        r.bounded_by(4 * FAR as int),
{
    let a = point.sub(line[0]);
    let b = line[1].sub(line[0]);
    let b_len2 = b.length_squared();

    if b_len2 == 0 {
        a
    } else {
        let dot = a.dot(b);
        proof {
            assert(-0x1000000000000000000000000000000 < dot * (SCALE as int)
                < 0x1000000000000000000000000000000) by (nonlinear_arith)
                requires
                    dot == a.x * b.x + a.y * b.y,
                    a.bounded_by(2 * FAR as int),
                    b.bounded_by(2 * FAR as int);
            assert(b_len2 > 0) by (nonlinear_arith)
                requires
                    b_len2 == b.x * b.x + b.y * b.y,
                    b_len2 != 0;
        }
        let t0 = div_floor_i128(dot * (SCALE as i128), b_len2);
        let t: i64 = if t0 < 0 {
            0
        } else if t0 > SCALE as i128 {
            SCALE
        } else {
            t0 as i64
        };
        proof {
            assert(-(2 * FAR as int) * SCALE <= t * b.x <= (2 * FAR as int) * SCALE && -(2
                * FAR as int) * SCALE <= t * b.y <= (2 * FAR as int) * SCALE) by (nonlinear_arith)
                requires
                    0 <= t <= SCALE as int,
                    b.bounded_by(2 * FAR as int);
            lemma_div_bound(t * b.x, SCALE as int, 2 * FAR as int);
            lemma_div_bound(t * b.y, SCALE as int, 2 * FAR as int);
        }
        let sx = div_floor_i128((t as i128) * (b.x as i128), SCALE as i128);
        let sy = div_floor_i128((t as i128) * (b.y as i128), SCALE as i128);
        Vec2Fx { x: a.x - (sx as i64), y: a.y - (sy as i64) }
    }
}

/// Draw a Poisson-distributed count with mean `lambda` (fixed-point):
/// Knuth's product-of-uniforms method against the threshold
/// `exp(-lambda)`. Nothing can be promised of a random count beyond what
/// holds of every outcome: it is non-negative, zero when the rate is zero,
/// and never exceeds `SCALE` rejections.
pub fn poisson(lambda: i64, rng: &mut fastrand::Rng) -> (y: i32)
    requires
        0 <= lambda,
    ensures
        0 <= y <= SCALE,
        lambda == 0 ==> y == 0,
{
    let exp_lambda = exp_neg(lambda);
    let mut x = rand_below(rng, SCALE as u64) as i64;
    let mut y: i32 = 0;
    while x >= exp_lambda && x > 0
        invariant
            0 <= x < SCALE,
            0 <= y,
            x + y <= SCALE,
            lambda == 0 ==> exp_lambda == SCALE,
            lambda == 0 ==> y == 0,
        decreases x,
    {
        let u = rand_below(rng, SCALE as u64) as i64;
        proof {
            lemma_mul_bounds(x as int, u as int, SCALE as int, SCALE as int);
            assert((x as int) * (u as int) <= (x - 1) * (SCALE as int) + (SCALE as int - 1))
                by (nonlinear_arith)
                requires
                    1 <= x,
                    0 <= u <= SCALE as int - 1;
            vstd::arithmetic::div_mod::lemma_fundamental_div_mod_converse(
                (x - 1) * (SCALE as int) + (SCALE as int - 1),
                SCALE as int,
                x as int - 1,
                SCALE as int - 1,
            );
            vstd::arithmetic::div_mod::lemma_div_is_ordered(
                (x as int) * (u as int),
                (x - 1) * (SCALE as int) + (SCALE as int - 1),
                SCALE as int,
            );
            vstd::arithmetic::div_mod::lemma_div_pos_is_pos((x as int) * (u as int), SCALE as int);
        }
        x = (x * u) / SCALE;
        y = y + 1;
    }
    y
}

/// The four corner vertices of a segment widened to `width`: the segment's
/// two endpoints each offset by half the width along the perpendicular of
/// the segment direction. A zero-length segment yields the endpoints
/// themselves (the perpendicular falls back to zero), never an error.
pub fn line_with_width(line: [Vec2Fx; 2], width: i64) -> (r: Vec<Vec2Fx>)
    requires
        line[0].bounded(),
        line[1].bounded(),
        0 <= width <= 0x100000,
    ensures
        r@.len() == 4,
        ({
            let d = Vec2Fx {
                x: (line[1].x - line[0].x) as i64,
                y: (line[1].y - line[0].y) as i64,
            };
            let a = spec_normalize_or_zero(d);
            let b = spec_scale_ratio(Vec2Fx { x: a.y, y: (-a.x) as i64 }, width as int / 2);
            &&& r@[0] == (Vec2Fx { x: (line[0].x - b.x) as i64, y: (line[0].y - b.y) as i64 })
            &&& r@[1] == (Vec2Fx { x: (line[0].x + b.x) as i64, y: (line[0].y + b.y) as i64 })
            &&& r@[2] == (Vec2Fx { x: (line[1].x + b.x) as i64, y: (line[1].y + b.y) as i64 })
            &&& r@[3] == (Vec2Fx { x: (line[1].x - b.x) as i64, y: (line[1].y - b.y) as i64 })
        }),
{
    let d = line[1].sub(line[0]);
    let a = d.normalize_or_zero();
    proof {
        lemma_div_bound(width as int, 2, 0x80000);
        vstd::arithmetic::div_mod::lemma_div_pos_is_pos(width as int, 2);
    }
    let b = Vec2Fx { x: a.y, y: -a.x }.scale_ratio(width / 2);
    proof {
        assert(b.bounded_by(0x200000000)) by {
            assert(-(SCALE as int) * 0x80000 <= (a.y as int) * (width as int / 2) <= (
            SCALE as int) * 0x80000 && -(SCALE as int) * 0x80000 <= (-(a.x as int)) * (
            width as int / 2) <= (SCALE as int) * 0x80000) by (nonlinear_arith)
                requires
                    -(SCALE as int) <= a.x <= SCALE as int,
                    -(SCALE as int) <= a.y <= SCALE as int,
                    0 <= width as int / 2 <= 0x80000;
            lemma_div_bound((a.y as int) * (width as int / 2), SCALE as int, 0x80000);
            lemma_div_bound((-(a.x as int)) * (width as int / 2), SCALE as int, 0x80000);
        }
    }
    let mut r: Vec<Vec2Fx> = Vec::new();
    r.push(line[0].sub(b));
    r.push(line[0].add(b));
    r.push(line[1].add(b));
    r.push(line[1].sub(b));
    r
}

/// Every cell of `g` lies within `[lo, hi]`.
pub open spec fn vals_within(g: ScalarGrid, lo: int, hi: int) -> bool {
    forall|i: int| 0 <= i < g.cells@.len() ==> lo <= #[trigger] g.cells@[i] <= hi
}

/// Bilinear interpolation of `g` at the grid-space point `(px, py)` (both in
/// fixed-point cell coordinates): the four surrounding cells weighted by the
/// fractional parts, out-of-grid samples reading as the `FAR` sentinel, the
/// whole sum floored back to one fixed-point scalar.
pub open spec fn spec_bilinear(g: ScalarGrid, px: int, py: int) -> int {
    let bx = px / (SCALE as int);
    let by = py / (SCALE as int);
    let tx = px - bx * SCALE;
    let ty = py - by * SCALE;
    let sx = SCALE - tx;
    let sy = SCALE - ty;
    (sy * sx * g.at_or(by, bx, FAR) + sy * tx * g.at_or(by, bx + 1, FAR) + ty * sx * g.at_or(
        by + 1,
        bx,
        FAR,
    ) + ty * tx * g.at_or(by + 1, bx + 1, FAR)) / ((SCALE * SCALE) as int)
}

/// One bilinear sample: the cell value, or the `FAR` sentinel outside.
fn sample(grid: &ScalarGrid, by: i64, bx: i64) -> (r: i64)
    requires
        grid.wf(),
    ensures
        r == grid.at_or(by as int, bx as int, FAR),
{
    if by >= 0 && bx >= 0 && (by as u64) < (grid.rows as u64) && (bx as u64) < (grid.cols as u64) {
        proof {
            crate::grid::lemma_pos_in_range(
                grid.rows as int,
                grid.cols as int,
                by as int,
                bx as int,
            );
        }
        grid.get(by as usize, bx as usize)
    } else {
        FAR
    }
}

/// Interpolate a grid at a fractional cell position using bilinear
/// interpolation. Positions outside the grid blend in the large `FAR`
/// sentinel instead of failing.
pub fn bilinear(grid: &ScalarGrid, pos: Vec2Fx) -> (r: i64)
    requires
        grid.wf(),
        vals_within(*grid, -(FAR as int), FAR as int),
        pos.bounded_by(0x100000000000000),
    ensures
        r == spec_bilinear(*grid, pos.x as int, pos.y as int),
        -(FAR as int) <= r <= FAR as int,
{
    let bx = div_floor(pos.x, SCALE);
    let by = div_floor(pos.y, SCALE);
    proof {
        vstd::arithmetic::div_mod::lemma_fundamental_div_mod(pos.x as int, SCALE as int);
        vstd::arithmetic::div_mod::lemma_fundamental_div_mod(pos.y as int, SCALE as int);
        vstd::arithmetic::mul::lemma_mul_is_commutative(bx as int, SCALE as int);
        vstd::arithmetic::mul::lemma_mul_is_commutative(by as int, SCALE as int);
        lemma_div_bound(pos.x as int, SCALE as int, 0x4000000000000);
        lemma_div_bound(pos.y as int, SCALE as int, 0x4000000000000);
    }
    let tx = pos.x - bx * SCALE;
    let ty = pos.y - by * SCALE;
    let sx = SCALE - tx;
    let sy = SCALE - ty;

    let g00 = sample(grid, by, bx);
    let g10 = sample(grid, by, bx + 1);
    let g01 = sample(grid, by + 1, bx);
    let g11 = sample(grid, by + 1, bx + 1);
    proof {
        assert(-(FAR as int) <= grid.at_or(by as int, bx as int, FAR) <= FAR as int
            && -(FAR as int) <= grid.at_or(by as int, bx as int + 1, FAR) <= FAR as int && -(
        FAR as int) <= grid.at_or(by as int + 1, bx as int, FAR) <= FAR as int && -(FAR as int)
            <= grid.at_or(by as int + 1, bx as int + 1, FAR) <= FAR as int) by {
            lemma_at_or_within(*grid, by as int, bx as int);
            lemma_at_or_within(*grid, by as int, bx as int + 1);
            lemma_at_or_within(*grid, by as int + 1, bx as int);
            lemma_at_or_within(*grid, by as int + 1, bx as int + 1);
        }
    }
    proof {
        assert(-0x1000000000000000000 <= (sy as int) * (sx as int) * (g00 as int)
            <= 0x1000000000000000000 && -0x1000000000000000000 <= (sy as int) * (tx as int) * (
        g10 as int) <= 0x1000000000000000000 && -0x1000000000000000000 <= (ty as int) * (
        sx as int) * (g01 as int) <= 0x1000000000000000000 && -0x1000000000000000000 <= (
        ty as int) * (tx as int) * (g11 as int) <= 0x1000000000000000000) by (nonlinear_arith)
            requires
                0 <= tx <= SCALE as int,
                0 <= ty <= SCALE as int,
                sx == SCALE as int - tx,
                sy == SCALE as int - ty,
                -(FAR as int) <= g00 <= FAR as int,
                -(FAR as int) <= g10 <= FAR as int,
                -(FAR as int) <= g01 <= FAR as int,
                -(FAR as int) <= g11 <= FAR as int;
    }
    proof {
        lemma_mul_bounds(sy as int, sx as int, 1024, 1024);
        lemma_mul_bounds(sy as int, tx as int, 1024, 1024);
        lemma_mul_bounds(ty as int, sx as int, 1024, 1024);
        lemma_mul_bounds(ty as int, tx as int, 1024, 1024);
        lemma_mul_bounds((sy as int) * (sx as int), g00 as int, 0x100000, FAR as int);
        lemma_mul_bounds((sy as int) * (tx as int), g10 as int, 0x100000, FAR as int);
        lemma_mul_bounds((ty as int) * (sx as int), g01 as int, 0x100000, FAR as int);
        lemma_mul_bounds((ty as int) * (tx as int), g11 as int, 0x100000, FAR as int);
    }
    let t1: i128 = (sy as i128) * (sx as i128) * (g00 as i128);
    let t2: i128 = (sy as i128) * (tx as i128) * (g10 as i128);
    let t3: i128 = (ty as i128) * (sx as i128) * (g01 as i128);
    let t4: i128 = (ty as i128) * (tx as i128) * (g11 as i128);
    let num: i128 = t1 + t2 + t3 + t4;
    proof {
        lemma_bilinear_sum_bound(
            tx as int,
            ty as int,
            g00 as int,
            g10 as int,
            g01 as int,
            g11 as int,
        );
        lemma_div_bound(num as int, (SCALE * SCALE) as int, FAR as int);
    }
    let r = div_floor_i128(num, (SCALE * SCALE) as i128);
    r as i64
}

/// `at_or` with the `FAR` default stays within the value range of the grid
/// (widened to include `FAR` itself).
proof fn lemma_at_or_within(g: ScalarGrid, yy: int, xx: int)
    requires
        g.wf(),
        vals_within(g, -(FAR as int), FAR as int),
    ensures
        -(FAR as int) <= g.at_or(yy, xx, FAR) <= FAR as int,
{
    if g.in_bounds(yy, xx) {
        crate::grid::lemma_pos_in_range(g.rows as int, g.cols as int, yy, xx);
    }
}

/// The weighted four-cell sum is bounded by `SCALE^2` times the largest cell
/// magnitude.
proof fn lemma_bilinear_sum_bound(tx: int, ty: int, a: int, b: int, c: int, d: int)
    requires
        0 <= tx < SCALE as int,
        0 <= ty < SCALE as int,
        -(FAR as int) <= a <= FAR as int,
        -(FAR as int) <= b <= FAR as int,
        -(FAR as int) <= c <= FAR as int,
        -(FAR as int) <= d <= FAR as int,
    ensures
        -((FAR as int) * ((SCALE * SCALE) as int)) <= (SCALE - ty) * (SCALE - tx) * a + (SCALE
            - ty) * tx * b + ty * (SCALE - tx) * c + ty * tx * d <= (FAR as int) * ((SCALE
            * SCALE) as int),
{
    assert(-((FAR as int) * ((SCALE * SCALE) as int)) <= (SCALE - ty) * (SCALE - tx) * a + (SCALE
        - ty) * tx * b + ty * (SCALE - tx) * c + ty * tx * d <= (FAR as int) * ((SCALE
        * SCALE) as int)) by (nonlinear_arith)
        requires
            0 <= tx < SCALE as int,
            0 <= ty < SCALE as int,
            -(FAR as int) <= a <= FAR as int,
            -(FAR as int) <= b <= FAR as int,
            -(FAR as int) <= c <= FAR as int,
            -(FAR as int) <= d <= FAR as int;
}

} // verus!

//! The navigation field: rasterized obstacle occupancy, one marched
//! potential map per waypoint, an obstacle-distance map, and the continuous
//! bilinear / finite-difference query layer over them.

use vstd::prelude::*;

use crate::fixed::{div_floor, lemma_div_bound, lemma_mul_bounds, FAR, SCALE};
use crate::fmm::{apply_fmm, cost_ok};
use crate::grid::{lemma_pos_in_range, BitGrid, ScalarGrid, MAX_DIM};
use crate::scenario::{ObstacleConfig, Scenario, WaypointConfig, COORD_MAX};
use crate::util::{bilinear, spec_bilinear, vals_within, Vec2Fx};

verus! {

/// Traversal cost of a free cell in the slowness grid (one unit).
pub const COST_FREE: i64 = 1024;

/// Traversal cost of an obstacle cell: crossing an obstacle is four orders
/// of magnitude more expensive than free ground.
pub const COST_OBSTACLE: i64 = 10240000;

/// World x-coordinate of the center of grid column `x` (`unit` per cell).
pub open spec fn center_of(x: int, unit: int) -> int {
    x * unit + unit / 2
}

/// Whether the world point `(px, py)` lies within `hw` of the segment
/// `l0`-`l1`: within `hw` of an endpoint in the two endpoint half-planes,
/// within perpendicular distance `hw` of the line in between. Exact integer
/// geometry, no rounding.
pub open spec fn spec_covers(l0: Vec2Fx, l1: Vec2Fx, hw: int, px: int, py: int) -> bool {
    let ax = px - l0.x;
    let ay = py - l0.y;
    let bx = l1.x - l0.x;
    let by = l1.y - l0.y;
    let dot = ax * bx + ay * by;
    let bl2 = bx * bx + by * by;
    if bl2 == 0 || dot <= 0 {
        ax * ax + ay * ay <= hw * hw
    } else if dot >= bl2 {
        let cx = px - l1.x;
        let cy = py - l1.y;
        cx * cx + cy * cy <= hw * hw
    } else {
        let cross = ax * by - ay * bx;
        cross * cross <= hw * hw * bl2
    }
}

/// Whether the center of the row-major cell `i` of a `cols`-wide grid with
/// cell size `unit` is covered by the widened segment.
pub open spec fn covers_cell(
    l0: Vec2Fx,
    l1: Vec2Fx,
    hw: int,
    unit: int,
    cols: int,
    i: int,
) -> bool {
    spec_covers(l0, l1, hw, center_of(i % cols, unit), center_of(i / cols, unit))
}

/// Whether any of the first `k` obstacles covers the row-major cell `i`.
pub open spec fn covered_by_any(
    obstacles: Seq<ObstacleConfig>,
    unit: int,
    cols: int,
    k: int,
    i: int,
) -> bool
    decreases k,
{
    if k <= 0 {
        false
    } else {
        covered_by_any(obstacles, unit, cols, k - 1, i) || covers_cell(
            obstacles[k - 1].line[0],
            obstacles[k - 1].line[1],
            obstacles[k - 1].width as int / 2,
            unit,
            cols,
            i,
        )
    }
}

/// Decide segment coverage of one world point, exactly as [`spec_covers`]
/// states it.
pub fn covers(l0: Vec2Fx, l1: Vec2Fx, hw: i64, px: i64, py: i64) -> (r: bool)
    requires
        l0.bounded_by(COORD_MAX as int),
        l1.bounded_by(COORD_MAX as int),
        0 <= hw <= COORD_MAX,
        -COORD_MAX <= px <= COORD_MAX,
        -COORD_MAX <= py <= COORD_MAX,
    ensures
        r == spec_covers(l0, l1, hw as int, px as int, py as int),
{
    let ax = (px - l0.x) as i128;
    let ay = (py - l0.y) as i128;
    let bx = (l1.x - l0.x) as i128;
    let by = (l1.y - l0.y) as i128;
    proof {
        lemma_mul_bounds(ax as int, bx as int, 0x80000000, 0x80000000);
        lemma_mul_bounds(ay as int, by as int, 0x80000000, 0x80000000);
        lemma_mul_bounds(ax as int, ax as int, 0x80000000, 0x80000000);
        lemma_mul_bounds(ay as int, ay as int, 0x80000000, 0x80000000);
        lemma_mul_bounds(bx as int, bx as int, 0x80000000, 0x80000000);
        lemma_mul_bounds(by as int, by as int, 0x80000000, 0x80000000);
        lemma_mul_bounds(hw as int, hw as int, 0x80000000, 0x80000000);
        lemma_mul_bounds(ax as int, by as int, 0x80000000, 0x80000000);
        lemma_mul_bounds(ay as int, bx as int, 0x80000000, 0x80000000);
    }
    let dot = ax * bx + ay * by;
    let bl2 = bx * bx + by * by;
    if bl2 == 0 || dot <= 0 {
        ax * ax + ay * ay <= (hw as i128) * (hw as i128)
    } else if dot >= bl2 {
        let cx = (px - l1.x) as i128;
        let cy = (py - l1.y) as i128;
        proof {
            lemma_mul_bounds(cx as int, cx as int, 0x80000000, 0x80000000);
            lemma_mul_bounds(cy as int, cy as int, 0x80000000, 0x80000000);
        }
        cx * cx + cy * cy <= (hw as i128) * (hw as i128)
    } else {
        let cross = ax * by - ay * bx;
        proof {
            lemma_mul_bounds(cross as int, cross as int, 0x8000000000000000, 0x8000000000000000);
            lemma_mul_bounds(
                (hw as int) * (hw as int),
                bl2 as int,
                0x4000000000000000,
                0x8000000000000000,
            );
        }
        cross * cross <= (hw as i128) * (hw as i128) * bl2
    }
}

/// Builds the rasterized grids of a [`Field`]: obstacle segments union into
/// a boolean occupancy grid, waypoint segments become zero-seeded potential
/// maps, and [`FieldBuilder::build`] marches them all.
pub struct FieldBuilder {
    pub unit: i64,
    pub rows: usize,
    pub cols: usize,
    pub obstacle_exist: BitGrid,
    pub potential_maps: Vec<ScalarGrid>,
}

/// The boolean at row-major cell `(y, x)` of a `cols`-wide grid.
pub open spec fn bit_at(s: Seq<bool>, cols: int, y: int, x: int) -> bool {
    s[y * cols + x]
}

/// A seed grid: every cell either 0 (seed) or the `FAR` sentinel.
pub open spec fn seed_grid(g: ScalarGrid) -> bool {
    forall|i: int| 0 <= i < g.cells@.len() ==> g.cells@[i] == 0 || #[trigger] g.cells@[i] == FAR
}

impl FieldBuilder {
    pub open spec fn wf(self) -> bool {
        &&& 2 <= self.unit <= 0x100000
        &&& 1 <= self.rows <= MAX_DIM
        &&& 1 <= self.cols <= MAX_DIM
        &&& self.rows * self.unit <= COORD_MAX
        &&& self.cols * self.unit <= COORD_MAX
        &&& self.obstacle_exist.wf()
        &&& self.obstacle_exist.rows == self.rows
        &&& self.obstacle_exist.cols == self.cols
        &&& forall|k: int|
            0 <= k < self.potential_maps.len() ==> (#[trigger] self.potential_maps@[k]).wf()
                && self.potential_maps@[k].rows == self.rows && self.potential_maps@[k].cols
                == self.cols && seed_grid(self.potential_maps@[k])
    }

    /// An empty builder over a `size.x` by `size.y` world rectangle with
    /// `unit`-sized cells; the border ring of cells is forced to obstacle so
    /// that the domain is bounded.
    pub fn new(size: Vec2Fx, unit: i64) -> (r: FieldBuilder)
        requires
            2 <= unit <= 0x100000,
            1 <= size.x <= 0x20000000,
            1 <= size.y <= 0x20000000,
            size.x <= 0x8000 * unit,
            size.y <= 0x8000 * unit,
        ensures
            r.wf(),
            r.unit == unit,
            r.potential_maps@.len() == 0,
            r.rows == (size.y + unit - 1) as int / unit as int,
            r.cols == (size.x + unit - 1) as int / unit as int,
            forall|y: int, x: int|
                0 <= y < r.rows && 0 <= x < r.cols ==> #[trigger] bit_at(
                    r.obstacle_exist.cells@,
                    r.cols as int,
                    y,
                    x,
                ) == (y == 0 || y == r.rows - 1 || x == 0 || x == r.cols - 1),
    {
        proof {
            lemma_ceil_count(size.x as int, unit as int);
            lemma_ceil_count(size.y as int, unit as int);
        }
        let rows = div_floor(size.y + unit - 1, unit) as usize;
        let cols = div_floor(size.x + unit - 1, unit) as usize;
        let mut obstacle_exist = BitGrid::from_elem(rows, cols, false);
        proof {
            assert forall|yy: int, xx: int|
                0 <= yy < rows && 0 <= xx < cols implies #[trigger] bit_at(
                obstacle_exist.cells@,
                cols as int,
                yy,
                xx,
            ) == false by {
                lemma_pos_in_range(rows as int, cols as int, yy, xx);
            }
        }

        let mut y: usize = 0;
        while y < rows
            invariant
                obstacle_exist.wf(),
                obstacle_exist.rows == rows,
                obstacle_exist.cols == cols,
                1 <= rows <= MAX_DIM,
                1 <= cols <= MAX_DIM,
                y <= rows,
                forall|yy: int, xx: int|
                    0 <= yy < rows && 0 <= xx < cols ==> #[trigger] bit_at(
                        obstacle_exist.cells@,
                        cols as int,
                        yy,
                        xx,
                    ) == (yy < y && (yy == 0 || yy == rows - 1 || xx == 0 || xx == cols - 1)),
            decreases rows - y,
        {
            let mut x: usize = 0;
            while x < cols
                invariant
                    obstacle_exist.wf(),
                    obstacle_exist.rows == rows,
                    obstacle_exist.cols == cols,
                    1 <= rows <= MAX_DIM,
                    1 <= cols <= MAX_DIM,
                    y < rows,
                    x <= cols,
                    forall|yy: int, xx: int|
                        0 <= yy < rows && 0 <= xx < cols ==> #[trigger] bit_at(
                            obstacle_exist.cells@,
                            cols as int,
                            yy,
                            xx,
                        ) == ((yy < y || (yy == y && xx < x)) && (yy == 0 || yy == rows - 1 || xx
                            == 0 || xx == cols - 1)),
                decreases cols - x,
            {
                let border = y == 0 || y == rows - 1 || x == 0 || x == cols - 1;
                proof {
                    lemma_pos_in_range(rows as int, cols as int, y as int, x as int);
                }
                let ghost prev = obstacle_exist.cells@;
                obstacle_exist.set(y, x, border);
                proof {
                    assert forall|yy: int, xx: int|
                        0 <= yy < rows && 0 <= xx < cols implies #[trigger] bit_at(
                        obstacle_exist.cells@,
                        cols as int,
                        yy,
                        xx,
                    ) == ((yy < y || (yy == y && xx < x + 1)) && (yy == 0 || yy == rows - 1 || xx
                        == 0 || xx == cols - 1)) by {
                        lemma_pos_in_range(rows as int, cols as int, yy, xx);
                        if yy != y as int || xx != x as int {
                            lemma_pos_distinct(
                                rows as int,
                                cols as int,
                                yy,
                                xx,
                                y as int,
                                x as int,
                            );
                            assert(bit_at(prev, cols as int, yy, xx) == ((yy < y || (yy == y && xx
                                < x)) && (yy == 0 || yy == rows - 1 || xx == 0 || xx == cols
                                - 1)));
                        }
                    }
                }
                x = x + 1;
            }
            y = y + 1;
        }

        FieldBuilder { unit, rows, cols, obstacle_exist, potential_maps: Vec::new() }
    }

    /// Union an obstacle segment (with width) into the occupancy grid: a
    /// cell becomes occupied exactly when its center lies within half the
    /// width of the segment. A zero-length segment degenerates to a disc
    /// around its point; it never fails.
    pub fn add_obstacle(&mut self, obstacle: &ObstacleConfig)
        requires
            old(self).wf(),
            crate::scenario::segment_ok(obstacle.line, obstacle.width as int),
        ensures
            final(self).wf(),
            final(self).unit == old(self).unit,
            final(self).rows == old(self).rows,
            final(self).cols == old(self).cols,
            final(self).potential_maps@ == old(self).potential_maps@,
            forall|i: int|
                0 <= i < final(self).obstacle_exist.cells@.len()
                    ==> #[trigger] final(self).obstacle_exist.cells@[i] == (old(
                    self,
                ).obstacle_exist.cells@[i] || covers_cell(
                    obstacle.line[0],
                    obstacle.line[1],
                    obstacle.width as int / 2,
                    old(self).unit as int,
                    old(self).cols as int,
                    i,
                )),
    {
        let l0 = obstacle.line[0];
        let l1 = obstacle.line[1];
        let hw = obstacle.width / 2;
        let ghost before = self.obstacle_exist.cells@;
        let mut y: usize = 0;
        while y < self.rows
            invariant
                self.wf(),
                self.unit == old(self).unit,
                self.rows == old(self).rows,
                self.cols == old(self).cols,
                self.potential_maps@ == old(self).potential_maps@,
                self.obstacle_exist.cells@.len() == before.len(),
                y <= self.rows,
                l0 == obstacle.line[0],
                l1 == obstacle.line[1],
                hw == obstacle.width as int / 2,
                crate::scenario::segment_ok(obstacle.line, obstacle.width as int),
                forall|i: int|
                    0 <= i < before.len() ==> #[trigger] self.obstacle_exist.cells@[i] == (if i < y
                        * self.cols {
                        before[i] || covers_cell(
                            l0,
                            l1,
                            hw as int,
                            self.unit as int,
                            self.cols as int,
                            i,
                        )
                    } else {
                        before[i]
                    }),
            decreases self.rows - y,
        {
            let mut x: usize = 0;
            while x < self.cols
                invariant
                    self.wf(),
                    self.unit == old(self).unit,
                    self.rows == old(self).rows,
                    self.cols == old(self).cols,
                    self.potential_maps@ == old(self).potential_maps@,
                    self.obstacle_exist.cells@.len() == before.len(),
                    y < self.rows,
                    x <= self.cols,
                    l0 == obstacle.line[0],
                    l1 == obstacle.line[1],
                    hw == obstacle.width as int / 2,
                    crate::scenario::segment_ok(obstacle.line, obstacle.width as int),
                    forall|i: int|
                        0 <= i < before.len() ==> #[trigger] self.obstacle_exist.cells@[i] == (if i
                            < y * self.cols + x {
                            before[i] || covers_cell(
                                l0,
                                l1,
                                hw as int,
                                self.unit as int,
                                self.cols as int,
                                i,
                            )
                        } else {
                            before[i]
                        }),
                decreases self.cols - x,
            {
                proof {
                    lemma_pos_in_range(self.rows as int, self.cols as int, y as int, x as int);
                    lemma_center_in_range(y as int, self.unit as int, self.rows as int);
                    lemma_center_in_range(x as int, self.unit as int, self.cols as int);
                    lemma_div_bound(obstacle.width as int, 2, COORD_MAX as int);
                    vstd::arithmetic::div_mod::lemma_div_pos_is_pos(obstacle.width as int, 2);
                }
                let cx = (x as i64) * self.unit + self.unit / 2;
                let cy = (y as i64) * self.unit + self.unit / 2;
                let hit = covers(l0, l1, hw, cx, cy);
                let prev = self.obstacle_exist.get(y, x);
                self.obstacle_exist.set(y, x, prev || hit);
                proof {
                    let pos = (y as int) * (self.cols as int) + x as int;
                    vstd::arithmetic::div_mod::lemma_fundamental_div_mod_converse(
                        pos,
                        self.cols as int,
                        y as int,
                        x as int,
                    );
                    assert(covers_cell(l0, l1, hw as int, self.unit as int, self.cols as int, pos)
                        == hit);
                }
                x = x + 1;
            }
            proof {
                vstd::arithmetic::mul::lemma_mul_is_distributive_add_other_way(
                    self.cols as int,
                    y as int,
                    1,
                );
            }
            y = y + 1;
        }
        proof {
            assert(self.rows * self.cols == before.len());
            vstd::arithmetic::mul::lemma_mul_is_commutative(self.rows as int, self.cols as int);
        }
    }

    /// Rasterize a waypoint segment into a fresh seed map (0 on covered
    /// cells, `FAR` elsewhere) and append it.
    pub fn add_waypoint(&mut self, waypoint: &WaypointConfig)
        requires
            old(self).wf(),
            crate::scenario::segment_ok(waypoint.line, waypoint.width as int),
        ensures
            final(self).wf(),
            final(self).unit == old(self).unit,
            final(self).rows == old(self).rows,
            final(self).cols == old(self).cols,
            final(self).obstacle_exist == old(self).obstacle_exist,
            final(self).potential_maps@.len() == old(self).potential_maps@.len() + 1,
            forall|k: int|
                0 <= k < old(self).potential_maps@.len()
                    ==> #[trigger] final(self).potential_maps@[k] == old(self).potential_maps@[k],
            forall|i: int|
                0 <= i < final(self).potential_maps@.last().cells@.len()
                    ==> #[trigger] final(self).potential_maps@.last().cells@[i] == (if covers_cell(
                    waypoint.line[0],
                    waypoint.line[1],
                    waypoint.width as int / 2,
                    old(self).unit as int,
                    old(self).cols as int,
                    i,
                ) {
                    0i64
                } else {
                    FAR
                }),
    {
        let l0 = waypoint.line[0];
        let l1 = waypoint.line[1];
        let hw = waypoint.width / 2;
        let mut seeds = ScalarGrid::from_elem(self.rows, self.cols, FAR);
        let mut y: usize = 0;
        while y < self.rows
            invariant
                self.wf(),
                seeds.wf(),
                seeds.rows == self.rows,
                seeds.cols == self.cols,
                y <= self.rows,
                l0 == waypoint.line[0],
                l1 == waypoint.line[1],
                hw == waypoint.width as int / 2,
                crate::scenario::segment_ok(waypoint.line, waypoint.width as int),
                forall|i: int|
                    0 <= i < seeds.cells@.len() ==> #[trigger] seeds.cells@[i] == (if i < y
                        * self.cols && covers_cell(
                        l0,
                        l1,
                        hw as int,
                        self.unit as int,
                        self.cols as int,
                        i,
                    ) {
                        0i64
                    } else {
                        FAR
                    }),
            decreases self.rows - y,
        {
            let mut x: usize = 0;
            while x < self.cols
                invariant
                    self.wf(),
                    seeds.wf(),
                    seeds.rows == self.rows,
                    seeds.cols == self.cols,
                    y < self.rows,
                    x <= self.cols,
                    l0 == waypoint.line[0],
                    l1 == waypoint.line[1],
                    hw == waypoint.width as int / 2,
                    crate::scenario::segment_ok(waypoint.line, waypoint.width as int),
                    forall|i: int|
                        0 <= i < seeds.cells@.len() ==> #[trigger] seeds.cells@[i] == (if i < y
                            * self.cols + x && covers_cell(
                            l0,
                            l1,
                            hw as int,
                            self.unit as int,
                            self.cols as int,
                            i,
                        ) {
                            0i64
                        } else {
                            FAR
                        }),
                decreases self.cols - x,
            {
                proof {
                    lemma_pos_in_range(self.rows as int, self.cols as int, y as int, x as int);
                    lemma_center_in_range(y as int, self.unit as int, self.rows as int);
                    lemma_center_in_range(x as int, self.unit as int, self.cols as int);
                    lemma_div_bound(waypoint.width as int, 2, COORD_MAX as int);
                    vstd::arithmetic::div_mod::lemma_div_pos_is_pos(waypoint.width as int, 2);
                }
                let cx = (x as i64) * self.unit + self.unit / 2;
                let cy = (y as i64) * self.unit + self.unit / 2;
                let hit = covers(l0, l1, hw, cx, cy);
                if hit {
                    seeds.set(y, x, 0);
                }
                proof {
                    let pos = (y as int) * (self.cols as int) + x as int;
                    vstd::arithmetic::div_mod::lemma_fundamental_div_mod_converse(
                        pos,
                        self.cols as int,
                        y as int,
                        x as int,
                    );
                    assert(covers_cell(l0, l1, hw as int, self.unit as int, self.cols as int, pos)
                        == hit);
                }
                x = x + 1;
            }
            proof {
                vstd::arithmetic::mul::lemma_mul_is_distributive_add_other_way(
                    self.cols as int,
                    y as int,
                    1,
                );
            }
            y = y + 1;
        }
        proof {
            vstd::arithmetic::mul::lemma_mul_is_commutative(self.rows as int, self.cols as int);
        }
        self.potential_maps.push(seeds);
    }

    /// March every waypoint's seed map against the obstacle slowness field
    /// and the obstacle-distance map against a uniform cost, producing the
    /// finished [`Field`].
    pub fn build(self) -> (r: Field)
        requires
            self.wf(),
        ensures
            r.wf(),
            r.unit == self.unit,
            r.shape == (self.rows, self.cols),
            r.potential_maps@.len() == self.potential_maps@.len(),
            r.obstacle_exist == self.obstacle_exist,
            // a cell has obstacle distance zero exactly when it is an
            // obstacle cell, and at least half a cell's cost otherwise
            forall|i: int|
                0 <= i < r.distance_map.cells@.len() ==> ((#[trigger] r.distance_map.cells@[i]
                    == 0) <==> self.obstacle_exist.cells@[i]),
            forall|i: int|
                0 <= i < r.distance_map.cells@.len() && !self.obstacle_exist.cells@[i]
                    ==> #[trigger] r.distance_map.cells@[i] >= self.unit / 2,
            // a free cell next to an obstacle is at most one cell of cost
            // away from it
            forall|i: int, j: int|
                0 <= i < r.distance_map.cells@.len() && 0 <= j < r.distance_map.cells@.len()
                    && self.obstacle_exist.cells@[i] && !self.obstacle_exist.cells@[j]
                    && #[trigger] crate::fmm::neighbor_of(self.cols as int, i, j)
                    ==> r.distance_map.cells@[j] <= self.unit,
            // local consistency of the marched distance map: between
            // 4-neighbors it never jumps by more than one cell of cost
            forall|i: int, j: int|
                0 <= i < r.distance_map.cells@.len() && 0 <= j < r.distance_map.cells@.len()
                    && #[trigger] crate::fmm::neighbor_of(self.cols as int, i, j)
                    ==> r.distance_map.cells@[j] <= r.distance_map.cells@[i] + self.unit,
            // and lower causality: off the obstacles the distance never
            // undercuts its best 4-neighbor by more than half a cell
            forall|y: int, x: int|
                0 <= y < self.rows && 0 <= x < self.cols && !self.obstacle_exist.cells@[y
                    * self.cols + x] ==> r.distance_map.cells@[y * self.cols + x] == FAR
                    || r.distance_map.cells@[y * self.cols + x] >= #[trigger] crate::fmm::nbr_min(
                    r.distance_map,
                    y,
                    x,
                ) + self.unit / 2,
            // each marched potential map is zero exactly on its seed cells,
            // keeps at least half the local slowness off them, and a cell
            // one hop from a seed never exceeds its own slowness
            forall|k: int, i: int|
                0 <= k < self.potential_maps@.len() && 0 <= i
                    < self.potential_maps@[k].cells@.len() ==> ((
                #[trigger] r.potential_maps@[k].cells@[i] == 0)
                    <==> self.potential_maps@[k].cells@[i] == 0),
            forall|k: int, i: int|
                0 <= k < self.potential_maps@.len() && 0 <= i
                    < self.potential_maps@[k].cells@.len() && self.potential_maps@[k].cells@[i]
                    != 0 ==> #[trigger] r.potential_maps@[k].cells@[i] >= (if self.obstacle_exist.cells@[i] {
                    COST_OBSTACLE as int
                } else {
                    COST_FREE as int
                }) / 2,
            forall|k: int, i: int, j: int|
                0 <= k < self.potential_maps@.len() && 0 <= i
                    < self.potential_maps@[k].cells@.len() && 0 <= j
                    < self.potential_maps@[k].cells@.len() && self.potential_maps@[k].cells@[i]
                    == 0 && self.potential_maps@[k].cells@[j] != 0
                    && #[trigger] crate::fmm::neighbor_of(self.cols as int, i, j)
                    ==> #[trigger] r.potential_maps@[k].cells@[j] <= (if self.obstacle_exist.cells@[j] {
                    COST_OBSTACLE as int
                } else {
                    COST_FREE as int
                }),
            // local consistency of every marched potential map: between
            // 4-neighbors it never jumps by more than the slowness of the
            // crossed cell
            forall|k: int, i: int, j: int|
                0 <= k < self.potential_maps@.len() && 0 <= i
                    < self.potential_maps@[k].cells@.len() && 0 <= j
                    < self.potential_maps@[k].cells@.len()
                    && #[trigger] crate::fmm::neighbor_of(self.cols as int, i, j)
                    ==> #[trigger] r.potential_maps@[k].cells@[j] <= r.potential_maps@[k].cells@[i]
                    + (if self.obstacle_exist.cells@[j] {
                    COST_OBSTACLE as int
                } else {
                    COST_FREE as int
                }),
            // and lower causality: off the seeds a potential never undercuts
            // its best 4-neighbor by more than half the local slowness
            forall|k: int, y: int, x: int|
                0 <= k < self.potential_maps@.len() && 0 <= y < self.rows && 0 <= x < self.cols
                    && self.potential_maps@[k].cells@[y * self.cols + x] != 0
                    ==> r.potential_maps@[k].cells@[y * self.cols + x] == FAR
                    || r.potential_maps@[k].cells@[y * self.cols + x]
                    >= #[trigger] crate::fmm::nbr_min(r.potential_maps@[k], y, x) + (if self.obstacle_exist.cells@[y * self.cols + x] {
                    COST_OBSTACLE as int
                } else {
                    COST_FREE as int
                }) / 2,
            // a map without a single seed cell stays at the sentinel
            forall|k: int|
                0 <= k < self.potential_maps@.len() && (forall|i: int|
                    0 <= i < self.potential_maps@[k].cells@.len()
                        ==> #[trigger] self.potential_maps@[k].cells@[i] != 0)
                    ==> #[trigger] r.potential_maps@[k].cells@ == self.potential_maps@[k].cells@,
    {
        let FieldBuilder { unit, rows, cols, obstacle_exist, potential_maps } = self;

        let mut distance_map = grid_by_mask(&obstacle_exist, 0, FAR);
        let ghost dist_init = distance_map.cells@;
        let uniform = ScalarGrid::from_elem(rows, cols, unit);
        apply_fmm(&mut distance_map, &uniform);
        proof {
            assert forall|y: int, x: int|
                0 <= y < rows && 0 <= x < cols && !obstacle_exist.cells@[y * cols + x] implies (
            distance_map.cells@[y * cols + x] == FAR || distance_map.cells@[y * cols + x]
                >= crate::fmm::nbr_min(distance_map, y, x) + unit / 2) by {
                lemma_pos_in_range(rows as int, cols as int, y, x);
                assert(crate::fmm::cell_causal(distance_map, uniform, dist_init, y, x));
            }
        }

        let slowness = grid_by_mask(&obstacle_exist, COST_OBSTACLE, COST_FREE);
        let mut marched: Vec<ScalarGrid> = Vec::new();
        let mut k: usize = 0;
        let n = potential_maps.len();
        while k < n
            invariant
                marched@.len() == k,
                k <= n,
                n == potential_maps@.len(),
                slowness.wf(),
                slowness.rows == rows,
                slowness.cols == cols,
                cost_ok(slowness),
                forall|j: int|
                    0 <= j < n ==> (#[trigger] potential_maps@[j]).wf() && potential_maps@[j].rows
                        == rows && potential_maps@[j].cols == cols && seed_grid(
                        potential_maps@[j],
                    ),
                obstacle_exist.wf(),
                obstacle_exist.rows == rows,
                obstacle_exist.cols == cols,
                forall|i: int|
                    0 <= i < slowness.cells@.len() ==> #[trigger] slowness.cells@[i] == (if obstacle_exist.cells@[i] {
                        COST_OBSTACLE
                    } else {
                        COST_FREE
                    }),
                forall|j: int|
                    0 <= j < k ==> (#[trigger] marched@[j]).wf() && marched@[j].rows == rows
                        && marched@[j].cols == cols && vals_within(marched@[j], 0, FAR as int),
                forall|j: int, i: int|
                    0 <= j < k && 0 <= i < potential_maps@[j].cells@.len() ==> ((
                    #[trigger] marched@[j].cells@[i] == 0) <==> potential_maps@[j].cells@[i]
                        == 0),
                forall|j: int, i: int|
                    0 <= j < k && 0 <= i < potential_maps@[j].cells@.len()
                        && potential_maps@[j].cells@[i] != 0 ==> #[trigger] marched@[j].cells@[i]
                        >= slowness.cells@[i] / 2,
                forall|j: int|
                    0 <= j < k ==> crate::fmm::seeds_relaxed_upto(
                        #[trigger] marched@[j],
                        slowness,
                        potential_maps@[j].cells@,
                        potential_maps@[j].cells@.len() as int,
                    ),
                forall|j: int, i2: int, j2: int|
                    0 <= j < k && 0 <= i2 < marched@[j].cells@.len() && 0 <= j2
                        < marched@[j].cells@.len() && #[trigger] crate::fmm::neighbor_of(
                        cols as int,
                        i2,
                        j2,
                    ) ==> #[trigger] marched@[j].cells@[j2] <= marched@[j].cells@[i2]
                        + slowness.cells@[j2],
                forall|j: int|
                    0 <= j < k ==> crate::fmm::lower_causal(
                        #[trigger] marched@[j],
                        slowness,
                        potential_maps@[j].cells@,
                    ),
                forall|j: int|
                    0 <= j < k && (forall|i: int|
                        0 <= i < potential_maps@[j].cells@.len()
                            ==> #[trigger] potential_maps@[j].cells@[i] != 0)
                        ==> #[trigger] marched@[j].cells@ == potential_maps@[j].cells@,
            decreases n - k,
        {
            let mut map = potential_maps[k].clone_grid();
            apply_fmm(&mut map, &slowness);
            marched.push(map);
            k = k + 1;
        }
        proof {
            assert forall|k2: int, y: int, x: int|
                0 <= k2 < potential_maps@.len() && 0 <= y < rows && 0 <= x < cols
                    && potential_maps@[k2].cells@[y * cols + x] != 0 implies (
            marched@[k2].cells@[y * cols + x] == FAR || marched@[k2].cells@[y * cols + x]
                >= crate::fmm::nbr_min(marched@[k2], y, x) + (if obstacle_exist.cells@[y * cols
                + x] {
                COST_OBSTACLE as int
            } else {
                COST_FREE as int
            }) / 2) by {
                lemma_pos_in_range(rows as int, cols as int, y, x);
                assert(crate::fmm::cell_causal(
                    marched@[k2],
                    slowness,
                    potential_maps@[k2].cells@,
                    y,
                    x,
                ));
            }
        }

        Field {
            unit,
            shape: (rows, cols),
            obstacle_exist,
            distance_map,
            potential_maps: marched,
        }
    }
}

/// A scalar grid valued `on` where the mask is set and `off` elsewhere.
fn grid_by_mask(mask: &BitGrid, on: i64, off: i64) -> (r: ScalarGrid)
    requires
        mask.wf(),
    ensures
        r.wf(),
        r.rows == mask.rows,
        r.cols == mask.cols,
        forall|i: int|
            0 <= i < r.cells@.len() ==> #[trigger] r.cells@[i] == (if mask.cells@[i] {
                on
            } else {
                off
            }),
{
    let n = mask.cells.len();
    let mut cells: Vec<i64> = Vec::new();
    let mut i: usize = 0;
    while i < n
        invariant
            i <= n,
            n == mask.cells@.len(),
            cells@.len() == i,
            forall|j: int|
                0 <= j < i ==> #[trigger] cells@[j] == (if mask.cells@[j] {
                    on
                } else {
                    off
                }),
        decreases n - i,
    {
        if mask.cells[i] {
            cells.push(on);
        } else {
            cells.push(off);
        }
        i = i + 1;
    }
    ScalarGrid { rows: mask.rows, cols: mask.cols, cells }
}

/// A cell center along one axis stays within the rasterizer's coordinate
/// range when the whole axis does.
proof fn lemma_center_in_range(x: int, unit: int, dim: int)
    requires
        0 <= x < dim,
        2 <= unit,
        dim * unit <= COORD_MAX,
    ensures
        0 <= x * unit + unit / 2 <= COORD_MAX,
{
    assert(0 <= x * unit && x * unit + unit <= dim * unit) by (nonlinear_arith)
        requires
            0 <= x < dim,
            2 <= unit;
    vstd::arithmetic::div_mod::lemma_div_pos_is_pos(unit, 2);
    lemma_div_bound(unit, 2, unit);
}

/// Two distinct coordinate pairs have distinct row-major positions.
proof fn lemma_pos_distinct(rows: int, cols: int, y1: int, x1: int, y2: int, x2: int)
    requires
        0 <= y1 < rows,
        0 <= x1 < cols,
        0 <= y2 < rows,
        0 <= x2 < cols,
        y1 != y2 || x1 != x2,
    ensures
        y1 * cols + x1 != y2 * cols + x2,
{
    vstd::arithmetic::div_mod::lemma_fundamental_div_mod_converse(
        y1 * cols + x1,
        cols,
        y1,
        x1,
    );
    vstd::arithmetic::div_mod::lemma_fundamental_div_mod_converse(
        y2 * cols + x2,
        cols,
        y2,
        x2,
    );
}

/// The cell count `(a + d - 1) / d` of an axis of length `a` lies in
/// `[1, 0x8000]` and covers the axis without overshooting a whole cell.
proof fn lemma_ceil_count(a: int, d: int)
    requires
        2 <= d <= 0x100000,
        1 <= a <= 0x20000000,
        a <= 0x8000 * d,
    ensures
        1 <= (a + d - 1) / d <= MAX_DIM,
        ((a + d - 1) / d) * d <= COORD_MAX,
{
    vstd::arithmetic::div_mod::lemma_div_is_ordered(d, a + d - 1, d);
    vstd::arithmetic::div_mod::lemma_div_by_multiple(1, d);
    vstd::arithmetic::div_mod::lemma_fundamental_div_mod(a + d - 1, d);
    let q = (a + d - 1) / d;
    assert(q * d <= a + d - 1 && q <= MAX_DIM) by (nonlinear_arith)
        requires
            2 <= d,
            1 <= a <= 0x20000000,
            a <= 0x8000 * d,
            a + d - 1 == d * q + (a + d - 1) % d,
            0 <= (a + d - 1) % d < d,
            1 <= q;
}

/// The navigation field: obstacle occupancy, obstacle-distance map, and one
/// potential map per waypoint, queried at continuous world positions.
pub struct Field {
    /// World units per grid cell.
    pub unit: i64,
    /// Shape of the 2-D grid, `(rows, cols)`.
    pub shape: (usize, usize),
    /// Which cells any obstacle occupies.
    pub obstacle_exist: BitGrid,
    /// Marched distance from the nearest obstacle.
    pub distance_map: ScalarGrid,
    /// Marched potential toward each waypoint.
    pub potential_maps: Vec<ScalarGrid>,
}

impl Field {
    pub open spec fn wf(self) -> bool {
        &&& 2 <= self.unit <= 0x100000
        &&& self.shape.0 <= MAX_DIM
        &&& self.shape.1 <= MAX_DIM
        &&& self.obstacle_exist.wf()
        &&& self.obstacle_exist.rows == self.shape.0
        &&& self.obstacle_exist.cols == self.shape.1
        &&& self.distance_map.wf()
        &&& self.distance_map.rows == self.shape.0
        &&& self.distance_map.cols == self.shape.1
        &&& vals_within(self.distance_map, 0, FAR as int)
        &&& forall|k: int|
            0 <= k < self.potential_maps.len() ==> (#[trigger] self.potential_maps@[k]).wf()
                && self.potential_maps@[k].rows == self.shape.0 && self.potential_maps@[k].cols
                == self.shape.1 && vals_within(self.potential_maps@[k], 0, FAR as int)
    }

    /// Positions a query accepts.
    pub open spec fn query_pos_ok(pos: Vec2Fx) -> bool {
        pos.bounded_by(0x400000000000)
    }

    /// Build a field from scenario geometry.
    pub fn from_scenario(scenario: &Scenario, unit: i64) -> (r: Field)
        requires
            scenario.wf(),
            2 <= unit <= 0x100000,
            1 <= scenario.field.size.x <= 0x20000000,
            1 <= scenario.field.size.y <= 0x20000000,
            scenario.field.size.x <= 0x8000 * unit,
            scenario.field.size.y <= 0x8000 * unit,
        ensures
            r.wf(),
            r.unit == unit,
            r.potential_maps@.len() == scenario.waypoints@.len(),
            // the occupancy grid is exactly the border ring plus the union
            // of the obstacle coverages
            forall|y: int, x: int|
                0 <= y < r.shape.0 && 0 <= x < r.shape.1 ==> #[trigger] bit_at(
                    r.obstacle_exist.cells@,
                    r.shape.1 as int,
                    y,
                    x,
                ) == (y == 0 || y == r.shape.0 - 1 || x == 0 || x == r.shape.1 - 1
                    || covered_by_any(
                    scenario.obstacles@,
                    unit as int,
                    r.shape.1 as int,
                    scenario.obstacles@.len() as int,
                    y * r.shape.1 + x,
                )),
            // obstacle distance is zero exactly on obstacle cells and at
            // least half a cell of cost off them
            forall|i: int|
                0 <= i < r.distance_map.cells@.len() ==> ((#[trigger] r.distance_map.cells@[i]
                    == 0) <==> r.obstacle_exist.cells@[i]),
            forall|i: int|
                0 <= i < r.distance_map.cells@.len() && !r.obstacle_exist.cells@[i]
                    ==> #[trigger] r.distance_map.cells@[i] >= unit / 2,
            // each potential map is zero exactly on its own waypoint's
            // covered cells, and keeps at least half the local slowness
            // (obstacle cells ten thousand times a free cell) elsewhere
            forall|k: int, i: int|
                0 <= k < scenario.waypoints@.len() && 0 <= i < r.potential_maps@[k].cells@.len()
                    ==> ((#[trigger] r.potential_maps@[k].cells@[i] == 0) <==> covers_cell(
                    scenario.waypoints@[k].line[0],
                    scenario.waypoints@[k].line[1],
                    scenario.waypoints@[k].width as int / 2,
                    unit as int,
                    r.shape.1 as int,
                    i,
                )),
            forall|k: int, i: int|
                0 <= k < scenario.waypoints@.len() && 0 <= i < r.potential_maps@[k].cells@.len()
                    && r.potential_maps@[k].cells@[i] != 0
                    ==> #[trigger] r.potential_maps@[k].cells@[i] >= (if r.obstacle_exist.cells@[i] {
                    COST_OBSTACLE as int
                } else {
                    COST_FREE as int
                }) / 2,
            r.shape.0 == r.obstacle_exist.rows && r.shape.1 == r.obstacle_exist.cols,
            r.distance_map.cells@.len() == r.obstacle_exist.cells@.len(),
            forall|k: int|
                0 <= k < scenario.waypoints@.len()
                    ==> (#[trigger] r.potential_maps@[k]).cells@.len()
                    == r.obstacle_exist.cells@.len(),
            // navigation consistency: between 4-neighbors the obstacle
            // distance never jumps by more than one cell of cost, nor a
            // potential by more than the slowness of the crossed cell, so
            // each marched map grows with the accumulated cost of the
            // cheapest 4-path (see `crate::fmm::lemma_path_bound`)
            forall|i: int, j: int|
                0 <= i < r.distance_map.cells@.len() && 0 <= j < r.distance_map.cells@.len()
                    && #[trigger] crate::fmm::neighbor_of(r.shape.1 as int, i, j)
                    ==> r.distance_map.cells@[j] <= r.distance_map.cells@[i] + unit,
            forall|k: int, i: int, j: int|
                0 <= k < scenario.waypoints@.len() && 0 <= i < r.potential_maps@[k].cells@.len()
                    && 0 <= j < r.potential_maps@[k].cells@.len()
                    && #[trigger] crate::fmm::neighbor_of(r.shape.1 as int, i, j)
                    ==> #[trigger] r.potential_maps@[k].cells@[j] <= r.potential_maps@[k].cells@[i]
                    + (if r.obstacle_exist.cells@[j] {
                    COST_OBSTACLE as int
                } else {
                    COST_FREE as int
                }),
            // and lower causality: off the obstacles (resp. off a waypoint's
            // covered cells) neither map undercuts its best 4-neighbor by
            // more than half the local cost
            forall|y: int, x: int|
                0 <= y < r.shape.0 && 0 <= x < r.shape.1 && !r.obstacle_exist.cells@[y * r.shape.1
                    + x] ==> r.distance_map.cells@[y * r.shape.1 + x] == FAR
                    || r.distance_map.cells@[y * r.shape.1 + x] >= #[trigger] crate::fmm::nbr_min(
                    r.distance_map,
                    y,
                    x,
                ) + unit / 2,
            forall|k: int, y: int, x: int|
                0 <= k < scenario.waypoints@.len() && 0 <= y < r.shape.0 && 0 <= x < r.shape.1
                    && !covers_cell(
                    scenario.waypoints@[k].line[0],
                    scenario.waypoints@[k].line[1],
                    scenario.waypoints@[k].width as int / 2,
                    unit as int,
                    r.shape.1 as int,
                    y * r.shape.1 + x,
                ) ==> r.potential_maps@[k].cells@[y * r.shape.1 + x] == FAR
                    || r.potential_maps@[k].cells@[y * r.shape.1 + x]
                    >= #[trigger] crate::fmm::nbr_min(r.potential_maps@[k], y, x) + (if r.obstacle_exist.cells@[y * r.shape.1 + x] {
                    COST_OBSTACLE as int
                } else {
                    COST_FREE as int
                }) / 2,
    {
        let mut builder = FieldBuilder::new(scenario.field.size, unit);
        let ghost rows0 = builder.rows;
        let ghost cols0 = builder.cols;

        let mut i: usize = 0;
        let n_obs = scenario.obstacles.len();
        while i < n_obs
            invariant
                builder.wf(),
                builder.unit == unit,
                builder.rows == rows0,
                builder.cols == cols0,
                builder.potential_maps@.len() == 0,
                n_obs == scenario.obstacles@.len(),
                i <= n_obs,
                scenario.wf(),
                forall|y: int, x: int|
                    0 <= y < rows0 && 0 <= x < cols0 ==> #[trigger] bit_at(
                        builder.obstacle_exist.cells@,
                        cols0 as int,
                        y,
                        x,
                    ) == (y == 0 || y == rows0 - 1 || x == 0 || x == cols0 - 1 || covered_by_any(
                        scenario.obstacles@,
                        unit as int,
                        cols0 as int,
                        i as int,
                        y * cols0 + x,
                    )),
            decreases n_obs - i,
        {
            let ghost pre = builder.obstacle_exist.cells@;
            builder.add_obstacle(&scenario.obstacles[i]);
            proof {
                assert forall|y: int, x: int|
                    0 <= y < rows0 && 0 <= x < cols0 implies #[trigger] bit_at(
                    builder.obstacle_exist.cells@,
                    cols0 as int,
                    y,
                    x,
                ) == (y == 0 || y == rows0 - 1 || x == 0 || x == cols0 - 1 || covered_by_any(
                    scenario.obstacles@,
                    unit as int,
                    cols0 as int,
                    i + 1,
                    y * cols0 + x,
                )) by {
                    crate::grid::lemma_pos_in_range(rows0 as int, cols0 as int, y, x);
                    let pos = y * (cols0 as int) + x;
                    assert(bit_at(pre, cols0 as int, y, x) == (y == 0 || y == rows0 - 1 || x == 0
                        || x == cols0 - 1 || covered_by_any(
                        scenario.obstacles@,
                        unit as int,
                        cols0 as int,
                        i as int,
                        pos,
                    )));
                    assert(builder.obstacle_exist.cells@[pos] == (pre[pos] || covers_cell(
                        scenario.obstacles@[i as int].line[0],
                        scenario.obstacles@[i as int].line[1],
                        scenario.obstacles@[i as int].width as int / 2,
                        unit as int,
                        cols0 as int,
                        pos,
                    )));
                }
            }
            i = i + 1;
        }

        let mut i: usize = 0;
        let n_way = scenario.waypoints.len();
        while i < n_way
            invariant
                builder.wf(),
                builder.unit == unit,
                builder.rows == rows0,
                builder.cols == cols0,
                builder.potential_maps@.len() == i,
                n_way == scenario.waypoints@.len(),
                i <= n_way,
                scenario.wf(),
                forall|y: int, x: int|
                    0 <= y < rows0 && 0 <= x < cols0 ==> #[trigger] bit_at(
                        builder.obstacle_exist.cells@,
                        cols0 as int,
                        y,
                        x,
                    ) == (y == 0 || y == rows0 - 1 || x == 0 || x == cols0 - 1 || covered_by_any(
                        scenario.obstacles@,
                        unit as int,
                        cols0 as int,
                        scenario.obstacles@.len() as int,
                        y * cols0 + x,
                    )),
                forall|k: int, j: int|
                    0 <= k < i && 0 <= j < builder.potential_maps@[k].cells@.len()
                        ==> #[trigger] builder.potential_maps@[k].cells@[j] == (if covers_cell(
                        scenario.waypoints@[k].line[0],
                        scenario.waypoints@[k].line[1],
                        scenario.waypoints@[k].width as int / 2,
                        unit as int,
                        cols0 as int,
                        j,
                    ) {
                        0i64
                    } else {
                        crate::fixed::FAR
                    }),
            decreases n_way - i,
        {
            let ghost pre_maps = builder.potential_maps@;
            builder.add_waypoint(&scenario.waypoints[i]);
            proof {
                assert forall|k: int, j: int|
                    0 <= k < i + 1 && 0 <= j
                        < builder.potential_maps@[k].cells@.len() implies #[trigger] builder.potential_maps@[k].cells@[j]
                    == (if covers_cell(
                    scenario.waypoints@[k].line[0],
                    scenario.waypoints@[k].line[1],
                    scenario.waypoints@[k].width as int / 2,
                    unit as int,
                    cols0 as int,
                    j,
                ) {
                    0i64
                } else {
                    crate::fixed::FAR
                }) by {
                    if k == i {
                        assert(builder.potential_maps@[k] == builder.potential_maps@.last());
                        assert(builder.potential_maps@.last().cells@[j] == (if covers_cell(
                            scenario.waypoints@[k].line[0],
                            scenario.waypoints@[k].line[1],
                            scenario.waypoints@[k].width as int / 2,
                            unit as int,
                            cols0 as int,
                            j,
                        ) {
                            0i64
                        } else {
                            crate::fixed::FAR
                        }));
                    } else {
                        assert(builder.potential_maps@[k] == pre_maps[k]);
                        assert(pre_maps[k].cells@[j] == (if covers_cell(
                            scenario.waypoints@[k].line[0],
                            scenario.waypoints@[k].line[1],
                            scenario.waypoints@[k].width as int / 2,
                            unit as int,
                            cols0 as int,
                            j,
                        ) {
                            0i64
                        } else {
                            crate::fixed::FAR
                        }));
                    }
                }
            }
            i = i + 1;
        }

        let ghost b = builder;
        let r = builder.build();
        proof {
            assert forall|k: int, y: int, x: int|
                0 <= k < scenario.waypoints@.len() && 0 <= y < r.shape.0 && 0 <= x < r.shape.1
                    && !covers_cell(
                    scenario.waypoints@[k].line[0],
                    scenario.waypoints@[k].line[1],
                    scenario.waypoints@[k].width as int / 2,
                    unit as int,
                    r.shape.1 as int,
                    y * r.shape.1 + x,
                ) implies (r.potential_maps@[k].cells@[y * r.shape.1 + x] == FAR
                || r.potential_maps@[k].cells@[y * r.shape.1 + x] >= crate::fmm::nbr_min(
                r.potential_maps@[k],
                y,
                x,
            ) + (if r.obstacle_exist.cells@[y * r.shape.1 + x] {
                COST_OBSTACLE as int
            } else {
                COST_FREE as int
            }) / 2) by {
                lemma_pos_in_range(rows0 as int, cols0 as int, y, x);
                assert(b.potential_maps@[k].cells@[y * cols0 + x] == crate::fixed::FAR);
            }
        }
        r
    }

    /// The grid-space coordinates of a world position: scaled by the cell
    /// size and shifted by half a cell so that interpolation is centered on
    /// cell centers.
    pub open spec fn spec_grid_coords(pos: Vec2Fx, unit: int) -> (int, int) {
        ((pos.x * SCALE) / unit - SCALE / 2, (pos.y * SCALE) / unit - SCALE / 2)
    }

    /// Exec counterpart of [`Field::spec_grid_coords`].
    fn grid_coords(&self, position: Vec2Fx) -> (r: Vec2Fx)
        requires
            self.wf(),
            Field::query_pos_ok(position),
        ensures
            (r.x as int, r.y as int) == Field::spec_grid_coords(position, self.unit as int),
            r.bounded_by(0x80000000000800),
    {
        proof {
            assert(-0x80000000000000 * (self.unit as int) <= position.x * SCALE
                <= 0x80000000000000 * (self.unit as int) && -0x80000000000000 * (
            self.unit as int) <= position.y * SCALE <= 0x80000000000000 * (self.unit as int))
                by (nonlinear_arith)
                requires
                    position.bounded_by(0x400000000000),
                    2 <= self.unit;
            lemma_div_bound(position.x * SCALE, self.unit as int, 0x80000000000000);
            lemma_div_bound(position.y * SCALE, self.unit as int, 0x80000000000000);
        }
        let gx = div_floor(position.x * SCALE, self.unit) - SCALE / 2;
        let gy = div_floor(position.y * SCALE, self.unit) - SCALE / 2;
        Vec2Fx { x: gx, y: gy }
    }

    /// Potential toward waypoint `waypoint_id` at a continuous world
    /// position: bilinear over the four surrounding cells, the `FAR`
    /// sentinel blending in outside the grid.
    pub fn get_potential(&self, waypoint_id: usize, position: Vec2Fx) -> (r: i64)
        requires
            self.wf(),
            waypoint_id < self.potential_maps@.len(),
            Field::query_pos_ok(position),
        ensures
            ({
                let gc = Field::spec_grid_coords(position, self.unit as int);
                r == spec_bilinear(self.potential_maps@[waypoint_id as int], gc.0, gc.1)
            }),
            -(FAR as int) <= r <= FAR as int,
    {
        let gc = self.grid_coords(position);
        bilinear(&self.potential_maps[waypoint_id], gc)
    }

    /// Distance from the nearest obstacle at a continuous world position.
    pub fn get_obstacle_distance(&self, position: Vec2Fx) -> (r: i64)
        requires
            self.wf(),
            Field::query_pos_ok(position),
        ensures
            ({
                let gc = Field::spec_grid_coords(position, self.unit as int);
                r == spec_bilinear(self.distance_map, gc.0, gc.1)
            }),
            -(FAR as int) <= r <= FAR as int,
    {
        let gc = self.grid_coords(position);
        bilinear(&self.distance_map, gc)
    }

    /// Gradient of waypoint `waypoint_id`'s potential at a world position,
    /// pointing toward increasing potential.
    pub fn get_potential_grad(&self, waypoint_id: usize, position: Vec2Fx) -> (r: Vec2Fx)
        requires
            self.wf(),
            waypoint_id < self.potential_maps@.len(),
            Field::query_pos_ok(position),
        ensures
            ({
                let gc = Field::spec_grid_coords(position, self.unit as int);
                r == spec_sobel(self.potential_maps@[waypoint_id as int], gc.0, gc.1)
            }),
            r.bounded_by(8 * FAR as int),
    {
        let gc = self.grid_coords(position);
        sobel(&self.potential_maps[waypoint_id], gc)
    }

    /// Gradient of the obstacle-distance map at a world position, pointing
    /// away from the nearest obstacle.
    pub fn get_obstacle_distance_grad(&self, position: Vec2Fx) -> (r: Vec2Fx)
        requires
            self.wf(),
            Field::query_pos_ok(position),
        ensures
            ({
                let gc = Field::spec_grid_coords(position, self.unit as int);
                r == spec_sobel(self.distance_map, gc.0, gc.1)
            }),
            r.bounded_by(8 * FAR as int),
    {
        let gc = self.grid_coords(position);
        sobel(&self.distance_map, gc)
    }
}

impl ScalarGrid {
    /// A deep copy of the grid.
    pub fn clone_grid(&self) -> (r: ScalarGrid)
        ensures
            r.rows == self.rows,
            r.cols == self.cols,
            r.cells@ == self.cells@,
    {
        let mut cells: Vec<i64> = Vec::new();
        let n = self.cells.len();
        let mut i: usize = 0;
        while i < n
            invariant
                i <= n,
                n == self.cells@.len(),
                cells@ == self.cells@.take(i as int),
            decreases n - i,
        {
            cells.push(self.cells[i]);
            proof {
                assert(cells@ =~= self.cells@.take(i + 1));
            }
            i = i + 1;
        }
        proof {
            assert(cells@ =~= self.cells@);
        }
        ScalarGrid { rows: self.rows, cols: self.cols, cells }
    }
}

/// 3x3 Sobel estimate of the gradient of `g` at grid-space `(px, py)`,
/// built from bilinear samples one cell apart, pointing toward increasing
/// values.
pub open spec fn spec_sobel(g: ScalarGrid, px: int, py: int) -> Vec2Fx {
    let s = SCALE as int;
    let bmm = spec_bilinear(g, px - s, py - s);
    let bm0 = spec_bilinear(g, px - s, py);
    let bmp = spec_bilinear(g, px - s, py + s);
    let b0m = spec_bilinear(g, px, py - s);
    let b0p = spec_bilinear(g, px, py + s);
    let bpm = spec_bilinear(g, px + s, py - s);
    let bp0 = spec_bilinear(g, px + s, py);
    let bpp = spec_bilinear(g, px + s, py + s);
    Vec2Fx {
        x: (bpm + 2 * bp0 + bpp - bmm - 2 * bm0 - bmp) as i64,
        y: (bmp + 2 * b0p + bpp - bmm - 2 * b0m - bpm) as i64,
    }
}

/// Exec counterpart of [`spec_sobel`].
fn sobel(grid: &ScalarGrid, pos: Vec2Fx) -> (r: Vec2Fx)
    requires
        grid.wf(),
        vals_within(*grid, -(FAR as int), FAR as int),
        pos.bounded_by(0x80000000000800),
    ensures
        r == spec_sobel(*grid, pos.x as int, pos.y as int),
        r.bounded_by(8 * FAR as int),
{
    let bmm = bilinear(grid, Vec2Fx { x: pos.x - SCALE, y: pos.y - SCALE });
    let bm0 = bilinear(grid, Vec2Fx { x: pos.x - SCALE, y: pos.y });
    let bmp = bilinear(grid, Vec2Fx { x: pos.x - SCALE, y: pos.y + SCALE });
    let b0m = bilinear(grid, Vec2Fx { x: pos.x, y: pos.y - SCALE });
    let b0p = bilinear(grid, Vec2Fx { x: pos.x, y: pos.y + SCALE });
    let bpm = bilinear(grid, Vec2Fx { x: pos.x + SCALE, y: pos.y - SCALE });
    let bp0 = bilinear(grid, Vec2Fx { x: pos.x + SCALE, y: pos.y });
    let bpp = bilinear(grid, Vec2Fx { x: pos.x + SCALE, y: pos.y + SCALE });
    Vec2Fx { x: bpm + 2 * bp0 + bpp - bmm - 2 * bm0 - bmp, y: bmp + 2 * b0p + bpp - bmm - 2 * b0m
        - bpm }
}

} // verus!

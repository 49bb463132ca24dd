//! The social-force pedestrian model: per-tick force evaluation (destination
//! attraction, anisotropic pairwise repulsion, obstacle repulsion) and
//! semi-implicit Euler integration over struct-of-arrays pedestrian storage.
//!
//! Every numeric step has an exact fixed-point specification; the force and
//! integration contracts mirror the computation over `int` arithmetic, so a
//! caller knows each output slot is a function of the previous tick's
//! snapshot alone.

use vstd::prelude::*;

use crate::field::Field;
use crate::fixed::{exp_neg, isqrt, lemma_div_bound, lemma_mul_bounds, spec_exp_neg, FAR, SCALE};
pub use crate::scenario::COORD_MAX;
use crate::scenario::ObstacleConfig;
use crate::util::{
    distance_from_line, spec_clamp_len, spec_distance_from_line, spec_normalize_or_zero,
    spec_scale_ratio, Vec2Fx,
};

verus! {

/// Integration step: 0.1 s, as a ratio over `SCALE`.
pub const DT: i64 = 102;

/// Half the integration step, for the trapezoidal position update.
pub const HALF_DT: i64 = 51;

/// Pairwise interaction cutoff: squared distance of 16 square meters.
pub const CUTOFF_SQ: i64 = 16777216;

/// Anticipation horizon of the pairwise force: 0.1 s, as a ratio.
pub const HORIZON: i64 = 102;

/// Pairwise force strength over its range (2.1 / 0.3).
pub const PAIR_STRENGTH: i64 = 7;

/// Cosine of the field-of-view half-angle (100 degrees), fixed-point;
/// neighbors outside the cone get half the force.
pub const COS_PHI: i64 = -178;

/// Obstacle force strength (10 * 0.2).
pub const OBSTACLE_STRENGTH: i64 = 2;

/// Speed clamp: 1.3 times the desired speed, as a ratio over `SCALE`.
pub const OVERSHOOT: i64 = 1331;

/// A pedestrian deactivates when its destination potential drops below a
/// quarter unit.
pub const ARRIVAL_THRESHOLD: i64 = 256;

/// Largest velocity component the model produces (`OVERSHOOT` times the
/// largest desired speed).
pub const VEL_MAX: i64 = 0x200000;

/// Largest desired speed the model accepts.
pub const SPEED_MAX: i64 = 0x100000;

/// A pedestrian snapshot, as handed in by spawning and out to a renderer.
#[derive(Debug, Clone)]
pub struct Pedestrian {
    pub pos: Vec2Fx,
    pub destination: usize,
}

impl Default for Pedestrian {
    fn default() -> (r: Pedestrian)
        ensures
            r.pos == (Vec2Fx { x: 0, y: 0 }),
            r.destination == 0,
    {
        Pedestrian { pos: Vec2Fx { x: 0, y: 0 }, destination: 0 }
    }
}

/// Struct-of-arrays pedestrian storage: parallel vectors for position,
/// destination, velocity and desired speed, for a cache-friendly tick loop.
#[derive(Debug)]
pub struct Pedestrians {
    pub positions: Vec<Vec2Fx>,
    pub destinations: Vec<u32>,
    pub velocities: Vec<Vec2Fx>,
    pub desired_speeds: Vec<i64>,
}

impl Pedestrians {
    /// Parallel arrays of one length, every field within the model's
    /// operating ranges, destinations below `n_dest`.
    pub open spec fn wf(self, n_dest: int) -> bool {
        &&& self.positions@.len() <= 0x7fffffff
        &&& self.destinations@.len() == self.positions@.len()
        &&& self.velocities@.len() == self.positions@.len()
        &&& self.desired_speeds@.len() == self.positions@.len()
        &&& forall|i: int|
            0 <= i < self.positions@.len() ==> (#[trigger] self.positions@[i]).bounded_by(
                COORD_MAX as int,
            )
        &&& forall|i: int|
            0 <= i < self.positions@.len() ==> (#[trigger] self.velocities@[i]).bounded_by(
                VEL_MAX as int,
            )
        &&& forall|i: int|
            0 <= i < self.positions@.len() ==> 0 <= #[trigger] self.desired_speeds@[i]
                <= SPEED_MAX
        &&& forall|i: int|
            0 <= i < self.positions@.len() ==> (#[trigger] self.destinations@[i]) < n_dest
    }

    pub fn new() -> (r: Pedestrians)
        ensures
            r.positions@.len() == 0,
            r.destinations@.len() == 0,
            r.velocities@.len() == 0,
            r.desired_speeds@.len() == 0,
    {
        Pedestrians {
            positions: Vec::new(),
            destinations: Vec::new(),
            velocities: Vec::new(),
            desired_speeds: Vec::new(),
        }
    }

    pub fn push(&mut self, position: Vec2Fx, destination: u32, velocity: Vec2Fx, desired_speed: i64)
        ensures
            final(self).positions@ == old(self).positions@.push(position),
            final(self).destinations@ == old(self).destinations@.push(destination),
            final(self).velocities@ == old(self).velocities@.push(velocity),
            final(self).desired_speeds@ == old(self).desired_speeds@.push(desired_speed),
    {
        self.positions.push(position);
        self.destinations.push(destination);
        self.velocities.push(velocity);
        self.desired_speeds.push(desired_speed);
    }

    /// Append pedestrian `index` of `other`.
    pub fn copy(&mut self, other: &Pedestrians, index: usize)
        requires
            index < other.positions@.len(),
            index < other.destinations@.len(),
            index < other.velocities@.len(),
            index < other.desired_speeds@.len(),
        ensures
            final(self).positions@ == old(self).positions@.push(other.positions@[index as int]),
            final(self).destinations@ == old(self).destinations@.push(
                other.destinations@[index as int],
            ),
            final(self).velocities@ == old(self).velocities@.push(
                other.velocities@[index as int],
            ),
            final(self).desired_speeds@ == old(self).desired_speeds@.push(
                other.desired_speeds@[index as int],
            ),
    {
        self.push(
            other.positions[index],
            other.destinations[index],
            other.velocities[index],
            other.desired_speeds[index],
        );
    }

    pub fn len(&self) -> (r: usize)
        ensures
            r == self.positions@.len(),
    {
        self.positions.len()
    }
}

/// Destination attraction: relax the velocity toward `desired_speed` along
/// the unit direction `e` with time constant 0.5 s, so the acceleration is
/// twice the velocity gap.
pub open spec fn spec_dest_force(e: Vec2Fx, desired_speed: int, vel: Vec2Fx) -> Vec2Fx {
    let want = spec_scale_ratio(e, desired_speed);
    Vec2Fx { x: (2 * (want.x - vel.x)) as i64, y: (2 * (want.y - vel.y)) as i64 }
}

/// Exec counterpart of [`spec_dest_force`].
pub fn dest_force(e: Vec2Fx, desired_speed: i64, vel: Vec2Fx) -> (r: Vec2Fx)
    requires
        e.bounded_by(SCALE as int),
        0 <= desired_speed <= SPEED_MAX,
        vel.bounded_by(VEL_MAX as int),
    ensures
        r == spec_dest_force(e, desired_speed as int, vel),
        r.bounded_by(0x1000000),
    {
    let want = e.scale_ratio(desired_speed);
    proof {
        assert(-(SCALE as int) * SPEED_MAX <= e.x * desired_speed <= (SCALE as int) * SPEED_MAX
            && -(SCALE as int) * SPEED_MAX <= e.y * desired_speed <= (SCALE as int) * SPEED_MAX)
            by (nonlinear_arith)
            requires
                e.bounded_by(SCALE as int),
                0 <= desired_speed <= SPEED_MAX;
        lemma_div_bound(e.x * desired_speed, SCALE as int, SPEED_MAX as int);
        lemma_div_bound(e.y * desired_speed, SCALE as int, SPEED_MAX as int);
    }
    Vec2Fx { x: 2 * (want.x - vel.x), y: 2 * (want.y - vel.y) }
}

/// The anisotropic pairwise repulsion (elliptical formulation): from the
/// displacement `d` and the neighbor's anticipated step, derive the
/// semi-minor axis `b` and push along the gradient of `b`, decayed
/// exponentially; the force is halved when it acts from outside the forward
/// field-of-view cone of `e`. Zero beyond the cutoff and in the degenerate
/// configurations where the axis collapses.
pub open spec fn spec_pair_force(pos_i: Vec2Fx, e: Vec2Fx, pos_j: Vec2Fx, vel_j: Vec2Fx) -> Vec2Fx {
    let d = Vec2Fx { x: (pos_i.x - pos_j.x) as i64, y: (pos_i.y - pos_j.y) as i64 };
    if d.spec_len_sq() > CUTOFF_SQ {
        Vec2Fx { x: 0, y: 0 }
    } else {
        let distance = d.spec_len();
        let direction = spec_normalize_or_zero(d);
        let vstep = spec_scale_ratio(vel_j, HORIZON as int);
        let t1 = Vec2Fx { x: (d.x - vstep.x) as i64, y: (d.y - vstep.y) as i64 };
        let t2 = distance + t1.spec_len();
        let sq0 = t2 * t2 - vstep.spec_len() * vstep.spec_len();
        let sq = if sq0 < 0 {
            0
        } else {
            sq0
        };
        let b = crate::fixed::sqrt_floor(sq) / 2;
        if b == 0 {
            Vec2Fx { x: 0, y: 0 }
        } else {
            let t1n = spec_normalize_or_zero(t1);
            let gx = t2 * (direction.x + t1n.x) / (4 * b);
            let gy = t2 * (direction.y + t1n.y) / (4 * b);
            let ex = spec_exp_neg(b * 10 / 3);
            let fx = 7 * (gx * ex / (SCALE as int));
            let fy = 7 * (gy * ex / (SCALE as int));
            let flen = crate::fixed::sqrt_floor(fx * fx + fy * fy);
            if e.x * (-fx) + e.y * (-fy) < flen * (COS_PHI as int) {
                Vec2Fx { x: (fx / 2) as i64, y: (fy / 2) as i64 }
            } else {
                Vec2Fx { x: fx as i64, y: fy as i64 }
            }
        }
    }
}

/// Exec counterpart of [`spec_pair_force`].
pub fn pair_force(pos_i: Vec2Fx, e: Vec2Fx, pos_j: Vec2Fx, vel_j: Vec2Fx) -> (r: Vec2Fx)
    requires
        pos_i.bounded_by(COORD_MAX as int),
        pos_j.bounded_by(COORD_MAX as int),
        e.bounded_by(SCALE as int),
        vel_j.bounded_by(VEL_MAX as int),
    ensures
        r == spec_pair_force(pos_i, e, pos_j, vel_j),
        r.bounded_by(0x400000000),
{
    let d = pos_i.sub(pos_j);
    let d2 = d.length_squared();
    if d2 > CUTOFF_SQ as i128 {
        return Vec2Fx { x: 0, y: 0 };
    }
    proof {
        assert(-4097 <= d.x <= 4097 && -4097 <= d.y <= 4097) by (nonlinear_arith)
            requires
                d.x * d.x + d.y * d.y <= CUTOFF_SQ as int;
    }
    let distance = d.length();
    let direction = d.normalize_or_zero();
    let vstep = vel_j.scale_ratio(HORIZON);
    proof {
        assert(-VEL_MAX as int * HORIZON <= vel_j.x * HORIZON <= VEL_MAX as int * HORIZON
            && -VEL_MAX as int * HORIZON <= vel_j.y * HORIZON <= VEL_MAX as int * HORIZON)
            by (nonlinear_arith)
            requires
                vel_j.bounded_by(VEL_MAX as int);
        lemma_div_bound(vel_j.x * HORIZON, SCALE as int, 0x33000);
        lemma_div_bound(vel_j.y * HORIZON, SCALE as int, 0x33000);
    }
    let t1 = d.sub(vstep);
    let t1_len = t1.length();
    let vl = vstep.length();
    proof {
        assert(distance <= 4097) by (nonlinear_arith)
            requires
                distance >= 0,
                (distance as int) * (distance as int) <= CUTOFF_SQ as int;
        assert(t1_len <= 0x70000) by (nonlinear_arith)
            requires
                t1_len >= 0,
                (t1_len as int) * (t1_len as int) <= t1.x * t1.x + t1.y * t1.y,
                t1.bounded_by(0x40000);
        assert(vl <= 0x50000) by (nonlinear_arith)
            requires
                vl >= 0,
                (vl as int) * (vl as int) <= vstep.x * vstep.x + vstep.y * vstep.y,
                vstep.bounded_by(0x33000);
    }
    let t2 = distance + t1_len;
    proof {
        lemma_mul_bounds(t2 as int, t2 as int, 0x80000, 0x80000);
        lemma_mul_bounds(vl as int, vl as int, 0x80000, 0x80000);
    }
    let sq0: i64 = t2 * t2 - vl * vl;
    let sq: i64 = if sq0 < 0 {
        0
    } else {
        sq0
    };
    proof {
        assert(sq0 <= 0x4000000000) by (nonlinear_arith)
            requires
                0 <= t2 <= 0x80000,
                0 <= vl,
                sq0 == t2 * t2 - vl * vl;
    }
    let root = isqrt(sq as u128);
    proof {
        assert(sq as u128 as int == sq as int);
        assert(root <= 0x100000) by (nonlinear_arith)
            requires
                (root as int) * (root as int) <= 0x4000000000,
                root >= 0;
    }
    let b = (root as i64) / 2;
    if b == 0 {
        return Vec2Fx { x: 0, y: 0 };
    }
    let t1n = t1.normalize_or_zero();
    let sum_x = direction.x + t1n.x;
    let sum_y = direction.y + t1n.y;
    proof {
        lemma_mul_bounds(t2 as int, sum_x as int, 0x100000, 0x800);
        lemma_mul_bounds(t2 as int, sum_y as int, 0x100000, 0x800);
        lemma_div_bound(t2 * sum_x, 4 * b as int, 0x80000000);
        lemma_div_bound(t2 * sum_y, 4 * b as int, 0x80000000);
    }
    let gx = crate::fixed::div_floor(t2 * sum_x, 4 * b);
    let gy = crate::fixed::div_floor(t2 * sum_y, 4 * b);
    let ex = exp_neg(b * 10 / 3);
    proof {
        lemma_mul_bounds(gx as int, ex as int, 0x80000000, SCALE as int);
        lemma_mul_bounds(gy as int, ex as int, 0x80000000, SCALE as int);
        lemma_div_bound(gx * ex, SCALE as int, 0x80000000);
        lemma_div_bound(gy * ex, SCALE as int, 0x80000000);
    }
    let fx = 7 * crate::fixed::div_floor(gx * ex, SCALE);
    let fy = 7 * crate::fixed::div_floor(gy * ex, SCALE);
    let f = Vec2Fx { x: fx, y: fy };
    let flen = f.length();
    let neg = Vec2Fx { x: -fx, y: -fy };
    let dotv = e.dot(neg);
    proof {
        assert(flen <= 0x800000000) by (nonlinear_arith)
            requires
                flen >= 0,
                (flen as int) * (flen as int) <= f.x * f.x + f.y * f.y,
                f.bounded_by(0x400000000);
        lemma_mul_bounds(flen as int, COS_PHI as int, 0x800000000, SCALE as int);
    }
    if dotv < (flen as i128) * (COS_PHI as i128) {
        proof {
            lemma_div_bound(fx as int, 2, 0x400000000);
            lemma_div_bound(fy as int, 2, 0x400000000);
        }
        Vec2Fx { x: crate::fixed::div_floor(fx, 2), y: crate::fixed::div_floor(fy, 2) }
    } else {
        f
    }
}

/// Obstacle repulsion from the discretized distance map: exponential decay
/// of the sampled obstacle distance, pushing along the distance gradient,
/// which points toward increasing distance and so away from the nearest
/// obstacle.
pub open spec fn spec_obstacle_force_map(field: Field, pos: Vec2Fx) -> Vec2Fx {
    let gc = Field::spec_grid_coords(pos, field.unit as int);
    let dist0 = crate::util::spec_bilinear(field.distance_map, gc.0, gc.1);
    let dist = if dist0 < 0 {
        0
    } else {
        dist0
    };
    let grad = crate::field::spec_sobel(field.distance_map, gc.0, gc.1);
    let away = spec_normalize_or_zero(grad);
    let ex = spec_exp_neg(5 * dist);
    let sd = spec_scale_ratio(away, ex);
    Vec2Fx { x: (2 * sd.x) as i64, y: (2 * sd.y) as i64 }
}

/// Exec counterpart of [`spec_obstacle_force_map`].
pub fn obstacle_force_map(field: &Field, pos: Vec2Fx) -> (r: Vec2Fx)
    requires
        field.wf(),
        Field::query_pos_ok(pos),
    ensures
        r == spec_obstacle_force_map(*field, pos),
        r.bounded_by(2 * SCALE as int),
{
    let dist0 = field.get_obstacle_distance(pos);
    let dist = if dist0 < 0 {
        0
    } else {
        dist0
    };
    let grad = field.get_obstacle_distance_grad(pos);
    let away = grad.normalize_or_zero();
    let ex = exp_neg(5 * dist);
    proof {
        lemma_mul_bounds(away.x as int, ex as int, SCALE as int, SCALE as int);
        lemma_mul_bounds(away.y as int, ex as int, SCALE as int, SCALE as int);
        lemma_div_bound(away.x * ex, SCALE as int, SCALE as int);
        lemma_div_bound(away.y * ex, SCALE as int, SCALE as int);
    }
    let sd = away.scale_ratio(ex);
    Vec2Fx { x: 2 * sd.x, y: 2 * sd.y }
}

/// Obstacle repulsion from one obstacle segment, by point-to-segment
/// distance: the same exponential decay law, isotropic.
pub open spec fn spec_obstacle_seg_force(obs: ObstacleConfig, pos: Vec2Fx) -> Vec2Fx {
    let diff = spec_distance_from_line(pos, obs.line[0], obs.line[1]);
    let dist = diff.spec_len();
    let dirn = spec_normalize_or_zero(diff);
    let ex = spec_exp_neg(5 * dist);
    let sd = spec_scale_ratio(dirn, ex);
    Vec2Fx { x: (2 * sd.x) as i64, y: (2 * sd.y) as i64 }
}

/// Exec counterpart of [`spec_obstacle_seg_force`].
pub fn obstacle_seg_force(obs: &ObstacleConfig, pos: Vec2Fx) -> (r: Vec2Fx)
    requires
        pos.bounded(),
        obs.line[0].bounded(),
        obs.line[1].bounded(),
    ensures
        r == spec_obstacle_seg_force(*obs, pos),
        r.bounded_by(2 * SCALE as int),
{
    let diff = distance_from_line(pos, obs.line);
    let dist = diff.length();
    proof {
        assert(dist <= 0x20000000000000) by (nonlinear_arith)
            requires
                dist >= 0,
                (dist as int) * (dist as int) <= diff.x * diff.x + diff.y * diff.y,
                diff.bounded_by(4 * crate::fixed::FAR as int);
    }
    let dirn = diff.normalize_or_zero();
    let ex = exp_neg(5 * dist);
    proof {
        lemma_mul_bounds(dirn.x as int, ex as int, SCALE as int, SCALE as int);
        lemma_mul_bounds(dirn.y as int, ex as int, SCALE as int, SCALE as int);
        lemma_div_bound(dirn.x * ex, SCALE as int, SCALE as int);
        lemma_div_bound(dirn.y * ex, SCALE as int, SCALE as int);
    }
    let sd = dirn.scale_ratio(ex);
    Vec2Fx { x: 2 * sd.x, y: 2 * sd.y }
}

/// Sum of the segment forces of the first `k` obstacles.
pub open spec fn spec_obstacle_sum(
    obstacles: Seq<ObstacleConfig>,
    pos: Vec2Fx,
    k: int,
) -> (int, int)
    decreases k,
{
    if k <= 0 {
        (0int, 0int)
    } else {
        let p = spec_obstacle_sum(obstacles, pos, k - 1);
        let f = spec_obstacle_seg_force(obstacles[k - 1], pos);
        (p.0 + f.x, p.1 + f.y)
    }
}

/// Exec counterpart of [`spec_obstacle_sum`] over all obstacles.
pub fn obstacle_sum(obstacles: &Vec<ObstacleConfig>, pos: Vec2Fx) -> (r: Vec2Fx)
    requires
        pos.bounded(),
        obstacles@.len() <= 0x10000,
        forall|i: int|
            0 <= i < obstacles@.len() ==> crate::scenario::segment_ok(
                (#[trigger] obstacles@[i]).line,
                obstacles@[i].width as int,
            ),
    ensures
        (r.x as int, r.y as int) == spec_obstacle_sum(obstacles@, pos, obstacles@.len() as int),
        r.bounded_by(0x8000000),
{
    let n = obstacles.len();
    let mut ax: i64 = 0;
    let mut ay: i64 = 0;
    let mut k: usize = 0;
    while k < n
        invariant
            k <= n,
            n == obstacles@.len(),
            n <= 0x10000,
            pos.bounded(),
            forall|i: int|
                0 <= i < obstacles@.len() ==> crate::scenario::segment_ok(
                    (#[trigger] obstacles@[i]).line,
                    obstacles@[i].width as int,
                ),
            (ax as int, ay as int) == spec_obstacle_sum(obstacles@, pos, k as int),
            -0x800 * (k as int) <= ax <= 0x800 * (k as int),
            -0x800 * (k as int) <= ay <= 0x800 * (k as int),
        decreases n - k,
    {
        let f = obstacle_seg_force(&obstacles[k], pos);
        ax = ax + f.x;
        ay = ay + f.y;
        k = k + 1;
    }
    Vec2Fx { x: ax, y: ay }
}

/// Clamp a coordinate into the world range.
pub open spec fn spec_clamp_coord(v: int) -> int {
    if v < -(COORD_MAX as int) {
        -(COORD_MAX as int)
    } else if v > COORD_MAX as int {
        COORD_MAX as int
    } else {
        v
    }
}

/// Semi-implicit Euler step: velocity takes a tenth of the acceleration,
/// is clamped to `OVERSHOOT` times the desired speed, and the position
/// advances by the trapezoidal average of old and new velocity, saturating
/// at the world coordinate range.
pub open spec fn spec_integrate(
    pos: Vec2Fx,
    vel: Vec2Fx,
    acc: Vec2Fx,
    speed: int,
) -> (Vec2Fx, Vec2Fx) {
    let dv = spec_scale_ratio(acc, DT as int);
    let v1 = Vec2Fx { x: (vel.x + dv.x) as i64, y: (vel.y + dv.y) as i64 };
    let maxlen = speed * OVERSHOOT / (SCALE as int);
    let v2 = spec_clamp_len(v1, maxlen);
    let mid = Vec2Fx { x: (v2.x + vel.x) as i64, y: (v2.y + vel.y) as i64 };
    let step = spec_scale_ratio(mid, HALF_DT as int);
    (
        Vec2Fx {
            x: spec_clamp_coord(pos.x + step.x) as i64,
            y: spec_clamp_coord(pos.y + step.y) as i64,
        },
        v2,
    )
}

/// Exec counterpart of [`spec_integrate`].
pub fn integrate(pos: Vec2Fx, vel: Vec2Fx, acc: Vec2Fx, speed: i64) -> (r: (Vec2Fx, Vec2Fx))
    requires
        pos.bounded_by(COORD_MAX as int),
        vel.bounded_by(VEL_MAX as int),
        acc.bounded_by(FAR as int),
        0 <= speed <= SPEED_MAX,
    ensures
        r == spec_integrate(pos, vel, acc, speed as int),
        r.0.bounded_by(COORD_MAX as int),
        r.1.bounded_by(VEL_MAX as int),
{
    let dv = acc.scale_ratio(DT);
    let v1 = vel.add(dv);
    proof {
        lemma_mul_bounds(speed as int, OVERSHOOT as int, SPEED_MAX as int, OVERSHOOT as int);
        lemma_div_bound(speed * OVERSHOOT, SCALE as int, 0x200000);
        vstd::arithmetic::div_mod::lemma_div_pos_is_pos(speed * OVERSHOOT, SCALE as int);
    }
    let maxlen = crate::fixed::div_floor(speed * OVERSHOOT, SCALE);
    let v2 = v1.clamp_length_max(maxlen);
    let mid = v2.add(vel);
    proof {
        lemma_mul_bounds(mid.x as int, HALF_DT as int, 0x400000, HALF_DT as int);
        lemma_mul_bounds(mid.y as int, HALF_DT as int, 0x400000, HALF_DT as int);
        lemma_div_bound(mid.x * HALF_DT, SCALE as int, 0x400000);
        lemma_div_bound(mid.y * HALF_DT, SCALE as int, 0x400000);
    }
    let step = mid.scale_ratio(HALF_DT);
    let px0 = pos.x + step.x;
    let py0 = pos.y + step.y;
    let px = if px0 < -COORD_MAX {
        -COORD_MAX
    } else if px0 > COORD_MAX {
        COORD_MAX
    } else {
        px0
    };
    let py = if py0 < -COORD_MAX {
        -COORD_MAX
    } else if py0 > COORD_MAX {
        COORD_MAX
    } else {
        py0
    };
    (Vec2Fx { x: px, y: py }, v2)
}

/// The candidate neighbor indices of the cell block from column `x0` on,
/// `cnt` cells wide, in row `y`: the concatenated bucket contents.
pub open spec fn spec_cands_row(
    g: crate::neighbor_grid::NeighborGrid,
    y: int,
    x0: int,
    cnt: nat,
) -> Seq<u32>
    decreases cnt,
{
    if cnt == 0 {
        Seq::empty()
    } else {
        spec_cands_row(g, y, x0, (cnt - 1) as nat) + crate::neighbor_grid::bucket_contents(
            g.data@[y * g.shape.1 + x0 + cnt - 1],
        )
    }
}

/// The candidate neighbor indices of a `cnt_y`-row block of cells.
pub open spec fn spec_cands_rows(
    g: crate::neighbor_grid::NeighborGrid,
    y0: int,
    cnt_y: nat,
    x0: int,
    cnt_x: nat,
) -> Seq<u32>
    decreases cnt_y,
{
    if cnt_y == 0 {
        Seq::empty()
    } else {
        spec_cands_rows(g, y0, (cnt_y - 1) as nat, x0, cnt_x) + spec_cands_row(
            g,
            y0 + cnt_y - 1,
            x0,
            cnt_x,
        )
    }
}

/// The 3x3 cell block around a position, clamped to the grid.
pub open spec fn spec_block(g: crate::neighbor_grid::NeighborGrid, p: Vec2Fx) -> (
    int,
    int,
    int,
    int,
) {
    let c = g.cell_of(p);
    let y0 = if c.0 - 1 > 0 {
        c.0 - 1
    } else {
        0
    };
    let y1 = if c.0 + 1 < g.shape.0 - 1 {
        c.0 + 1
    } else {
        g.shape.0 - 1
    };
    let x0 = if c.1 - 1 > 0 {
        c.1 - 1
    } else {
        0
    };
    let x1 = if c.1 + 1 < g.shape.1 - 1 {
        c.1 + 1
    } else {
        g.shape.1 - 1
    };
    (y0, y1, x0, x1)
}

/// All candidate neighbor indices for a position: the bucket contents of
/// the 3x3 cell block centered on its cell, clamped to the grid.
pub open spec fn spec_candidates(g: crate::neighbor_grid::NeighborGrid, p: Vec2Fx) -> Seq<u32> {
    let b = spec_block(g, p);
    if b.0 > b.1 || b.2 > b.3 {
        Seq::empty()
    } else {
        spec_cands_rows(g, b.0, (b.1 - b.0 + 1) as nat, b.2, (b.3 - b.2 + 1) as nat)
    }
}

/// Gather the candidate neighbors of a position from the hash, exactly the
/// indices of [`spec_candidates`].
pub fn gather_candidates(g: &crate::neighbor_grid::NeighborGrid, p: Vec2Fx) -> (r: Vec<u32>)
    requires
        g.wf(),
        p.bounded_by(COORD_MAX as int),
    ensures
        r@ == spec_candidates(*g, p),
{
    let cy = crate::fixed::div_floor(p.y, g.unit);
    let cx = crate::fixed::div_floor(p.x, g.unit);
    proof {
        lemma_div_bound(p.y as int, g.unit as int, COORD_MAX as int);
        lemma_div_bound(p.x as int, g.unit as int, COORD_MAX as int);
    }
    let y0: i64 = if cy - 1 > 0 {
        cy - 1
    } else {
        0
    };
    let y1: i64 = if cy + 1 < (g.shape.0 as i64) - 1 {
        cy + 1
    } else {
        (g.shape.0 as i64) - 1
    };
    let x0: i64 = if cx - 1 > 0 {
        cx - 1
    } else {
        0
    };
    let x1: i64 = if cx + 1 < (g.shape.1 as i64) - 1 {
        cx + 1
    } else {
        (g.shape.1 as i64) - 1
    };
    let mut r: Vec<u32> = Vec::new();
    if y0 > y1 || x0 > x1 {
        return r;
    }
    let mut y = y0;
    while y <= y1
        invariant
            g.wf(),
            y0 <= y <= y1 + 1,
            0 <= y0,
            y1 < g.shape.0,
            0 <= x0 <= x1,
            x1 < g.shape.1,
            r@ == spec_cands_rows(*g, y0 as int, (y - y0) as nat, x0 as int, (x1 - x0 + 1) as nat),
        decreases y1 + 1 - y,
    {
        let mut x = x0;
        while x <= x1
            invariant
                g.wf(),
                y0 <= y <= y1,
                0 <= y0,
                y1 < g.shape.0,
                x0 <= x <= x1 + 1,
                0 <= x0,
                x1 < g.shape.1,
                r@ == spec_cands_rows(*g, y0 as int, (y - y0) as nat, x0 as int, (x1 - x0
                    + 1) as nat) + spec_cands_row(*g, y as int, x0 as int, (x - x0) as nat),
            decreases x1 + 1 - x,
        {
            proof {
                crate::grid::lemma_pos_in_range(
                    g.shape.0 as int,
                    g.shape.1 as int,
                    y as int,
                    x as int,
                );
            }
            let cell = (y as usize) * g.shape.1 + (x as usize);
            let bucket_n = crate::neighbor_grid::bucket_len(&g.data[cell]);
            let mut k: usize = 0;
            while k < bucket_n
                invariant
                    g.wf(),
                    cell < g.data@.len(),
                    bucket_n == crate::neighbor_grid::bucket_contents(g.data@[cell as int]).len(),
                    k <= bucket_n,
                    y0 <= y <= y1,
                    x0 <= x <= x1,
                    0 <= x0,
                    0 <= y0,
                    x1 < g.shape.1,
                    y1 < g.shape.0,
                    cell == y * g.shape.1 + x,
                    r@ == spec_cands_rows(*g, y0 as int, (y - y0) as nat, x0 as int, (x1 - x0
                        + 1) as nat) + spec_cands_row(*g, y as int, x0 as int, (x - x0) as nat)
                        + crate::neighbor_grid::bucket_contents(g.data@[cell as int]).take(
                        k as int,
                    ),
                decreases bucket_n - k,
            {
                r.push(crate::neighbor_grid::bucket_get(&g.data[cell], k));
                proof {
                    let bc = crate::neighbor_grid::bucket_contents(g.data@[cell as int]);
                    assert(bc.take(k + 1) =~= bc.take(k as int).push(bc[k as int]));
                }
                k = k + 1;
            }
            proof {
                let bc = crate::neighbor_grid::bucket_contents(g.data@[cell as int]);
                assert(bc.take(bucket_n as int) =~= bc);
                assert(spec_cands_row(*g, y as int, x0 as int, (x + 1 - x0) as nat)
                    == spec_cands_row(*g, y as int, x0 as int, (x - x0) as nat) + bc);
            }
            x = x + 1;
        }
        proof {
            assert(spec_cands_rows(*g, y0 as int, (y + 1 - y0) as nat, x0 as int, (x1 - x0
                + 1) as nat) == spec_cands_rows(*g, y0 as int, (y - y0) as nat, x0 as int, (x1 - x0
                + 1) as nat) + spec_cands_row(*g, y as int, x0 as int, (x1 - x0 + 1) as nat));
        }
        y = y + 1;
    }
    r
}

/// Sum of the pairwise forces from the first `k` candidates on pedestrian
/// `i`; a candidate that is `i` itself or out of range contributes nothing.
pub open spec fn spec_pair_sum(
    positions: Seq<Vec2Fx>,
    velocities: Seq<Vec2Fx>,
    pos_i: Vec2Fx,
    e: Vec2Fx,
    i: int,
    cands: Seq<u32>,
    k: int,
) -> (int, int)
    decreases k,
{
    if k <= 0 {
        (0int, 0int)
    } else {
        let p = spec_pair_sum(positions, velocities, pos_i, e, i, cands, k - 1);
        let j = cands[k - 1] as int;
        if j == i || j >= positions.len() {
            p
        } else {
            let f = spec_pair_force(pos_i, e, positions[j], velocities[j]);
            (p.0 + f.x, p.1 + f.y)
        }
    }
}

/// Exec counterpart of [`spec_pair_sum`] over all candidates.
pub fn pair_sum(peds: &Pedestrians, pos_i: Vec2Fx, e: Vec2Fx, i: usize, cands: &Vec<u32>) -> (r: (
    i128,
    i128,
))
    requires
        peds.wf(0x100000000),
        pos_i.bounded_by(COORD_MAX as int),
        e.bounded_by(SCALE as int),
    ensures
        (r.0 as int, r.1 as int) == spec_pair_sum(
            peds.positions@,
            peds.velocities@,
            pos_i,
            e,
            i as int,
            cands@,
            cands@.len() as int,
        ),
        -0x40000000000000000000000000 <= r.0 <= 0x40000000000000000000000000,
        -0x40000000000000000000000000 <= r.1 <= 0x40000000000000000000000000,
{
    let n = cands.len();
    let n_peds = peds.positions.len();
    let mut ax: i128 = 0;
    let mut ay: i128 = 0;
    let mut k: usize = 0;
    while k < n
        invariant
            peds.wf(0x100000000),
            pos_i.bounded_by(COORD_MAX as int),
            e.bounded_by(SCALE as int),
            k <= n,
            n == cands@.len(),
            n_peds == peds.positions@.len(),
            (ax as int, ay as int) == spec_pair_sum(
                peds.positions@,
                peds.velocities@,
                pos_i,
                e,
                i as int,
                cands@,
                k as int,
            ),
            -0x400000000 * (k as int) <= ax <= 0x400000000 * (k as int),
            -0x400000000 * (k as int) <= ay <= 0x400000000 * (k as int),
        decreases n - k,
    {
        let j = cands[k] as usize;
        if j != i && j < n_peds {
            let f = pair_force(pos_i, e, peds.positions[j], peds.velocities[j]);
            ax = ax + (f.x as i128);
            ay = ay + (f.y as i128);
        }
        k = k + 1;
    }
    (ax, ay)
}

/// The social-force pedestrian model: struct-of-arrays state, an optional
/// neighbor hash, and the tick evaluation over the previous tick's
/// snapshot.
pub struct SocialForceModel {
    pub pedestrians: Pedestrians,
    pub neighbor_grid: Option<crate::neighbor_grid::NeighborGrid>,
    pub use_distance_map: bool,
}

/// Clamp one acceleration component into the scalar operating range.
pub open spec fn spec_clamp_acc(v: int) -> int {
    if v < -(FAR as int) {
        -(FAR as int)
    } else if v > FAR as int {
        FAR as int
    } else {
        v
    }
}

/// The acceleration of pedestrian `i`, computed entirely from the model
/// snapshot: destination attraction along the downhill potential direction,
/// pairwise repulsion from the neighbor-hash candidates (none without a
/// hash, as the pair search needs one), and obstacle repulsion from the
/// distance map or the obstacle segments; the sum saturates at the scalar
/// range.
pub open spec fn spec_acceleration(
    m: SocialForceModel,
    scenario: crate::scenario::Scenario,
    field: Field,
    i: int,
) -> Vec2Fx {
    let pos = m.pedestrians.positions@[i];
    let dest = m.pedestrians.destinations@[i] as int;
    let vel = m.pedestrians.velocities@[i];
    let speed = m.pedestrians.desired_speeds@[i] as int;
    let gc = Field::spec_grid_coords(pos, field.unit as int);
    let grad = crate::field::spec_sobel(field.potential_maps@[dest], gc.0, gc.1);
    let e = spec_normalize_or_zero(Vec2Fx { x: (-grad.x) as i64, y: (-grad.y) as i64 });
    let df = spec_dest_force(e, speed, vel);
    let pf = match m.neighbor_grid {
        Some(g) => {
            let cands = spec_candidates(g, pos);
            spec_pair_sum(
                m.pedestrians.positions@,
                m.pedestrians.velocities@,
                pos,
                e,
                i,
                cands,
                cands.len() as int,
            )
        },
        None => (0int, 0int),
    };
    let of = if m.use_distance_map {
        let f = spec_obstacle_force_map(field, pos);
        (f.x as int, f.y as int)
    } else {
        spec_obstacle_sum(scenario.obstacles@, pos, scenario.obstacles@.len() as int)
    };
    Vec2Fx {
        x: spec_clamp_acc(df.x + pf.0 + of.0) as i64,
        y: spec_clamp_acc(df.y + pf.1 + of.1) as i64,
    }
}

impl SocialForceModel {
    /// Model state the tick functions accept, relative to the field it
    /// navigates and the scenario's geometry.
    pub open spec fn wf(self, field: Field, scenario: crate::scenario::Scenario) -> bool {
        &&& self.pedestrians.wf(field.potential_maps@.len() as int)
        &&& match self.neighbor_grid {
            Some(g) => g.wf(),
            None => true,
        }
        &&& field.wf()
        &&& scenario.wf()
    }

    /// A fresh model; the neighbor hash covers the scenario rectangle when
    /// enabled.
    pub fn new(
        options: &crate::SimulatorOptions,
        scenario: &crate::scenario::Scenario,
        field: &Field,
    ) -> (r: SocialForceModel)
        requires
            options.wf(),
            scenario.wf(),
            field.wf(),
            1 <= scenario.field.size.x <= 0x8000 * options.neighbor_grid_unit,
            1 <= scenario.field.size.y <= 0x8000 * options.neighbor_grid_unit,
        ensures
            r.wf(*field, *scenario),
            r.pedestrians.positions@.len() == 0,
            r.use_distance_map == options.use_distance_map,
            r.neighbor_grid is Some <==> options.use_neighbor_grid,
    {
        let neighbor_grid = if options.use_neighbor_grid {
            Some(
                crate::neighbor_grid::NeighborGrid::new(
                    scenario.field.size,
                    options.neighbor_grid_unit,
                ),
            )
        } else {
            None
        };
        SocialForceModel {
            pedestrians: Pedestrians::new(),
            neighbor_grid,
            use_distance_map: options.use_distance_map,
        }
    }

    /// The acceleration of pedestrian `i`, exactly [`spec_acceleration`].
    pub fn calc_acceleration(
        &self,
        scenario: &crate::scenario::Scenario,
        field: &Field,
        i: usize,
    ) -> (r: Vec2Fx)
        requires
            self.wf(*field, *scenario),
            i < self.pedestrians.positions@.len(),
        ensures
            r == spec_acceleration(*self, *scenario, *field, i as int),
            r.bounded_by(FAR as int),
    {
        let pos = self.pedestrians.positions[i];
        let dest = self.pedestrians.destinations[i] as usize;
        let vel = self.pedestrians.velocities[i];
        let speed = self.pedestrians.desired_speeds[i];

        let grad = field.get_potential_grad(dest, pos);
        let e = Vec2Fx { x: -grad.x, y: -grad.y }.normalize_or_zero();
        let df = dest_force(e, speed, vel);

        let (px, py): (i128, i128) = match &self.neighbor_grid {
            Some(g) => {
                let cands = gather_candidates(g, pos);
                proof {
                    assert(self.pedestrians.wf(0x100000000)) by {
                        assert(self.pedestrians.wf(field.potential_maps@.len() as int));
                    }
                }
                pair_sum(&self.pedestrians, pos, e, i, &cands)
            },
            None => (0, 0),
        };
        let (ox, oy): (i64, i64) = if self.use_distance_map {
            let f = obstacle_force_map(field, pos);
            (f.x, f.y)
        } else {
            let f = obstacle_sum(&scenario.obstacles, pos);
            (f.x, f.y)
        };

        let sx: i128 = (df.x as i128) + px + (ox as i128);
        let sy: i128 = (df.y as i128) + py + (oy as i128);
        let rx: i64 = if sx < -(FAR as i128) {
            -FAR
        } else if sx > FAR as i128 {
            FAR
        } else {
            sx as i64
        };
        let ry: i64 = if sy < -(FAR as i128) {
            -FAR
        } else if sy > FAR as i128 {
            FAR
        } else {
            sy as i64
        };
        Vec2Fx { x: rx, y: ry }
    }

    /// One force-and-integrate pass: every pedestrian's acceleration is
    /// evaluated against the previous tick's snapshot, then all slots are
    /// committed. Each output slot is a function of the old state alone, so
    /// evaluation order cannot matter.
    #[verifier::rlimit(100)]
    #[verifier::spinoff_prover]
    pub fn update_states(&mut self, scenario: &crate::scenario::Scenario, field: &Field)
        requires
            old(self).wf(*field, *scenario),
        ensures
            final(self).wf(*field, *scenario),
            final(self).neighbor_grid == old(self).neighbor_grid,
            final(self).use_distance_map == old(self).use_distance_map,
            final(self).pedestrians.positions@.len() == old(self).pedestrians.positions@.len(),
            final(self).pedestrians.destinations@ == old(self).pedestrians.destinations@,
            final(self).pedestrians.desired_speeds@ == old(self).pedestrians.desired_speeds@,
            forall|i: int|
                0 <= i < old(self).pedestrians.positions@.len()
                    ==> #[trigger] final(self).pedestrians.positions@[i] == spec_integrate(
                    old(self).pedestrians.positions@[i],
                    old(self).pedestrians.velocities@[i],
                    spec_acceleration(*old(self), *scenario, *field, i),
                    old(self).pedestrians.desired_speeds@[i] as int,
                ).0,
            forall|i: int|
                0 <= i < old(self).pedestrians.positions@.len()
                    ==> #[trigger] final(self).pedestrians.velocities@[i] == spec_integrate(
                    old(self).pedestrians.positions@[i],
                    old(self).pedestrians.velocities@[i],
                    spec_acceleration(*old(self), *scenario, *field, i),
                    old(self).pedestrians.desired_speeds@[i] as int,
                ).1,
    {
        let n = self.pedestrians.len();
        let mut accs: Vec<Vec2Fx> = Vec::new();
        let mut i: usize = 0;
        while i < n
            invariant
                self.wf(*field, *scenario),
                self == old(self),
                n == self.pedestrians.positions@.len(),
                i <= n,
                accs@.len() == i,
                forall|k: int|
                    0 <= k < i ==> #[trigger] accs@[k] == spec_acceleration(
                        *old(self),
                        *scenario,
                        *field,
                        k,
                    ) && accs@[k].bounded_by(FAR as int),
            decreases n - i,
        {
            let a = self.calc_acceleration(scenario, field, i);
            accs.push(a);
            i = i + 1;
        }

        let mut i: usize = 0;
        while i < n
            invariant
                self.pedestrians.positions@.len() == n,
                self.pedestrians.velocities@.len() == n,
                self.pedestrians.destinations@ == old(self).pedestrians.destinations@,
                self.pedestrians.desired_speeds@ == old(self).pedestrians.desired_speeds@,
                self.neighbor_grid == old(self).neighbor_grid,
                self.use_distance_map == old(self).use_distance_map,
                old(self).wf(*field, *scenario),
                old(self).pedestrians.positions@.len() == n,
                accs@.len() == n,
                i <= n,
                forall|k: int|
                    0 <= k < n ==> #[trigger] accs@[k] == spec_acceleration(
                        *old(self),
                        *scenario,
                        *field,
                        k,
                    ) && accs@[k].bounded_by(FAR as int),
                forall|k: int|
                    i <= k < n ==> #[trigger] self.pedestrians.positions@[k] == old(
                        self,
                    ).pedestrians.positions@[k] && self.pedestrians.velocities@[k] == old(
                        self,
                    ).pedestrians.velocities@[k],
                forall|k: int|
                    0 <= k < i ==> ({
                        let st = spec_integrate(
                            old(self).pedestrians.positions@[k],
                            old(self).pedestrians.velocities@[k],
                            spec_acceleration(*old(self), *scenario, *field, k),
                            old(self).pedestrians.desired_speeds@[k] as int,
                        );
                        #[trigger] self.pedestrians.positions@[k] == st.0
                            && self.pedestrians.velocities@[k] == st.1
                    }),
                forall|k: int|
                    0 <= k < n ==> (#[trigger] self.pedestrians.positions@[k]).bounded_by(
                        COORD_MAX as int,
                    ),
                forall|k: int|
                    0 <= k < n ==> (#[trigger] self.pedestrians.velocities@[k]).bounded_by(
                        VEL_MAX as int,
                    ),
            decreases n - i,
        {
            let st = integrate(
                self.pedestrians.positions[i],
                self.pedestrians.velocities[i],
                accs[i],
                self.pedestrians.desired_speeds[i],
            );
            let ghost prev_pos = self.pedestrians.positions@;
            let ghost prev_vel = self.pedestrians.velocities@;
            self.pedestrians.positions.set(i, st.0);
            self.pedestrians.velocities.set(i, st.1);
            proof {
                assert(self.pedestrians.positions@ == prev_pos.update(i as int, st.0));
                assert(self.pedestrians.velocities@ == prev_vel.update(i as int, st.1));
                assert forall|k: int| i + 1 <= k < n implies #[trigger] self.pedestrians.positions@[k]
                    == old(self).pedestrians.positions@[k] && self.pedestrians.velocities@[k]
                    == old(self).pedestrians.velocities@[k] by {
                    assert(prev_pos[k] == old(self).pedestrians.positions@[k]);
                    assert(prev_vel[k] == old(self).pedestrians.velocities@[k]);
                }
                assert forall|k: int| 0 <= k < i + 1 implies ({
                    let stk = spec_integrate(
                        old(self).pedestrians.positions@[k],
                        old(self).pedestrians.velocities@[k],
                        spec_acceleration(*old(self), *scenario, *field, k),
                        old(self).pedestrians.desired_speeds@[k] as int,
                    );
                    #[trigger] self.pedestrians.positions@[k] == stk.0
                        && self.pedestrians.velocities@[k] == stk.1
                }) by {
                    if k < i {
                        assert(prev_pos[k] == self.pedestrians.positions@[k]);
                        assert(prev_vel[k] == self.pedestrians.velocities@[k]);
                    }
                }
            }
            i = i + 1;
        }
        proof {
            assert forall|q: int|
                0 <= q < old(self).pedestrians.positions@.len()
                    implies #[trigger] self.pedestrians.positions@[q] == spec_integrate(
                old(self).pedestrians.positions@[q],
                old(self).pedestrians.velocities@[q],
                spec_acceleration(*old(self), *scenario, *field, q),
                old(self).pedestrians.desired_speeds@[q] as int,
            ).0 by {
                assert(0 <= q < n);
            }
            assert forall|q: int|
                0 <= q < old(self).pedestrians.positions@.len()
                    implies #[trigger] self.pedestrians.velocities@[q] == spec_integrate(
                old(self).pedestrians.positions@[q],
                old(self).pedestrians.velocities@[q],
                spec_acceleration(*old(self), *scenario, *field, q),
                old(self).pedestrians.desired_speeds@[q] as int,
            ).1 by {
                assert(0 <= q < n);
                assert(self.pedestrians.positions@[q] == spec_integrate(
                    old(self).pedestrians.positions@[q],
                    old(self).pedestrians.velocities@[q],
                    spec_acceleration(*old(self), *scenario, *field, q),
                    old(self).pedestrians.desired_speeds@[q] as int,
                ).0);
            }
        }
    }
}

/// Every index `spec_kept` lists lies below its bound, in increasing
/// order of appearance.
pub proof fn lemma_kept_range(field: Field, positions: Seq<Vec2Fx>, dests: Seq<u32>, k: int)
    ensures
        spec_kept(field, positions, dests, k).len() <= (if k <= 0 {
            0int
        } else {
            k
        }),
        forall|t: int|
            0 <= t < spec_kept(field, positions, dests, k).len() ==> 0 <= #[trigger] spec_kept(
                field,
                positions,
                dests,
                k,
            )[t] < k,
    decreases (if k <= 0 {
        0int
    } else {
        k
    }),
{
    if k > 0 {
        lemma_kept_range(field, positions, dests, k - 1);
        let rest = spec_kept(field, positions, dests, k - 1);
        assert forall|t: int|
            0 <= t < spec_kept(field, positions, dests, k).len() implies 0 <= #[trigger] spec_kept(
            field,
            positions,
            dests,
            k,
        )[t] < k by {
            if t < rest.len() {
                assert(spec_kept(field, positions, dests, k)[t] == rest[t]);
            }
        }
    }
}

/// The spawn pipeline's result: `after` holds the arrival-filtered
/// concatenation of the previous pedestrian arrays and the batch `new`,
/// the batch entering with zero velocity and the drawn `speeds`.
pub open spec fn spec_spawn_result(
    pos0: Seq<Vec2Fx>,
    dest0: Seq<u32>,
    vel0: Seq<Vec2Fx>,
    sp0: Seq<i64>,
    after: Pedestrians,
    field: Field,
    new: Seq<Pedestrian>,
    speeds: Seq<i64>,
) -> bool {
    let pos1 = pos0 + Seq::new(new.len(), |k: int| new[k].pos);
    let dest1 = dest0 + Seq::new(new.len(), |k: int| new[k].destination as u32);
    let vel1 = vel0 + Seq::new(new.len(), |k: int| Vec2Fx { x: 0, y: 0 });
    let sp1 = sp0 + speeds;
    let kept = spec_kept(field, pos1, dest1, pos1.len() as int);
    &&& speeds.len() == new.len()
    &&& (forall|k: int| 0 <= k < speeds.len() ==> 0 <= #[trigger] speeds[k] <= SPEED_MAX)
    &&& after.positions@ == picked(pos1, kept)
    &&& after.destinations@ == picked(dest1, kept)
    &&& after.velocities@ == picked(vel1, kept)
    &&& after.desired_speeds@ == picked(sp1, kept)
}

/// The elements of `s` at the positions listed in `idx`.
pub open spec fn picked<A>(s: Seq<A>, idx: Seq<int>) -> Seq<A> {
    Seq::new(idx.len(), |t: int| s[idx[t]])
}

/// Whether a pedestrian at `pos` heading for waypoint `dest` is still on
/// its way: its destination potential has not yet dropped to the arrival
/// threshold.
pub open spec fn spec_keep(field: Field, pos: Vec2Fx, dest: u32) -> bool {
    let gc = Field::spec_grid_coords(pos, field.unit as int);
    crate::util::spec_bilinear(field.potential_maps@[dest as int], gc.0, gc.1) > ARRIVAL_THRESHOLD
}

/// The indices of the first `k` pedestrians that are still on their way,
/// in order.
pub open spec fn spec_kept(
    field: Field,
    positions: Seq<Vec2Fx>,
    dests: Seq<u32>,
    k: int,
) -> Seq<int>
    decreases k,
{
    if k <= 0 {
        Seq::empty()
    } else {
        let rest = spec_kept(field, positions, dests, k - 1);
        if spec_keep(field, positions[k - 1], dests[k - 1]) {
            rest.push(k - 1)
        } else {
            rest
        }
    }
}

impl SocialForceModel {
    /// Drop every pedestrian whose destination potential has fallen to the
    /// arrival threshold, keeping the others in order.
    pub fn remove_arrived(&mut self, field: &Field)
        requires
            old(self).pedestrians.wf(field.potential_maps@.len() as int),
            field.wf(),
        ensures
            final(self).neighbor_grid == old(self).neighbor_grid,
            final(self).use_distance_map == old(self).use_distance_map,
            final(self).pedestrians.wf(field.potential_maps@.len() as int),
            final(self).pedestrians.positions@.len() <= old(self).pedestrians.positions@.len(),
            ({
                let kept = spec_kept(
                    *field,
                    old(self).pedestrians.positions@,
                    old(self).pedestrians.destinations@,
                    old(self).pedestrians.positions@.len() as int,
                );
                &&& final(self).pedestrians.positions@ == picked(
                    old(self).pedestrians.positions@,
                    kept,
                )
                &&& final(self).pedestrians.destinations@ == picked(
                    old(self).pedestrians.destinations@,
                    kept,
                )
                &&& final(self).pedestrians.velocities@ == picked(
                    old(self).pedestrians.velocities@,
                    kept,
                )
                &&& final(self).pedestrians.desired_speeds@ == picked(
                    old(self).pedestrians.desired_speeds@,
                    kept,
                )
            }),
    {
        let n = self.pedestrians.len();
        let mut kept = Pedestrians::new();
        let mut i: usize = 0;
        while i < n
            invariant
                self.pedestrians.wf(field.potential_maps@.len() as int),
                field.wf(),
                self == old(self),
                n == self.pedestrians.positions@.len(),
                i <= n,
                kept.positions@ == picked(
                    self.pedestrians.positions@,
                    spec_kept(
                        *field,
                        self.pedestrians.positions@,
                        self.pedestrians.destinations@,
                        i as int,
                    ),
                ),
                kept.destinations@ == picked(
                    self.pedestrians.destinations@,
                    spec_kept(
                        *field,
                        self.pedestrians.positions@,
                        self.pedestrians.destinations@,
                        i as int,
                    ),
                ),
                kept.velocities@ == picked(
                    self.pedestrians.velocities@,
                    spec_kept(
                        *field,
                        self.pedestrians.positions@,
                        self.pedestrians.destinations@,
                        i as int,
                    ),
                ),
                kept.desired_speeds@ == picked(
                    self.pedestrians.desired_speeds@,
                    spec_kept(
                        *field,
                        self.pedestrians.positions@,
                        self.pedestrians.destinations@,
                        i as int,
                    ),
                ),
                kept.positions@.len() <= i,
                kept.destinations@.len() == kept.positions@.len(),
                kept.velocities@.len() == kept.positions@.len(),
                kept.desired_speeds@.len() == kept.positions@.len(),
            decreases n - i,
        {
            let ghost pre = spec_kept(
                *field,
                self.pedestrians.positions@,
                self.pedestrians.destinations@,
                i as int,
            );
            let pos = self.pedestrians.positions[i];
            let dest = self.pedestrians.destinations[i];
            let p = self.pedestrians.get_potential_of(field, i);
            if p > ARRIVAL_THRESHOLD {
                kept.copy(&self.pedestrians, i);
                proof {
                    let now = spec_kept(
                        *field,
                        self.pedestrians.positions@,
                        self.pedestrians.destinations@,
                        i + 1,
                    );
                    assert(now == pre.push(i as int));
                    assert(kept.positions@ =~= picked(self.pedestrians.positions@, now));
                    assert(kept.destinations@ =~= picked(self.pedestrians.destinations@, now));
                    assert(kept.velocities@ =~= picked(self.pedestrians.velocities@, now));
                    assert(kept.desired_speeds@ =~= picked(self.pedestrians.desired_speeds@, now));
                }
            } else {
                proof {
                    let now = spec_kept(
                        *field,
                        self.pedestrians.positions@,
                        self.pedestrians.destinations@,
                        i + 1,
                    );
                    assert(now == pre);
                }
            }
            i = i + 1;
        }
        proof {
            lemma_kept_range(
                *field,
                self.pedestrians.positions@,
                self.pedestrians.destinations@,
                n as int,
            );
            let keptidx = spec_kept(
                *field,
                self.pedestrians.positions@,
                self.pedestrians.destinations@,
                n as int,
            );
            assert forall|t: int| 0 <= t < kept.positions@.len() implies (
            #[trigger] kept.positions@[t]).bounded_by(COORD_MAX as int) by {
                assert(kept.positions@[t] == self.pedestrians.positions@[keptidx[t]]);
            }
            assert forall|t: int| 0 <= t < kept.positions@.len() implies (
            #[trigger] kept.velocities@[t]).bounded_by(VEL_MAX as int) by {
                assert(kept.velocities@[t] == self.pedestrians.velocities@[keptidx[t]]);
            }
            assert forall|t: int| 0 <= t < kept.positions@.len() implies 0
                <= #[trigger] kept.desired_speeds@[t] <= SPEED_MAX by {
                assert(kept.desired_speeds@[t] == self.pedestrians.desired_speeds@[keptidx[t]]);
            }
            assert forall|t: int| 0 <= t < kept.positions@.len() implies (
            #[trigger] kept.destinations@[t]) < field.potential_maps@.len() by {
                assert(kept.destinations@[t] == self.pedestrians.destinations@[keptidx[t]]);
            }
        }
        self.pedestrians = kept;
    }

    /// Snapshot of the active pedestrians' positions and destinations.
    pub fn list_pedestrians(&self) -> (r: Vec<Pedestrian>)
        requires
            self.pedestrians.destinations@.len() == self.pedestrians.positions@.len(),
        ensures
            r@.len() == self.pedestrians.positions@.len(),
            forall|i: int|
                0 <= i < r@.len() ==> (#[trigger] r@[i]).pos == self.pedestrians.positions@[i]
                    && r@[i].destination == self.pedestrians.destinations@[i] as int,
    {
        let n = self.pedestrians.len();
        let mut r: Vec<Pedestrian> = Vec::new();
        let mut i: usize = 0;
        while i < n
            invariant
                n == self.pedestrians.positions@.len(),
                self.pedestrians.destinations@.len() == n,
                i <= n,
                r@.len() == i,
                forall|k: int|
                    0 <= k < i ==> (#[trigger] r@[k]).pos == self.pedestrians.positions@[k]
                        && r@[k].destination == self.pedestrians.destinations@[k] as int,
            decreases n - i,
        {
            r.push(
                Pedestrian {
                    pos: self.pedestrians.positions[i],
                    destination: self.pedestrians.destinations[i] as usize,
                },
            );
            i = i + 1;
        }
        r
    }

    /// Number of active pedestrians.
    pub fn get_pedestrian_count(&self) -> (r: i32)
        requires
            self.pedestrians.positions@.len() <= 0x7fffffff,
        ensures
            r == self.pedestrians.positions@.len(),
    {
        self.pedestrians.len() as i32
    }
}

impl Pedestrians {
    /// Destination potential of pedestrian `i`.
    fn get_potential_of(&self, field: &Field, i: usize) -> (r: i64)
        requires
            self.wf(field.potential_maps@.len() as int),
            field.wf(),
            i < self.positions@.len(),
        ensures
            (r > ARRIVAL_THRESHOLD) == spec_keep(
                *field,
                self.positions@[i as int],
                self.destinations@[i as int],
            ),
    {
        field.get_potential(self.destinations[i] as usize, self.positions[i])
    }
}

/// A desired walking speed: mean 1.34, deviation 0.26, drawn through a
/// twelve-fold uniform sum (a normal approximation), clamped non-negative.
/// Nothing more can be promised of a random draw than its range.
pub fn sample_speed(rng: &mut fastrand::Rng) -> (r: i64)
    ensures
        0 <= r <= SPEED_MAX,
{
    let mut z: i64 = -6 * SCALE;
    let mut k: usize = 0;
    while k < 12
        invariant
            -6144 <= z <= -6144 + (k as int) * 1023,
            k <= 12,
        decreases 12 - k,
    {
        z = z + (crate::rng::rand_below(rng, SCALE as u64) as i64);
        k = k + 1;
    }
    proof {
        lemma_div_bound(266 * z, SCALE as int, 0x700000);
    }
    let dev = crate::fixed::div_floor(266 * z, SCALE);
    let speed = 1372 + dev;
    if speed < 0 {
        0
    } else if speed > SPEED_MAX {
        SPEED_MAX
    } else {
        speed
    }
}

impl SocialForceModel {
    /// Take a batch of newly spawned pedestrians into the model (zero
    /// velocity, a randomly drawn desired speed), drop everyone who has
    /// arrived, and rebuild the neighbor hash. The random speeds are
    /// existentially quantified: everything else is the deterministic
    /// filter over the appended state.
    pub fn spawn_pedestrians(
        &mut self,
        field: &Field,
        new_pedestrians: &Vec<Pedestrian>,
        rng: &mut fastrand::Rng,
    )
        requires
            old(self).pedestrians.wf(field.potential_maps@.len() as int),
            field.wf(),
            match old(self).neighbor_grid {
                Some(g) => g.wf(),
                None => true,
            },
            old(self).pedestrians.positions@.len() + new_pedestrians@.len() <= 0x7fffffff,
            forall|i: int|
                0 <= i < new_pedestrians@.len() ==> (#[trigger] new_pedestrians@[i]).pos.bounded_by(
                    COORD_MAX as int,
                ) && new_pedestrians@[i].destination < field.potential_maps@.len(),
        ensures
            final(self).pedestrians.wf(field.potential_maps@.len() as int),
            final(self).use_distance_map == old(self).use_distance_map,
            final(self).pedestrians.positions@.len() <= old(self).pedestrians.positions@.len()
                + new_pedestrians@.len(),
            exists|speeds: Seq<i64>|
                #![trigger speeds.len()]
                spec_spawn_result(
                    old(self).pedestrians.positions@,
                    old(self).pedestrians.destinations@,
                    old(self).pedestrians.velocities@,
                    old(self).pedestrians.desired_speeds@,
                    final(self).pedestrians,
                    *field,
                    new_pedestrians@,
                    speeds,
                ),
            match final(self).neighbor_grid {
                Some(g) => {
                    &&& g.wf()
                    &&& old(self).neighbor_grid is Some
                    &&& g.complete_for(
                        final(self).pedestrians.positions@,
                        Seq::new(final(self).pedestrians.positions@.len(), |i: int| true),
                    )
                },
                None => old(self).neighbor_grid is None,
            },
    {
        let n_new = new_pedestrians.len();
        let ghost speeds0 = Seq::<i64>::empty();
        let ghost old_pos = self.pedestrians.positions@;
        let ghost old_dest = self.pedestrians.destinations@;
        let ghost old_vel = self.pedestrians.velocities@;
        let ghost old_sp = self.pedestrians.desired_speeds@;
        let mut speeds_g: Ghost<Seq<i64>> = Ghost(Seq::empty());
        let mut k: usize = 0;
        while k < n_new
            invariant
                n_new == new_pedestrians@.len(),
                k <= n_new,
                field.wf(),
                speeds_g@.len() == k,
                forall|t: int| 0 <= t < k ==> 0 <= #[trigger] speeds_g@[t] <= SPEED_MAX,
                old_pos.len() + n_new <= 0x7fffffff,
                forall|i: int|
                    0 <= i < new_pedestrians@.len()
                        ==> (#[trigger] new_pedestrians@[i]).pos.bounded_by(COORD_MAX as int)
                        && new_pedestrians@[i].destination < field.potential_maps@.len(),
                self.pedestrians.positions@ == old_pos + Seq::new(
                    k as nat,
                    |t: int| new_pedestrians@[t].pos,
                ),
                self.pedestrians.destinations@ == old_dest + Seq::new(
                    k as nat,
                    |t: int| new_pedestrians@[t].destination as u32,
                ),
                self.pedestrians.velocities@ == old_vel + Seq::new(
                    k as nat,
                    |t: int| Vec2Fx { x: 0, y: 0 },
                ),
                self.pedestrians.desired_speeds@ == old_sp + speeds_g@,
                self.neighbor_grid == old(self).neighbor_grid,
                self.use_distance_map == old(self).use_distance_map,
                old_pos == old(self).pedestrians.positions@,
                old_dest == old(self).pedestrians.destinations@,
                old_vel == old(self).pedestrians.velocities@,
                old_sp == old(self).pedestrians.desired_speeds@,
                old(self).pedestrians.wf(field.potential_maps@.len() as int),
            decreases n_new - k,
        {
            let p = &new_pedestrians[k];
            let speed = sample_speed(rng);
            self.pedestrians.push(p.pos, p.destination as u32, Vec2Fx { x: 0, y: 0 }, speed);
            proof {
                speeds_g@ = speeds_g@.push(speed);
                assert(self.pedestrians.positions@ =~= old_pos + Seq::new(
                    (k + 1) as nat,
                    |t: int| new_pedestrians@[t].pos,
                ));
                assert(self.pedestrians.destinations@ =~= old_dest + Seq::new(
                    (k + 1) as nat,
                    |t: int| new_pedestrians@[t].destination as u32,
                ));
                assert(self.pedestrians.velocities@ =~= old_vel + Seq::new(
                    (k + 1) as nat,
                    |t: int| Vec2Fx { x: 0, y: 0 },
                ));
                assert(self.pedestrians.desired_speeds@ =~= old_sp + speeds_g@);
            }
            k = k + 1;
        }
        proof {
            assert(self.pedestrians.wf(field.potential_maps@.len() as int)) by {
                assert(forall|i: int|
                    0 <= i < self.pedestrians.positions@.len()
                        ==> (#[trigger] self.pedestrians.positions@[i]).bounded_by(
                        COORD_MAX as int,
                    ));
                assert(forall|i: int|
                    0 <= i < self.pedestrians.positions@.len()
                        ==> (#[trigger] self.pedestrians.velocities@[i]).bounded_by(
                        VEL_MAX as int,
                    ));
            }
        }
        self.remove_arrived(field);
        match &mut self.neighbor_grid {
            Some(g) => {
                g.update(&self.pedestrians.positions);
            },
            None => {},
        }
    }
}

} // verus!

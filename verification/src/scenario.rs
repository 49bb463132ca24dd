//! Scenario data: field extents, obstacle and waypoint segments, and
//! pedestrian sources. All geometry is in fixed-point world coordinates; an
//! external loader parses files and hands these plain values in.

use vstd::prelude::*;

use crate::util::Vec2Fx;

verus! {

/// Coordinate magnitude the rasterizer accepts (`2^30` fixed-point steps).
pub const COORD_MAX: i64 = 0x40000000;

/// Scenario data.
#[derive(Debug, Default, Clone)]
pub struct Scenario {
    pub field: FieldConfig,
    pub waypoints: Vec<WaypointConfig>,
    pub obstacles: Vec<ObstacleConfig>,
    pub pedestrians: Vec<PedestrianConfig>,
}

#[derive(Debug, Default, Clone)]
pub struct FieldConfig {
    pub size: Vec2Fx,
}

#[derive(Debug, Clone)]
pub struct ObstacleConfig {
    pub line: [Vec2Fx; 2],
    pub width: i64,
}

impl Default for ObstacleConfig {
    /// A degenerate segment of one-unit width.
    fn default() -> (r: ObstacleConfig)
        ensures
            r.line[0] == (Vec2Fx { x: 0, y: 0 }),
            r.line[1] == (Vec2Fx { x: 0, y: 0 }),
            r.width == crate::fixed::SCALE,
    {
        ObstacleConfig {
            line: [Vec2Fx { x: 0, y: 0 }, Vec2Fx { x: 0, y: 0 }],
            width: crate::fixed::SCALE,
        }
    }
}

#[derive(Debug, Clone)]
pub struct WaypointConfig {
    pub line: [Vec2Fx; 2],
    pub width: i64,
}

impl Default for WaypointConfig {
    /// A degenerate segment of one-unit width.
    fn default() -> (r: WaypointConfig)
        ensures
            r.line[0] == (Vec2Fx { x: 0, y: 0 }),
            r.line[1] == (Vec2Fx { x: 0, y: 0 }),
            r.width == crate::fixed::SCALE,
    {
        WaypointConfig {
            line: [Vec2Fx { x: 0, y: 0 }, Vec2Fx { x: 0, y: 0 }],
            width: crate::fixed::SCALE,
        }
    }
}

/// A pedestrian source: spawn at `origin`, walk toward `destination`.
#[derive(Debug, Clone)]
pub struct PedestrianConfig {
    pub origin: usize,
    pub destination: usize,
    pub spawn: PedestrianSpawnConfig,
}

/// How a source spawns: a Poisson stream at `frequency` per second, or a
/// fixed `count` once at start.
#[derive(Debug, Clone)]
pub enum PedestrianSpawnConfig {
    Periodic { frequency: i64 },
    Once { count: i32 },
}

#[derive(Debug, Default, Clone, PartialEq, Eq, Structural)]
pub enum PedestrianSpawnKind {
    #[default]
    Periodic,
    Once,
}

/// A segment usable by the rasterizer: both endpoints within the coordinate
/// range, and a non-negative width below it.
pub open spec fn segment_ok(line: [Vec2Fx; 2], width: int) -> bool {
    &&& line[0].bounded_by(COORD_MAX as int)
    &&& line[1].bounded_by(COORD_MAX as int)
    &&& 0 <= width <= COORD_MAX
}

impl Scenario {
    /// Geometry within the rasterizer's range and every pedestrian source
    /// naming existing waypoints.
    pub open spec fn wf(self) -> bool {
        &&& self.obstacles@.len() <= 0x10000
        &&& self.waypoints@.len() <= 0x10000
        &&& self.pedestrians@.len() <= 0x8000
        &&& forall|i: int|
            0 <= i < self.obstacles.len() ==> segment_ok(
                (#[trigger] self.obstacles@[i]).line,
                self.obstacles@[i].width as int,
            )
        &&& forall|i: int|
            0 <= i < self.waypoints.len() ==> segment_ok(
                (#[trigger] self.waypoints@[i]).line,
                self.waypoints@[i].width as int,
            )
        &&& forall|i: int|
            0 <= i < self.pedestrians.len() ==> (#[trigger] self.pedestrians@[i]).origin
                < self.waypoints.len() && self.pedestrians@[i].destination < self.waypoints.len()
        &&& forall|i: int|
            0 <= i < self.pedestrians.len() ==> match (#[trigger] self.pedestrians@[i]).spawn {
                PedestrianSpawnConfig::Once { count } => 0 <= count <= 0x8000,
                PedestrianSpawnConfig::Periodic { frequency } => 0 <= frequency <= 0x100000,
            }
    }
}

} // verus!

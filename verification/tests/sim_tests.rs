//! Whole-model checks: neighbor-grid completeness, Poisson spawning, empty
//! ticks, and an end-to-end corridor walk.

use pedoni::models::Pedestrian;
use pedoni::neighbor_grid::{bucket_get, bucket_len, NeighborGrid};
use pedoni::scenario::{
    FieldConfig, ObstacleConfig, PedestrianConfig, PedestrianSpawnConfig, Scenario, WaypointConfig,
};
use pedoni::sfm_gpu::GpuError;
use pedoni::util::{poisson, Vec2Fx};
use pedoni::{Backend, Model, Simulator, SimulatorOptions, TickOutcome};

fn v(x: i64, y: i64) -> Vec2Fx {
    Vec2Fx { x, y }
}

#[test]
fn neighbor_grid_completeness() {
    // a 7 x 7 meter grid, 1.4-meter cells
    let mut grid = NeighborGrid::new(v(7 * 1024, 7 * 1024), 1434);
    let positions = vec![
        v(100, 100),
        v(2000, 300),
        v(2100, 350),
        v(6000, 6000),
        v(-500, 100),   // out of the grid: must appear nowhere
        v(100, 120),
    ];
    grid.update(&positions);

    let cols = grid.shape.1 as i64;
    for (i, p) in positions.iter().enumerate() {
        let cy = p.y.div_euclid(grid.unit);
        let cx = p.x.div_euclid(grid.unit);
        let in_grid =
            cy >= 0 && cx >= 0 && cy < grid.shape.0 as i64 && cx < grid.shape.1 as i64;
        let mut seen = 0;
        for c in 0..grid.data.len() {
            let n = bucket_len(&grid.data[c]);
            for k in 0..n {
                if bucket_get(&grid.data[c], k) == i as u32 {
                    seen += 1;
                    // it sits in exactly the cell floor(position / unit)
                    assert_eq!(c as i64, cy * cols + cx);
                }
            }
        }
        assert_eq!(seen, if in_grid { 1 } else { 0 }, "pedestrian {i}");
    }
}

#[test]
fn neighbor_grid_skips_inactive_pedestrians() {
    let mut grid = NeighborGrid::new(v(7 * 1024, 7 * 1024), 1434);
    let positions = vec![v(100, 100), v(2000, 300), v(2100, 350)];
    let actives = vec![true, false, true];
    grid.update_only_active(&positions, &actives);

    let cols = grid.shape.1 as i64;
    for (i, p) in positions.iter().enumerate() {
        let cy = p.y.div_euclid(grid.unit);
        let cx = p.x.div_euclid(grid.unit);
        let mut seen = 0;
        for c in 0..grid.data.len() {
            let n = bucket_len(&grid.data[c]);
            for k in 0..n {
                if bucket_get(&grid.data[c], k) == i as u32 {
                    seen += 1;
                    assert_eq!(c as i64, cy * cols + cx);
                }
            }
        }
        assert_eq!(seen, if actives[i] { 1 } else { 0 }, "pedestrian {i}");
    }
}

#[test]
fn poisson_mean_converges_to_rate() {
    let mut rng = fastrand::Rng::with_seed(12345);
    let lambda = 2560i64; // rate 2.5
    let draws = 20000;
    let mut total: i64 = 0;
    for _ in 0..draws {
        total += poisson(lambda, &mut rng) as i64;
    }
    let mean_milli = total * 1000 / draws;
    // empirical mean within 5 percent of 2.5
    assert!(
        (2375..=2625).contains(&mean_milli),
        "empirical mean (milli-units): {mean_milli}"
    );
}

#[test]
fn poisson_zero_rate_spawns_nothing() {
    let mut rng = fastrand::Rng::with_seed(9);
    for _ in 0..100 {
        assert_eq!(poisson(0, &mut rng), 0);
    }
}

fn empty_scenario() -> Scenario {
    Scenario {
        field: FieldConfig { size: v(8 * 1024, 8 * 1024) },
        obstacles: Vec::new(),
        waypoints: vec![WaypointConfig {
            line: [v(2048, 2048), v(2048, 4096)],
            ..Default::default()
        }],
        pedestrians: Vec::new(),
    }
}

#[test]
fn empty_tick_is_idle_on_cpu() {
    let mut sim = Simulator::new(SimulatorOptions::default(), empty_scenario());
    assert_eq!(sim.get_pedestrian_count(), 0);
    match sim.tick() {
        TickOutcome::Done(count) => assert_eq!(count, 0),
        TickOutcome::AwaitingDevice(_) => panic!("cpu backend must not dispatch"),
    }
    assert!(sim.list_pedestrians().is_empty());
}

#[test]
fn empty_tick_dispatches_nothing_on_gpu() {
    let options = SimulatorOptions { backend: Backend::Gpu, ..Default::default() };
    let mut sim = Simulator::new(options, empty_scenario());
    // zero pedestrians: the tick performs no device dispatch at all
    match sim.tick() {
        TickOutcome::Done(count) => assert_eq!(count, 0),
        TickOutcome::AwaitingDevice(_) => panic!("nothing to dispatch on an empty crowd"),
    }
}

#[test]
fn gpu_round_trip_applies_device_accelerations() {
    let options = SimulatorOptions { backend: Backend::Gpu, ..Default::default() };
    let mut scenario = empty_scenario();
    scenario.waypoints.push(WaypointConfig {
        line: [v(6 * 1024, 2048), v(6 * 1024, 4096)],
        ..Default::default()
    });
    scenario.pedestrians.push(PedestrianConfig {
        origin: 0,
        destination: 1,
        spawn: PedestrianSpawnConfig::Once { count: 3 },
    });
    let mut sim = Simulator::new(options, scenario);
    assert_eq!(sim.get_pedestrian_count(), 3);

    let job = match sim.tick() {
        TickOutcome::AwaitingDevice(job) => job,
        TickOutcome::Done(_) => panic!("a populated gpu tick must dispatch"),
    };
    assert_eq!(job.positions.len(), 6);
    assert_eq!(job.velocities.len(), 6);
    assert_eq!(job.destinations.len(), 3);
    assert_eq!(job.grid_cell_counts.len(), job.grid_shape.0 * job.grid_shape.1);
    // the buckets of the packed grid hold all three pedestrians
    let total: u64 = job.grid_cell_counts.iter().sum();
    assert_eq!(total, 3);
    // the shipped bucket order is a permutation of the pedestrian indices
    let mut order = job.grid_indices.clone();
    order.sort_unstable();
    assert_eq!(order, vec![0, 1, 2]);

    // an ill-sized read-back is an explicit, fatal error for the tick
    let bad = vec![v(0, 0); 2];
    assert_eq!(sim.complete_tick(&bad), Err(GpuError::WrongLength));

    // a well-sized read-back commits
    let accs = vec![v(1024, 0); 3];
    let before: Vec<i64> = sim.list_pedestrians().iter().map(|p| p.pos.x).collect();
    assert_eq!(sim.complete_tick(&accs), Ok(3));
    let after: Vec<i64> = sim.list_pedestrians().iter().map(|p| p.pos.x).collect();
    for i in 0..3 {
        assert!(after[i] > before[i], "a forward push must advance x");
    }
}

#[test]
fn corridor_walk_converges_to_destination() {
    // a 24 x 4 meter corridor; spawn at x = 2, walk to the line at x = 22
    let scenario = Scenario {
        field: FieldConfig { size: v(24 * 1024, 4 * 1024) },
        obstacles: Vec::new(),
        waypoints: vec![
            WaypointConfig { line: [v(2048, 1536), v(2048, 2560)], ..Default::default() },
            WaypointConfig { line: [v(22 * 1024, 1024), v(22 * 1024, 3072)], ..Default::default() },
        ],
        pedestrians: vec![PedestrianConfig {
            origin: 0,
            destination: 1,
            spawn: PedestrianSpawnConfig::Once { count: 1 },
        }],
    };
    let mut sim = Simulator::new(SimulatorOptions::default(), scenario);
    assert_eq!(sim.get_pedestrian_count(), 1);
    let start_x = sim.list_pedestrians()[0].pos.x;

    let mut last_x = start_x;
    let mut best_x = start_x;
    let mut arrived = false;
    for step in 0..600 {
        match sim.tick() {
            TickOutcome::Done(count) => {
                if count == 0 {
                    arrived = true;
                    break;
                }
            },
            TickOutcome::AwaitingDevice(_) => panic!("cpu backend must not dispatch"),
        }
        let p = sim.list_pedestrians()[0].pos;
        // once up to speed, progress toward the waypoint never reverses
        if step > 30 {
            assert!(
                p.x + 64 >= last_x,
                "oscillation at step {step}: {} after {}",
                p.x,
                last_x
            );
        }
        last_x = p.x;
        if p.x > best_x {
            best_x = p.x;
        }
    }
    // the walk either reaches the arrival threshold or has advanced most
    // of the corridor toward the destination line
    assert!(arrived || best_x > start_x + 14 * 1024, "start {start_x} best {best_x}");
}

#[test]
fn periodic_source_feeds_the_crowd() {
    let mut scenario = empty_scenario();
    scenario.waypoints.push(WaypointConfig {
        line: [v(6 * 1024, 2048), v(6 * 1024, 4096)],
        ..Default::default()
    });
    scenario.pedestrians.push(PedestrianConfig {
        origin: 0,
        destination: 1,
        // 30 per second: three expected per tick
        spawn: PedestrianSpawnConfig::Periodic { frequency: 30 * 1024 },
    });
    let mut sim = Simulator::new(SimulatorOptions::default(), scenario);
    let mut seen_any = false;
    for _ in 0..50 {
        match sim.tick() {
            TickOutcome::Done(count) => {
                if count > 0 {
                    seen_any = true;
                }
            },
            TickOutcome::AwaitingDevice(_) => panic!("cpu backend must not dispatch"),
        }
    }
    assert!(seen_any, "a periodic source at rate 3 per tick must spawn");
}

#[test]
fn obstacle_force_pushes_away_from_the_wall() {
    // a vertical wall at x = 3 in a 5 x 5 meter field
    let scenario = Scenario {
        field: FieldConfig { size: v(5 * 1024, 5 * 1024) },
        obstacles: vec![ObstacleConfig {
            line: [v(3 * 1024, 1024), v(3 * 1024, 4096)],
            ..Default::default()
        }],
        waypoints: vec![WaypointConfig { line: [v(0, 0), v(0, 1024)], ..Default::default() }],
        pedestrians: Vec::new(),
    };
    let field = pedoni::field::Field::from_scenario(&scenario, 256);
    let standing = v(2100, 2560); // just left of the wall

    // the distance-map path pushes toward smaller x, away from the wall
    let f_map = pedoni::models::obstacle_force_map(&field, standing);
    assert!(f_map.x < 0, "distance-map force {f_map:?} must push away");

    // and the per-segment fallback agrees in sign
    let f_seg = pedoni::models::obstacle_sum(&scenario.obstacles, standing);
    assert!(f_seg.x < 0, "segment force {f_seg:?} must push away");
}

#[test]
fn model_enum_matches_backend() {
    let sim = Simulator::new(SimulatorOptions::default(), empty_scenario());
    assert!(matches!(sim.model, Model::Cpu(_)));
    let options = SimulatorOptions { backend: Backend::Gpu, ..Default::default() };
    let sim = Simulator::new(options, empty_scenario());
    assert!(matches!(sim.model, Model::Gpu(_)));
}

#[test]
fn default_pedestrian_is_at_origin() {
    let p = Pedestrian::default();
    assert_eq!(p.pos, v(0, 0));
    assert_eq!(p.destination, 0);
}

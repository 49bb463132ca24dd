//! Navigation-field checks: rasterization, the marching solver's ordering
//! guarantees, and the scenario-to-field pipeline.

use pedoni::field::{Field, FieldBuilder};
use pedoni::fixed::FAR;
use pedoni::fmm::apply_fmm;
use pedoni::grid::ScalarGrid;
use pedoni::scenario::{
    FieldConfig, ObstacleConfig, PedestrianConfig, PedestrianSpawnConfig, Scenario, WaypointConfig,
};
use pedoni::util::Vec2Fx;

fn v(x: i64, y: i64) -> Vec2Fx {
    Vec2Fx { x, y }
}

#[test]
fn test_obstacle() {
    // a 20 x 10 field with a unit-wide horizontal wall from (5,4) to (15,4)
    let mut builder = FieldBuilder::new(v(20 * 1024, 10 * 1024), 1024);
    builder.add_obstacle(&ObstacleConfig {
        line: [v(5 * 1024, 4 * 1024), v(15 * 1024, 4 * 1024)],
        width: 1024,
    });
    let grid = &builder.obstacle_exist;
    println!("{:?}", grid.cells);
    // cell centers half a unit from the wall's axis are covered...
    assert!(grid.get(3, 10));
    assert!(grid.get(4, 10));
    // ... distant interior cells are not
    assert!(!grid.get(1, 10));
    assert!(!grid.get(7, 10));
    // the border ring is forced to obstacle
    assert!(grid.get(0, 10));
    assert!(grid.get(9, 19));
}

#[test]
fn test_parse_scenario() {
    let scenario = Scenario {
        field: FieldConfig { size: v(5 * 1024, 5 * 1024) },
        obstacles: vec![
            ObstacleConfig { line: [v(0, 1536), v(4096, 1536)], ..Default::default() },
            ObstacleConfig { line: [v(1024, 3584), v(5120, 3584)], ..Default::default() },
        ],
        waypoints: vec![WaypointConfig { line: [v(0, 0), v(0, 1024)], ..Default::default() }],
        pedestrians: Vec::new(),
    };

    let field = Field::from_scenario(&scenario, 256);
    assert_eq!(field.potential_maps.len(), 1);

    println!("{:?}", field.get_potential(0, v(-1536, 2048)));
    // near the seed the potential is small; across the walls it is larger
    let near = field.get_potential(0, v(300, 300));
    let far_side = field.get_potential(0, v(2048, 2560));
    println!("near {near} far {far_side}");
    assert!(near < far_side);
}

#[test]
fn solver_seeds_stay_zero_and_minimal() {
    // a free 1 x 8 corridor with a seed at the left end
    let mut pot = ScalarGrid { rows: 1, cols: 8, cells: vec![0, FAR, FAR, FAR, FAR, FAR, FAR, FAR] };
    let cost = ScalarGrid { rows: 1, cols: 8, cells: vec![1024; 8] };
    apply_fmm(&mut pot, &cost);
    // the seed resolves to its seed potential
    assert_eq!(pot.cells[0], 0);
    // monotone non-decreasing with topological distance from the seed,
    // and exactly one unit of cost per hop along a free corridor
    for i in 1..8 {
        assert!(pot.cells[i - 1] <= pot.cells[i], "{:?}", pot.cells);
        assert_eq!(pot.cells[i], 1024 * i as i64, "{:?}", pot.cells);
    }
    // and the seed is minimal over the whole field
    for i in 0..8 {
        assert!(pot.cells[0] <= pot.cells[i]);
    }
}

#[test]
fn solver_obstacle_cells_report_no_less_than_free_cells() {
    // seed in the middle; the left neighbor is an obstacle, the right is
    // free: both are one hop away, the obstacle must not undercut
    let mut pot = ScalarGrid { rows: 1, cols: 5, cells: vec![FAR, FAR, 0, FAR, FAR] };
    let cost = ScalarGrid { rows: 1, cols: 5, cells: vec![1024, 10240000, 1024, 1024, 1024] };
    apply_fmm(&mut pot, &cost);
    assert!(pot.cells[1] >= pot.cells[3], "{:?}", pot.cells);
    // an obstacle cell reports at least half its own traversal cost
    assert!(pot.cells[1] >= 10240000 / 2);
}

#[test]
fn solver_diagonal_uses_the_upwind_root() {
    // seed in a corner of a free 3 x 3 block: the diagonal cell solves
    // (u - u1)^2 + (u - u2)^2 = 2 f^2 with u1 = u2 = f = 1024, so
    // u = (2048 + isqrt(2 * 1024^2)) / 2 = 1748
    let mut pot = ScalarGrid { rows: 3, cols: 3, cells: vec![0, FAR, FAR, FAR, FAR, FAR, FAR, FAR, FAR] };
    let cost = ScalarGrid { rows: 3, cols: 3, cells: vec![1024; 9] };
    apply_fmm(&mut pot, &cost);
    assert_eq!(pot.cells[1], 1024);
    assert_eq!(pot.cells[3], 1024);
    assert_eq!(pot.cells[4], 1748, "{:?}", pot.cells);
}

#[test]
fn solver_output_is_locally_consistent() {
    // a 4 x 6 grid with an expensive wall column: after marching, no cell
    // sits more than its own cost above any 4-neighbor (the contract's
    // local-consistency clause, checked here on concrete values), and no
    // non-seed cell undercuts its best neighbor by more than half its cost
    let rows = 4usize;
    let cols = 6usize;
    let mut cells = vec![FAR; rows * cols];
    cells[0] = 0;
    let mut pot = ScalarGrid { rows, cols, cells };
    let mut cost_cells = vec![1024i64; rows * cols];
    for y in 0..rows {
        cost_cells[y * cols + 3] = 10_240_000;
    }
    let cost = ScalarGrid { rows, cols, cells: cost_cells };
    apply_fmm(&mut pot, &cost);
    for y in 0..rows as i64 {
        for x in 0..cols as i64 {
            let j = (y * cols as i64 + x) as usize;
            let mut best = i64::MAX;
            for (dy, dx) in [(-1i64, 0i64), (1, 0), (0, -1), (0, 1)] {
                let (ny, nx) = (y + dy, x + dx);
                if 0 <= ny && ny < rows as i64 && 0 <= nx && nx < cols as i64 {
                    let i = (ny * cols as i64 + nx) as usize;
                    assert!(
                        pot.cells[j] <= pot.cells[i] + cost.cells[j],
                        "cell {j}: {:?}",
                        pot.cells
                    );
                    best = best.min(pot.cells[i]);
                }
            }
            if j != 0 {
                assert!(pot.cells[j] >= best + cost.cells[j] / 2, "cell {j}: {:?}", pot.cells);
            }
        }
    }
    // the wall column is crossed only at full obstacle expense: cells past
    // it report more than any free-side cell
    assert!(pot.cells[4] > pot.cells[2]);
}

#[test]
fn obstacle_cells_have_zero_distance() {
    let scenario = Scenario {
        field: FieldConfig { size: v(5 * 1024, 5 * 1024) },
        obstacles: vec![ObstacleConfig {
            line: [v(2048, 2048), v(3072, 2048)],
            ..Default::default()
        }],
        waypoints: vec![WaypointConfig { line: [v(0, 0), v(0, 1024)], ..Default::default() }],
        pedestrians: vec![PedestrianConfig {
            origin: 0,
            destination: 0,
            spawn: PedestrianSpawnConfig::Once { count: 0 },
        }],
    };
    let field = Field::from_scenario(&scenario, 512);
    // right on the wall the sampled obstacle distance is (near) zero,
    // in the open it is clearly positive
    let on_wall = field.get_obstacle_distance(v(2560, 2048));
    let open = field.get_obstacle_distance(v(1300, 1100));
    assert!(on_wall < open, "on_wall {on_wall} open {open}");
}

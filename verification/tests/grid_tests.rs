//! Raster grid checks: world-to-cell mapping and line stroking, on the
//! fixed-point grid (1024 steps per world unit).

use pedoni::grid::Grid;
use pedoni::util::{Index, Vec2Fx};

fn v(x: i64, y: i64) -> Vec2Fx {
    Vec2Fx { x, y }
}

#[test]
fn test_point_to_index() {
    let grid = Grid::new(v(5120, 5120), 1024);
    assert_eq!(grid.point_to_index(v(0, 0)), (0, 0));
    assert_eq!(grid.point_to_index(v(5017, 5017)), (4, 4));
    assert_eq!(grid.point_to_index(v(2048, 3789)), (2, 3));

    let grid = Grid::new(v(5120, 6144), 512);
    assert_eq!(grid.point_to_index(v(2048, 3789)), (4, 7));
}

#[test]
fn test_stroke_line() {
    let mut grid = Grid::new(v(5120, 5120), 1024);
    grid.stroke_line(v(512, 3584), v(2560, 2765), 1);

    let cells = &grid.cells;
    assert_eq!(cells[2 * 5 + 0], 0);
    assert_eq!(cells[2 * 5 + 1], 1);
    assert_eq!(cells[2 * 5 + 2], 1);

    let mut grid = Grid::new(v(1536, 2048), 512);
    grid.stroke_line(v(768, 256), v(256, 1792), 2);
    println!("{grid:?}");

    let cells = &grid.cells;
    assert_eq!(cells[1 * 3 + 0], 0);
    assert_eq!(cells[1 * 3 + 1], 2);
    assert_eq!(cells[2 * 3 + 0], 2);
    assert_eq!(cells[2 * 3 + 1], 0);
}

#[test]
fn index_is_inside_matches_shape() {
    assert!(Index::new(3, 4).is_inside((5, 5)));
    assert!(Index::new(0, 0).is_inside((1, 1)));
    assert!(!Index::new(-1, 0).is_inside((5, 5)));
    assert!(!Index::new(0, -1).is_inside((5, 5)));
    assert!(!Index::new(5, 0).is_inside((5, 5)));
    assert!(!Index::new(0, 5).is_inside((5, 5)));
    assert!(Index::new(2, 1).add(2, 3).is_inside((5, 5)));
}

#[test]
fn stroke_reports_written_cells() {
    let mut grid = Grid::new(v(4096, 4096), 1024);
    let stroked = grid.stroke_line(v(512, 512), v(512, 3584), 7);
    assert!(!stroked.is_empty());
    for (u, vv) in &stroked {
        assert_eq!(grid.cells[(*u + *vv * grid.row) as usize], 7);
    }
    // a stroke entirely outside the grid writes nothing
    let mut grid2 = Grid::new(v(4096, 4096), 1024);
    let stroked2 = grid2.stroke_line(v(-90000, -90000), v(-80000, -80000), 9);
    assert!(stroked2.is_empty());
    assert!(grid2.cells.iter().all(|c| *c == 0));
}

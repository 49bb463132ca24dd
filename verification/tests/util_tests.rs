//! Interpolation and segment-distance checks on exact fixed-point values
//! (1024 steps per unit).

use pedoni::grid::ScalarGrid;
use pedoni::util::{bilinear, distance_from_line, line_with_width, Vec2Fx};

fn grid_2x3(values: [i64; 6]) -> ScalarGrid {
    ScalarGrid { rows: 2, cols: 3, cells: values.to_vec() }
}

#[test]
fn test_bilinear() {
    // the grid [[1, 0, 4], [3, 1, -1]] in fixed point
    let grid = grid_2x3([1024, 0, 4096, 3072, 1024, -1024]);
    // interp(0, 0) = 1.0
    assert_eq!(bilinear(&grid, Vec2Fx { x: 0, y: 0 }), 1024);
    // interp(0.5, 0) = 0.5
    assert_eq!(bilinear(&grid, Vec2Fx { x: 512, y: 0 }), 512);
    // interp(0, 0.25) = 1.5
    assert_eq!(bilinear(&grid, Vec2Fx { x: 0, y: 256 }), 1536);
    // interp(0.5, 0.5) = 1.25
    assert_eq!(bilinear(&grid, Vec2Fx { x: 512, y: 512 }), 1280);
}

#[test]
fn test_distance_from_line() {
    // segment (1,1)-(4,1)
    let line = [Vec2Fx { x: 1024, y: 1024 }, Vec2Fx { x: 4096, y: 1024 }];

    // point (2,3) is 2.0 away
    let d = distance_from_line(Vec2Fx { x: 2048, y: 3072 }, line);
    assert_eq!(d.length(), 2048);

    // point (0,0.25) is 1.25 away (from the endpoint)
    let d = distance_from_line(Vec2Fx { x: 0, y: 256 }, line);
    assert_eq!(d.length(), 1280);
}

#[test]
fn distance_from_degenerate_segment_is_distance_to_its_point() {
    // a zero-length segment at (1,0): the distance vector from the origin
    // is the vector from that one point, not twice it
    let line = [Vec2Fx { x: 1024, y: 0 }, Vec2Fx { x: 1024, y: 0 }];
    let d = distance_from_line(Vec2Fx { x: 0, y: 0 }, line);
    assert_eq!(d, Vec2Fx { x: -1024, y: 0 });
    assert_eq!(d.length(), 1024);
}

#[test]
fn line_with_width_offsets_both_endpoints() {
    // a horizontal segment of width 2: the corners sit one unit above and
    // below the endpoints
    let line = [Vec2Fx { x: 0, y: 0 }, Vec2Fx { x: 4096, y: 0 }];
    let corners = line_with_width(line, 2048);
    assert_eq!(corners.len(), 4);
    assert_eq!(corners[0], Vec2Fx { x: 0, y: 1024 });
    assert_eq!(corners[1], Vec2Fx { x: 0, y: -1024 });
    assert_eq!(corners[2], Vec2Fx { x: 4096, y: -1024 });
    assert_eq!(corners[3], Vec2Fx { x: 4096, y: 1024 });
}

#[test]
fn bilinear_blends_far_outside_grid() {
    let grid = grid_2x3([1024, 1024, 1024, 1024, 1024, 1024]);
    // far outside the grid every sample is the sentinel
    let far_out = bilinear(&grid, Vec2Fx { x: -100 * 1024, y: 0 });
    assert!(far_out >= 1_000_000_000_000);
}

//! Tests of polygon construction, area, centering, width, erosion and
//! colinear-vertex cleanup.  Coordinates are in thousandths of a
//! millimeter.

use mini_tracker::geom::Point;
use mini_tracker::polygon::Polygon;

#[test]
fn rectangle_area_is_width_times_height() {
    // The four corners of an axis-aligned 930 mm by 523 mm rectangle.
    let w: i64 = 930000;
    let h: i64 = 523000;
    let corners = vec![
        Point { x: 0, y: 0 },
        Point { x: w, y: 0 },
        Point { x: w, y: h },
        Point { x: 0, y: h },
    ];
    let polygon = Polygon::new(corners);
    assert_eq!(polygon.area_doubled(), 2 * (w as i128) * (h as i128));
    assert_eq!(polygon.area(), (w as i128) * (h as i128));
}

#[test]
fn rectangle_area_is_order_independent() {
    let w: i64 = 400000;
    let h: i64 = 250000;
    let corners = vec![
        Point { x: 100000, y: 100000 + h },
        Point { x: 100000 + w, y: 100000 },
        Point { x: 100000, y: 100000 },
        Point { x: 100000 + w, y: 100000 + h },
    ];
    let polygon = Polygon::new(corners);
    assert_eq!(polygon.area_doubled(), 2 * (w as i128) * (h as i128));
}

#[test]
fn polygon_ring_is_sorted_clockwise() {
    let corners = vec![
        Point { x: 0, y: 0 },
        Point { x: 200000, y: 200000 },
        Point { x: 200000, y: 0 },
        Point { x: 0, y: 200000 },
    ];
    let polygon = Polygon::new(corners);
    assert_eq!(polygon.points.len(), 4);
    assert_eq!(polygon.lines.len(), 4);
    // Decreasing angle around the centroid: upper-left first, then
    // upper-right, then lower-right territory, ending lower-left.
    assert_eq!(polygon.points[0], Point { x: 0, y: 200000 });
    assert_eq!(polygon.points[1], Point { x: 200000, y: 200000 });
    assert_eq!(polygon.points[2], Point { x: 200000, y: 0 });
    assert_eq!(polygon.points[3], Point { x: 0, y: 0 });
    // The ring wraps: each edge starts where the previous one ends.
    for i in 0..4 {
        assert_eq!(polygon.lines[i].point1, polygon.points[i]);
        assert_eq!(polygon.lines[i].point2, polygon.points[(i + 1) % 4]);
    }
}

#[test]
fn center_of_rectangle_is_its_middle() {
    let corners = vec![
        Point { x: 0, y: 0 },
        Point { x: 400000, y: 0 },
        Point { x: 400000, y: 300000 },
        Point { x: 0, y: 300000 },
    ];
    let polygon = Polygon::new(corners);
    let center = polygon.center();
    assert_eq!(center, Point { x: 200000, y: 150000 });
}

#[test]
fn center_in_convex_hull_of_samples() {
    // For convex polygons the center stays within the vertex bounding
    // box, which for these axis-aligned samples is the hull's box.
    let samples = vec![
        vec![
            Point { x: 10000, y: 10000 },
            Point { x: 90000, y: 15000 },
            Point { x: 80000, y: 95000 },
        ],
        vec![
            Point { x: 0, y: 0 },
            Point { x: 100000, y: 0 },
            Point { x: 150000, y: 70000 },
            Point { x: 50000, y: 120000 },
            Point { x: -20000, y: 60000 },
        ],
    ];
    for pts in samples {
        let min_x = pts.iter().map(|p| p.x).min().unwrap();
        let max_x = pts.iter().map(|p| p.x).max().unwrap();
        let min_y = pts.iter().map(|p| p.y).min().unwrap();
        let max_y = pts.iter().map(|p| p.y).max().unwrap();
        let center = Polygon::new(pts).center();
        assert!(min_x <= center.x && center.x <= max_x);
        assert!(min_y <= center.y && center.y <= max_y);
    }
}

#[test]
fn center_of_two_points_is_midpoint() {
    let polygon = Polygon::new(vec![Point { x: 1000, y: 3000 }, Point { x: 3000, y: 7000 }]);
    assert_eq!(polygon.center(), Point { x: 2000, y: 5000 });
}

#[test]
fn center_of_one_point_is_itself() {
    let polygon = Polygon::new(vec![Point { x: 12345, y: -678 }]);
    assert_eq!(polygon.center(), Point { x: 12345, y: -678 });
}

#[test]
fn max_width_is_longest_diagonal() {
    let corners = vec![
        Point { x: 0, y: 0 },
        Point { x: 30000, y: 0 },
        Point { x: 30000, y: 40000 },
        Point { x: 0, y: 40000 },
    ];
    let polygon = Polygon::new(corners);
    // The diagonal of a 30 by 40 rectangle is 50.
    assert_eq!(polygon.max_width(), 50000);
}

#[test]
fn shrink_square_keeps_center_and_reduces_area() {
    let corners = vec![
        Point { x: 0, y: 0 },
        Point { x: 100000, y: 0 },
        Point { x: 100000, y: 100000 },
        Point { x: 0, y: 100000 },
    ];
    let polygon = Polygon::new(corners);
    let eroded = polygon.shrink(10000).unwrap();
    // Eroding a 100 mm square by 10 mm leaves an 80 mm square.
    assert_eq!(eroded.center(), Point { x: 50000, y: 50000 });
    assert_eq!(eroded.area_doubled(), 2 * 80000 * 80000);
}

#[test]
fn shrink_past_width_gives_nothing() {
    let corners = vec![
        Point { x: 0, y: 0 },
        Point { x: 40000, y: 0 },
        Point { x: 40000, y: 40000 },
        Point { x: 0, y: 40000 },
    ];
    let polygon = Polygon::new(corners);
    // A 40 mm square cannot survive a 30 mm erosion.
    assert!(polygon.shrink(30000).is_none());
}

#[test]
fn remove_colinear_points_drops_edge_midpoints() {
    let pts = vec![
        Point { x: 0, y: 0 },
        Point { x: 50000, y: 0 },
        Point { x: 100000, y: 0 },
        Point { x: 100000, y: 100000 },
        Point { x: 0, y: 100000 },
    ];
    let polygon = Polygon::new(pts);
    let cleaned = polygon.remove_colinear_points().unwrap();
    assert_eq!(cleaned.points.len(), 4);
    assert_eq!(cleaned.area_doubled(), polygon.area_doubled());
    for p in &cleaned.points {
        assert!(*p != Point { x: 50000, y: 0 });
    }
}

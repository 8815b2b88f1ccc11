//! The end-to-end regression sweep: receivers every inch around a 930 mm
//! by 523 mm table, the mini placed at each interior grid intersection,
//! and the engine's estimate required to land within one grid unit
//! (25.4 mm) of the true location.  The sweep is split into column bands
//! so each part stays fast.

use mini_tracker::geom::Point;
use mini_tracker::receiver::{Direction, Receiver};
use mini_tracker::table::Table;

const TABLE_WIDTH: i64 = 930000;
const TABLE_HEIGHT: i64 = 523000;
const SPACING: i64 = 25400;
const MINI_RADIUS: f64 = 12700.0;

fn standard_receivers() -> Vec<Receiver> {
    let mut receivers = Vec::new();
    let mut x = SPACING / 2;
    while x < TABLE_WIDTH {
        receivers.push(
            Receiver::new(TABLE_WIDTH, TABLE_HEIGHT, 30, Point { x, y: 0 }, Direction::Up)
                .unwrap(),
        );
        receivers.push(
            Receiver::new(
                TABLE_WIDTH,
                TABLE_HEIGHT,
                30,
                Point { x, y: TABLE_HEIGHT },
                Direction::Down,
            )
            .unwrap(),
        );
        x += SPACING;
    }
    let mut y = SPACING / 2;
    while y < TABLE_HEIGHT {
        receivers.push(
            Receiver::new(TABLE_WIDTH, TABLE_HEIGHT, 20, Point { x: 0, y }, Direction::Right)
                .unwrap(),
        );
        receivers.push(
            Receiver::new(
                TABLE_WIDTH,
                TABLE_HEIGHT,
                20,
                Point { x: TABLE_WIDTH, y },
                Direction::Left,
            )
            .unwrap(),
        );
        y += SPACING;
    }
    receivers
}

fn mini_edge_points(center: Point) -> Vec<Point> {
    let mut points = Vec::new();
    for deg in 0..360 {
        let angle = (deg as f64).to_radians();
        points.push(Point {
            x: center.x + (MINI_RADIUS * angle.cos()).round() as i64,
            y: center.y + (MINI_RADIUS * angle.sin()).round() as i64,
        });
    }
    points
}

fn sweep_columns(first_col: i64, last_col: i64) {
    let receivers = standard_receivers();
    let table = Table::new(TABLE_WIDTH, TABLE_HEIGHT, receivers);

    let mut col = first_col;
    while col <= last_col {
        let x = SPACING / 2 + col * SPACING;
        let mut row = 1;
        loop {
            let y = SPACING / 2 + row * SPACING;
            if y > TABLE_HEIGHT - SPACING {
                break;
            }
            let mini = Point { x, y };
            let edge = mini_edge_points(mini);
            let mut num_visible = 0;
            let snapshot: Vec<(Receiver, bool)> = table
                .receivers
                .iter()
                .map(|r| {
                    let sees = edge.iter().any(|p| r.can_see(p));
                    if sees {
                        num_visible += 1;
                    }
                    (*r, sees)
                })
                .collect();
            assert!(num_visible > 0);

            let (estimate, _error) = table.get_location(&snapshot).unwrap();
            let miss = estimate.distance(&mini);
            assert!(
                miss < SPACING,
                "estimate {:?} missed mini {:?} by {}",
                estimate,
                mini,
                miss
            );
            row += 1;
        }
        col += 1;
    }
}

#[test]
fn grid_sweep_columns_a() {
    sweep_columns(1, 5);
}

#[test]
fn grid_sweep_columns_b() {
    sweep_columns(6, 10);
}

#[test]
fn grid_sweep_columns_c() {
    sweep_columns(11, 15);
}

#[test]
fn grid_sweep_columns_d() {
    sweep_columns(16, 20);
}

#[test]
fn grid_sweep_columns_e() {
    sweep_columns(21, 25);
}

#[test]
fn grid_sweep_columns_f() {
    sweep_columns(26, 30);
}

#[test]
fn grid_sweep_columns_g() {
    sweep_columns(31, 35);
}

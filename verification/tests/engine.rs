//! Tests of the table's position engine on whole visibility snapshots.
//! Coordinates are in thousandths of a millimeter; the table is the
//! 930 mm by 523 mm surface with receivers every inch, as deployed.

use mini_tracker::geom::Point;
use mini_tracker::receiver::{Direction, Receiver, TrackerError};
use mini_tracker::table::Table;

const TABLE_WIDTH: i64 = 930000;
const TABLE_HEIGHT: i64 = 523000;
const SPACING: i64 = 25400;

fn standard_receivers() -> Vec<Receiver> {
    let mut receivers = Vec::new();
    let mut x = SPACING / 2;
    while x < TABLE_WIDTH {
        receivers.push(
            Receiver::new(TABLE_WIDTH, TABLE_HEIGHT, 30, Point { x, y: 0 }, Direction::Up)
                .unwrap(),
        );
        receivers.push(
            Receiver::new(
                TABLE_WIDTH,
                TABLE_HEIGHT,
                30,
                Point { x, y: TABLE_HEIGHT },
                Direction::Down,
            )
            .unwrap(),
        );
        x += SPACING;
    }
    let mut y = SPACING / 2;
    while y < TABLE_HEIGHT {
        receivers.push(
            Receiver::new(TABLE_WIDTH, TABLE_HEIGHT, 20, Point { x: 0, y }, Direction::Right)
                .unwrap(),
        );
        receivers.push(
            Receiver::new(
                TABLE_WIDTH,
                TABLE_HEIGHT,
                20,
                Point { x: TABLE_WIDTH, y },
                Direction::Left,
            )
            .unwrap(),
        );
        y += SPACING;
    }
    receivers
}

#[test]
fn receivers_can_see_own_intersections() {
    let receivers = standard_receivers();
    let table = Table::new(TABLE_WIDTH, TABLE_HEIGHT, receivers);

    let bounding_lines =
        [table.table_top, table.table_bottom, table.table_left, table.table_right];

    for receiver in &table.receivers {
        let mut intersections = 0;
        for line in &bounding_lines {
            if let Some(intersect) = line.intersection(&receiver.view_bound1, true) {
                if intersect != receiver.location {
                    intersections += 1;
                }
            }
            if let Some(intersect) = line.intersection(&receiver.view_bound2, true) {
                if intersect != receiver.location {
                    intersections += 1;
                }
            }
        }

        // Plus the intersection at the receiver's own location on the
        // table edge it is mounted on.
        intersections += 1;

        assert_eq!(intersections, 3);
    }
}

#[test]
fn single_receiver_estimate_is_inside_its_cone() {
    // One receiver that sees the mini: the estimate must be a point the
    // receiver's expanded cone accepts, inside the table.
    let rcv = Receiver::new(
        TABLE_WIDTH,
        TABLE_HEIGHT,
        30,
        Point { x: 0, y: 261500 },
        Direction::Right,
    )
    .unwrap();
    let table = Table::new(TABLE_WIDTH, TABLE_HEIGHT, vec![rcv]);
    let snapshot = vec![(rcv, true)];
    let (estimate, error) = table.get_location(&snapshot).unwrap();
    assert!(rcv.can_see_estimated(&estimate));
    assert!(0 <= estimate.x && estimate.x <= TABLE_WIDTH);
    assert!(0 <= estimate.y && estimate.y <= TABLE_HEIGHT);
    assert!(error >= 0);
}

#[test]
fn contradictory_reports_give_no_answer() {
    // Two receivers facing each other across the table, both claiming to
    // see the mini, with cone bands that never overlap: their horizontal
    // spread grows slower than the vertical gap between them, so no point
    // satisfies both reports.
    let a = Receiver::new(TABLE_WIDTH, TABLE_HEIGHT, 20, Point { x: 0, y: 100000 },
        Direction::Right)
        .unwrap();
    let b = Receiver::new(
        TABLE_WIDTH,
        TABLE_HEIGHT,
        20,
        Point { x: TABLE_WIDTH, y: 400000 },
        Direction::Left,
    )
    .unwrap();
    let table = Table::new(TABLE_WIDTH, TABLE_HEIGHT, vec![a, b]);
    let snapshot = vec![(a, true), (b, true)];

    assert!(table.get_bounding_polygon(&snapshot).is_none());
    assert_eq!(table.get_location(&snapshot), Err(TrackerError::ContradictoryVisibility));
}

#[test]
fn bounding_polygon_matches_location_when_consistent() {
    let receivers = standard_receivers();
    let snapshot: Vec<(Receiver, bool)> = receivers
        .iter()
        .map(|r| {
            let sees = r.can_see(&Point { x: 465000, y: 261500 });
            (*r, sees)
        })
        .collect();
    let table = Table::new(TABLE_WIDTH, TABLE_HEIGHT, receivers);
    let polygon = table.get_bounding_polygon(&snapshot).unwrap();
    let (estimate, _error) = table.get_location(&snapshot).unwrap();
    // The polygon is built over the same surviving candidates the
    // estimate averages, so its vertex mean is near the estimate.
    assert!(polygon.points.len() >= 3);
    let center = polygon.center();
    assert!((center.x - estimate.x).abs() <= 30000);
    assert!((center.y - estimate.y).abs() <= 30000);
}

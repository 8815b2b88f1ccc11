//! Tests of the geometric primitives: distance, rotation, line
//! intersection, and the receiver cone predicates.  Coordinates are in
//! thousandths of a millimeter.

use mini_tracker::geom::Point;
use mini_tracker::line::Line;
use mini_tracker::receiver::{Direction, Receiver, TrackerError};

#[test]
fn distance() {
    let point1 = Point { x: 1000, y: 1000 };
    let point2 = Point { x: 4000, y: 5000 };

    assert_eq!(point1.distance(&point2), 5000);
    assert_eq!(point2.distance(&point1), 5000);
}

#[test]
fn distance_to_self_is_zero() {
    let point = Point { x: -123456, y: 789 };
    assert_eq!(point.distance(&point), 0);
}

#[test]
fn can_see() {
    let point = Point { x: 100000, y: 100000 };

    let up = Receiver::new(200000, 200000, 45, Point { x: 100000, y: 0 }, Direction::Up).unwrap();
    assert!(up.can_see(&point));

    let right =
        Receiver::new(200000, 200000, 45, Point { x: 0, y: 100000 }, Direction::Right).unwrap();
    assert!(right.can_see(&point));

    let down =
        Receiver::new(200000, 200000, 45, Point { x: 100000, y: 200000 }, Direction::Down)
            .unwrap();
    assert!(down.can_see(&point));

    let left =
        Receiver::new(200000, 200000, 45, Point { x: 200000, y: 100000 }, Direction::Left)
            .unwrap();
    assert!(left.can_see(&point));
}

#[test]
fn cannot_see() {
    let point = Point { x: 100000, y: 100000 };

    let up = Receiver::new(200000, 200000, 45, Point { x: 202000, y: 0 }, Direction::Up).unwrap();
    assert!(!up.can_see(&point));

    let right =
        Receiver::new(200000, 200000, 45, Point { x: 0, y: 202000 }, Direction::Right).unwrap();
    assert!(!right.can_see(&point));

    let down =
        Receiver::new(200000, 200000, 45, Point { x: 202000, y: 200000 }, Direction::Down)
            .unwrap();
    assert!(!down.can_see(&point));

    let left =
        Receiver::new(200000, 200000, 45, Point { x: 200000, y: 202000 }, Direction::Left)
            .unwrap();
    assert!(!left.can_see(&point));
}

#[test]
fn rotate_around_origin() {
    let point = Point { x: 2000, y: 2000 };

    // A quarter turn counterclockwise: 90 degrees is 180 half-degrees.
    let rotated = point.rotate_around_origin(180);
    assert_eq!(rotated.x, -2000);
    assert_eq!(rotated.y, 2000);

    // A half turn negates both coordinates exactly.
    let opposite = point.rotate_around_origin(360);
    assert_eq!(opposite.x, -2000);
    assert_eq!(opposite.y, -2000);
}

#[test]
fn rotation_round_trip_returns_close() {
    let point = Point { x: 1234567, y: -765432 };
    for k in [37u16, 100, 233, 359, 480, 611] {
        let there = point.rotate_around_origin(k);
        let back = there.rotate_around_origin(720 - k);
        assert!((back.x - point.x).abs() <= 4);
        assert!((back.y - point.y).abs() <= 4);
    }
}

#[test]
fn rotate_around_pivot() {
    let pivot = Point { x: 10000, y: 10000 };
    let point = Point { x: 12000, y: 10000 };
    // A quarter turn around the pivot carries the offset (2000, 0) to
    // (0, 2000).
    let rotated = point.rotate_around(&pivot, 180);
    assert_eq!(rotated.x, 10000);
    assert_eq!(rotated.y, 12000);
}

#[test]
fn line_segment_intersect() {
    let p1 = Point { x: 1000, y: 2000 };
    let p2 = Point { x: 6000, y: 0 };
    let line1 = Line::new(p1, p2);

    let p1 = Point { x: 3000, y: 1000 };
    let p2 = Point { x: 7000, y: 8000 };
    let line2 = Line::new(p1, p2);

    // The exact crossing is (133000/43, 50000/43); rounded to units.
    let intersect = line1.intersection(&line2, true).unwrap();
    assert_eq!(intersect.x, 3093);
    assert_eq!(intersect.y, 1163);

    let p1 = Point { x: 0, y: 0 };
    let p2 = Point { x: 200000, y: 200000 };
    let line1 = Line::new(p1, p2);

    let p1 = Point { x: 0, y: 200000 };
    let p2 = Point { x: 200000, y: 0 };
    let line2 = Line::new(p1, p2);

    let intersect = line1.intersection(&line2, true).unwrap();
    assert_eq!(intersect.x, 100000);
    assert_eq!(intersect.y, 100000);
}

#[test]
fn intersection_is_symmetric() {
    let line1 = Line::new(Point { x: 1000, y: 2000 }, Point { x: 6000, y: 0 });
    let line2 = Line::new(Point { x: 3000, y: 1000 }, Point { x: 7000, y: 8000 });

    assert_eq!(line1.intersection(&line2, true), line2.intersection(&line1, true));
    assert_eq!(line1.intersection(&line2, false), line2.intersection(&line1, false));

    // Parallel lines never intersect, from either side.
    let line3 = Line::new(Point { x: 0, y: 0 }, Point { x: 5000, y: 2000 });
    let line4 = Line::new(Point { x: 0, y: 1000 }, Point { x: 5000, y: 3000 });
    assert_eq!(line3.intersection(&line4, false), None);
    assert_eq!(line4.intersection(&line3, false), None);
}

#[test]
fn parallel_line_keeps_direction() {
    let line = Line::new(Point { x: 0, y: 0 }, Point { x: 10000, y: 0 });
    let left = line.parallel_line(2000, true);
    // The left of the +x direction is +y.
    assert_eq!(left.point1, Point { x: 0, y: 2000 });
    assert_eq!(left.point2, Point { x: 10000, y: 2000 });
    let right = line.parallel_line(2000, false);
    assert_eq!(right.point1, Point { x: 0, y: -2000 });
    assert_eq!(right.point2, Point { x: 10000, y: -2000 });
}

#[test]
fn cone_contains_ahead_never_behind() {
    // A receiver facing right with a quarter-turn cone: points straight
    // ahead are always seen, points straight behind never.
    let loc = Point { x: 100000, y: 100000 };
    let rcv = Receiver::new(930000, 523000, 90, loc, Direction::Right).unwrap();
    for d in [1i64, 10, 1000, 250000] {
        let ahead = Point { x: loc.x + d, y: loc.y };
        let behind = Point { x: loc.x - d, y: loc.y };
        assert!(rcv.can_see(&ahead));
        assert!(!rcv.can_see(&behind));
    }
}

#[test]
fn seen_implies_seen_estimated() {
    let rcv =
        Receiver::new(930000, 523000, 30, Point { x: 0, y: 261500 }, Direction::Right).unwrap();
    let samples = [
        Point { x: 100000, y: 261500 },
        Point { x: 500000, y: 300000 },
        Point { x: 900000, y: 200000 },
        Point { x: 40000, y: 262000 },
    ];
    for p in samples {
        if rcv.can_see(&p) {
            assert!(rcv.can_see_estimated(&p));
        }
    }
    // And at least one of the samples is actually seen.
    assert!(rcv.can_see(&samples[0]));
}

#[test]
fn view_angle_is_validated() {
    let loc = Point { x: 0, y: 100000 };
    assert_eq!(
        Receiver::new(930000, 523000, 0, loc, Direction::Right),
        Err(TrackerError::InvalidViewAngle)
    );
    assert_eq!(
        Receiver::new(930000, 523000, 180, loc, Direction::Right),
        Err(TrackerError::InvalidViewAngle)
    );
    assert!(Receiver::new(930000, 523000, 179, loc, Direction::Right).is_ok());
    assert!(Receiver::new(930000, 523000, 1, loc, Direction::Right).is_ok());
}

#[test]
fn angle() {
    let origin = Point { x: 0, y: 0 };
    let point = Point { x: 8000, y: 8000 };

    // The diagonal lies exactly on the 45-degree table direction: 90
    // half-degrees.
    assert_eq!(origin.angle(&point), 90)
}

#[test]
fn angle_from_origin() {
    let point = Point { x: 8000, y: 8000 };

    assert_eq!(point.angle_from_origin(), 90)
}

#[test]
fn angle_covers_all_quadrants() {
    let origin = Point { x: 0, y: 0 };
    // Cardinal directions in half-degrees: 0, 180, 360, -180.
    assert_eq!(origin.angle(&Point { x: 5000, y: 0 }), 0);
    assert_eq!(origin.angle(&Point { x: 0, y: 5000 }), 180);
    assert_eq!(origin.angle(&Point { x: -5000, y: 0 }), 360);
    assert_eq!(origin.angle(&Point { x: 0, y: -5000 }), -180);
    // And the other three diagonals.
    assert_eq!(origin.angle(&Point { x: -5000, y: 5000 }), 270);
    assert_eq!(origin.angle(&Point { x: -5000, y: -5000 }), -270);
    assert_eq!(origin.angle(&Point { x: 5000, y: -5000 }), -90);
}

#[test]
fn to_degrees_maps_cardinals() {
    assert_eq!(Direction::Right.to_degrees(), 0);
    assert_eq!(Direction::Up.to_degrees(), 90);
    assert_eq!(Direction::Left.to_degrees(), 180);
    assert_eq!(Direction::Down.to_degrees(), 270);
}

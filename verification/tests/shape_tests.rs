use mhrice::shape::{Point, Shape};
use mhrice::Error;

#[test]
fn sphere_distance_at_center_is_zero() {
    let s = Shape::Sphere { p: Point { x: 10, y: -20, z: 30 }, r: 5 };
    let (num, den) = s.distance(&Point { x: 10, y: -20, z: 30 }).unwrap();
    assert_eq!(num, 0);
    assert_eq!(den, 25);
}

#[test]
fn sphere_distance_at_twice_radius_is_two() {
    // |p - c| = 10 = 2r, so the normalized distance is 2 and its
    // square num/den is 4
    let s = Shape::Sphere { p: Point { x: 0, y: 0, z: 0 }, r: 5 };
    let (num, den) = s.distance(&Point { x: 10, y: 0, z: 0 }).unwrap();
    assert_eq!(num, 100);
    assert_eq!(den, 25);
    assert_eq!(num, 4 * den);
}

#[test]
fn capsule_clamps_beyond_far_endpoint() {
    // beyond the p1 cap the distance is to p1 itself (25/4), not to
    // the carrying line (16/4)
    let c = Shape::Capsule {
        p0: Point { x: 0, y: 0, z: 0 },
        p1: Point { x: 10, y: 0, z: 0 },
        r: 2,
    };
    let (num, den) = c.distance(&Point { x: 13, y: 4, z: 0 }).unwrap();
    assert_eq!(den, 4);
    assert_eq!(num, 25);
    assert!(num != 16, "an unclamped parameter would give the line distance");
}

#[test]
fn capsule_clamps_beyond_near_endpoint() {
    let c = Shape::Capsule {
        p0: Point { x: 0, y: 0, z: 0 },
        p1: Point { x: 10, y: 0, z: 0 },
        r: 2,
    };
    let (num, den) = c.distance(&Point { x: -3, y: 4, z: 0 }).unwrap();
    assert_eq!(den, 4);
    assert_eq!(num, 25);
}

#[test]
fn capsule_interior_uses_line_distance() {
    let c = Shape::Capsule {
        p0: Point { x: 0, y: 0, z: 0 },
        p1: Point { x: 10, y: 0, z: 0 },
        r: 2,
    };
    // directly above the middle: distance 4, normalized squared (16
    // over r^2), carried as cross^2 / (l2 * r^2)
    let (num, den) = c.distance(&Point { x: 5, y: 4, z: 0 }).unwrap();
    assert_eq!(num as u128 * 1, 1600);
    assert_eq!(den, 400);
    assert_eq!(num, 4 * den);
}

#[test]
fn degenerate_capsule_measures_from_endpoint() {
    let c = Shape::Capsule {
        p0: Point { x: 1, y: 1, z: 1 },
        p1: Point { x: 1, y: 1, z: 1 },
        r: 3,
    };
    let (num, den) = c.distance(&Point { x: 4, y: 1, z: 1 }).unwrap();
    assert_eq!(num, 9);
    assert_eq!(den, 9);
}

#[test]
fn unknown_shape_has_no_distance() {
    let s = Shape::Unknown;
    assert!(matches!(s.distance(&Point { x: 0, y: 0, z: 0 }), Err(Error::UnknownShape)));
}

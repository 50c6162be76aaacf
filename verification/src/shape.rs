//! Collider geometry over fixed-point coordinates. A shape is a sphere
//! (center and radius) or a capsule (two endpoints and a radius); its
//! distance to a point is reported normalized by the radius, as the
//! exact rational square `(d / r)^2 = num / den`, so that comparisons
//! and the classification threshold need no rounding at all.
use vstd::prelude::*;

use crate::Error;

verus! {

/// Coordinates and radii live in `[-COORD_BOUND, COORD_BOUND]`; this
/// keeps every square and cross product within `u64` and every cross
/// multiplication of two rationals within `u128`.
pub const COORD_BOUND: i32 = 16384;

#[derive(Debug, Clone, Copy, PartialEq, Eq, Structural)]
pub struct Point {
    pub x: i32,
    pub y: i32,
    pub z: i32,
}

impl Point {
    pub open spec fn wf(&self) -> bool {
        &&& -COORD_BOUND <= self.x <= COORD_BOUND
        &&& -COORD_BOUND <= self.y <= COORD_BOUND
        &&& -COORD_BOUND <= self.z <= COORD_BOUND
    }
}

#[derive(Debug, Clone, Copy, PartialEq, Eq, Structural)]
pub enum Shape {
    Sphere { p: Point, r: i32 },
    Capsule { p0: Point, p1: Point, r: i32 },
    Unknown,
}

impl Shape {
    pub open spec fn wf(&self) -> bool {
        match *self {
            Shape::Sphere { p, r } => p.wf() && 1 <= r <= COORD_BOUND,
            Shape::Capsule { p0, p1, r } => p0.wf() && p1.wf() && 1 <= r <= COORD_BOUND,
            Shape::Unknown => true,
        }
    }
}

/// Squared Euclidean distance between two points.
pub open spec fn dist2(a: Point, b: Point) -> int {
    let dx = a.x - b.x;
    let dy = a.y - b.y;
    let dz = a.z - b.z;
    dx * dx + dy * dy + dz * dz
}

/// `(p - p0) . (p1 - p0)`: the unclamped segment parameter times `|p1 - p0|^2`.
pub open spec fn seg_dot(p0: Point, p1: Point, p: Point) -> int {
    let ax = p.x - p0.x;
    let ay = p.y - p0.y;
    let az = p.z - p0.z;
    let bx = p1.x - p0.x;
    let by = p1.y - p0.y;
    let bz = p1.z - p0.z;
    ax * bx + ay * by + az * bz
}

/// `|p1 - p0|^2`.
pub open spec fn seg_len2(p0: Point, p1: Point) -> int {
    dist2(p1, p0)
}

/// `|(p - p0) x (p1 - p0)|^2`; divided by `|p1 - p0|^2` it is the
/// squared distance from `p` to the segment's carrying line.
pub open spec fn seg_cross2(p0: Point, p1: Point, p: Point) -> int {
    let ax = p.x - p0.x;
    let ay = p.y - p0.y;
    let az = p.z - p0.z;
    let bx = p1.x - p0.x;
    let by = p1.y - p0.y;
    let bz = p1.z - p0.z;
    let cx = ay * bz - az * by;
    let cy = az * bx - ax * bz;
    let cz = ax * by - ay * bx;
    cx * cx + cy * cy + cz * cz
}

/// The squared normalized distance `(d / r)^2` from a point to a shape,
/// as an exact rational `num / den`. For a capsule the closest point of
/// the segment is taken with the parameter clamped to `[0, 1]`: beyond
/// either cap the distance is the one to that endpoint.
pub open spec fn norm_dist2_spec(s: Shape, p: Point) -> Option<(int, int)> {
    match s {
        Shape::Sphere { p: c, r } => Some((dist2(p, c), r * r)),
        Shape::Capsule { p0, p1, r } => {
            let l2 = seg_len2(p0, p1);
            let d = seg_dot(p0, p1, p);
            if l2 == 0 || d <= 0 {
                Some((dist2(p, p0), r * r))
            } else if d >= l2 {
                Some((dist2(p, p1), r * r))
            } else {
                Some((seg_cross2(p0, p1, p), l2 * r * r))
            }
        },
        Shape::Unknown => None,
    }
}

/// `n1 / d1 < n2 / d2` for positive denominators.
pub open spec fn ratio_lt(n1: int, d1: int, n2: int, d2: int) -> bool {
    n1 * d2 < n2 * d1
}

pub proof fn lemma_mul_range(a: int, b: int, m: int, n: int)
    by (nonlinear_arith)
    requires
        -m <= a <= m,
        -n <= b <= n,
        0 <= m,
        0 <= n,
    ensures
        -(m * n) <= a * b <= m * n,
{
}

proof fn lemma_square_bound(a: int, m: int)
    by (nonlinear_arith)
    requires
        -m <= a <= m,
        0 <= m,
    ensures
        0 <= a * a <= m * m,
{
}

proof fn lemma_mul_pos(a: int, b: int)
    by (nonlinear_arith)
    requires
        a >= 1,
        b >= 1,
    ensures
        a * b >= 1,
{
}

/// Squared distance between two in-range points, at most `3 * 2^30`.
fn dist2_exec(a: &Point, b: &Point) -> (r: u64)
    requires
        a.wf(),
        b.wf(),
    ensures
        r == dist2(*a, *b),
        r <= 0xC000_0000,
{
    let dx = a.x as i64 - b.x as i64;
    let dy = a.y as i64 - b.y as i64;
    let dz = a.z as i64 - b.z as i64;
    proof {
        lemma_square_bound(dx as int, 0x8000);
        lemma_square_bound(dy as int, 0x8000);
        lemma_square_bound(dz as int, 0x8000);
    }
    (dx * dx + dy * dy + dz * dz) as u64
}

impl Shape {
    /// The squared normalized distance from `point` to this shape; the
    /// denominator is positive. `UnknownShape` for the unsupported tag.
    pub fn distance(&self, point: &Point) -> (r: Result<(u64, u64), Error>)
        requires
            self.wf(),
            point.wf(),
        ensures
            match r {
                Ok(nd) => norm_dist2_spec(*self, *point) == Some((nd.0 as int, nd.1 as int))
                    && nd.1 >= 1,
                Err(e) => e == Error::UnknownShape && (*self matches Shape::Unknown),
            },
    {
        match self {
            Shape::Sphere { p, r } => {
                let num = dist2_exec(point, p);
                let rr = *r as i64;
                proof {
                    lemma_square_bound(rr as int, 0x4000);
                    lemma_mul_pos(rr as int, rr as int);
                }
                Ok((num, (rr * rr) as u64))
            },
            Shape::Capsule { p0, p1, r } => {
                let ax = point.x as i64 - p0.x as i64;
                let ay = point.y as i64 - p0.y as i64;
                let az = point.z as i64 - p0.z as i64;
                let bx = p1.x as i64 - p0.x as i64;
                let by = p1.y as i64 - p0.y as i64;
                let bz = p1.z as i64 - p0.z as i64;
                proof {
                    lemma_mul_range(ax as int, bx as int, 0x8000, 0x8000);
                    lemma_mul_range(ay as int, by as int, 0x8000, 0x8000);
                    lemma_mul_range(az as int, bz as int, 0x8000, 0x8000);
                }
                let dot = ax * bx + ay * by + az * bz;
                let l2 = dist2_exec(p1, p0) as i64;
                let rr = *r as i64;
                proof {
                    lemma_square_bound(rr as int, 0x4000);
                    lemma_mul_pos(rr as int, rr as int);
                }
                if l2 == 0 || dot <= 0 {
                    Ok((dist2_exec(point, p0), (rr * rr) as u64))
                } else if dot >= l2 {
                    Ok((dist2_exec(point, p1), (rr * rr) as u64))
                } else {
                    proof {
                        lemma_mul_range(ay as int, bz as int, 0x8000, 0x8000);
                        lemma_mul_range(az as int, by as int, 0x8000, 0x8000);
                        lemma_mul_range(az as int, bx as int, 0x8000, 0x8000);
                        lemma_mul_range(ax as int, bz as int, 0x8000, 0x8000);
                        lemma_mul_range(ax as int, by as int, 0x8000, 0x8000);
                        lemma_mul_range(ay as int, bx as int, 0x8000, 0x8000);
                    }
                    let cx = ay * bz - az * by;
                    let cy = az * bx - ax * bz;
                    let cz = ax * by - ay * bx;
                    proof {
                        lemma_square_bound(cx as int, 0x8000_0000);
                        lemma_square_bound(cy as int, 0x8000_0000);
                        lemma_square_bound(cz as int, 0x8000_0000);
                    }
                    let num = (cx * cx) as u64 + (cy * cy) as u64 + (cz * cz) as u64;
                    proof {
                        lemma_mul_range(l2 as int, (rr * rr) as int, 0xC000_0000, 0x1000_0000);
                        lemma_mul_pos(l2 as int, (rr * rr) as int);
                    }
                    let den = (l2 as u64) * ((rr * rr) as u64);
                    proof {
                        vstd::arithmetic::mul::lemma_mul_is_associative(
                            l2 as int,
                            rr as int,
                            rr as int,
                        );
                    }
                    Ok((num, den))
                }
            },
            Shape::Unknown => Err(Error::UnknownShape),
        }
    }
}

/// Compares two normalized squared distances exactly:
/// `n1 / d1 < n2 / d2`.
pub fn ratio_lt_exec(n1: u64, d1: u64, n2: u64, d2: u64) -> (r: bool)
    requires
        d1 >= 1,
        d2 >= 1,
    ensures
        r == ratio_lt(n1 as int, d1 as int, n2 as int, d2 as int),
{
    proof {
        lemma_mul_range(n1 as int, d2 as int, 0xFFFF_FFFF_FFFF_FFFF, 0xFFFF_FFFF_FFFF_FFFF);
        lemma_mul_range(n2 as int, d1 as int, 0xFFFF_FFFF_FFFF_FFFF, 0xFFFF_FFFF_FFFF_FFFF);
    }
    (n1 as u128) * (d2 as u128) < (n2 as u128) * (d1 as u128)
}

/// Whether a normalized squared distance exceeds the classification
/// cutoff `(3/2)^2 = 9/4`: the "no plausible owner" test.
pub open spec fn beyond_cutoff(num: int, den: int) -> bool {
    4 * num > 9 * den
}

pub fn beyond_cutoff_exec(num: u64, den: u64) -> (r: bool)
    ensures
        r == beyond_cutoff(num as int, den as int),
{
    4 * (num as u128) > 9 * (den as u128)
}

/// A point at a sphere's center is at normalized distance 0.
pub proof fn lemma_sphere_center(c: Point, r: i32)
    ensures
        norm_dist2_spec(Shape::Sphere { p: c, r }, c) matches Some((num, den)) && num == 0,
{
    assert(dist2(c, c) == 0);
}

/// A point whose squared distance to the center is `(2r)^2` is at
/// normalized distance 2: the rational `num / den` equals 4.
pub proof fn lemma_sphere_double_radius(c: Point, r: i32, p: Point)
    requires
        dist2(p, c) == 4 * (r as int) * (r as int),
    ensures
        norm_dist2_spec(Shape::Sphere { p: c, r }, p) matches Some((num, den)) && num == 4 * den,
{
    let rr = (r as int) * (r as int);
    assert(4 * ((r as int) * (r as int)) == 4 * rr);
    vstd::arithmetic::mul::lemma_mul_is_associative(4, r as int, r as int);
}

/// Beyond the `p0` cap (the segment parameter clamps to 0), a capsule's
/// distance is the distance to `p0` itself, not to the carrying line.
pub proof fn lemma_capsule_clamp_low(p0: Point, p1: Point, r: i32, p: Point)
    requires
        seg_dot(p0, p1, p) <= 0,
    ensures
        norm_dist2_spec(Shape::Capsule { p0, p1, r }, p) == Some(
            (dist2(p, p0), (r as int) * (r as int)),
        ),
{
}

/// Beyond the `p1` cap (the segment parameter clamps to 1), a capsule's
/// distance is the distance to `p1` itself.
pub proof fn lemma_capsule_clamp_high(p0: Point, p1: Point, r: i32, p: Point)
    requires
        seg_dot(p0, p1, p) >= seg_len2(p0, p1),
        seg_len2(p0, p1) > 0,
    ensures
        norm_dist2_spec(Shape::Capsule { p0, p1, r }, p) == Some(
            (dist2(p, p1), (r as int) * (r as int)),
        ),
{
}

} // verus!

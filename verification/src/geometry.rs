//! Points on the integer grid of coordinates.

use vstd::prelude::*;

verus! {

/// A position: longitude and latitude in units of a ten-millionth of a
/// degree, so that every coordinate on the globe fits and arithmetic on
/// coordinates is exact.
#[derive(Clone, Copy, Debug, PartialEq, Eq, Structural)]
pub struct Point {
    pub lon: i32,
    pub lat: i32,
}

/// Points are ordered by longitude, and by latitude where longitudes agree.
pub open spec fn precedes(a: Point, b: Point) -> bool {
    a.lon < b.lon || (a.lon == b.lon && a.lat < b.lat)
}

/// Whether each point of the sequence precedes the next one. Such a sequence
/// holds no point twice.
pub open spec fn ascending(points: Seq<Point>) -> bool {
    forall|i: int, j: int| 0 <= i < j < points.len() ==> precedes(points[i], points[j])
}

/// Whether no point of the sequence precedes an earlier one.
pub open spec fn sorted(points: Seq<Point>) -> bool {
    forall|i: int, j: int| 0 <= i < j < points.len() ==> !precedes(points[j], points[i])
}

/// Twice the signed area of the triangle `o`, `a`, `b`: positive where the
/// three make a left turn, negative for a right turn, zero on a line.
#[verifier::opaque]
pub open spec fn cross(o: Point, a: Point, b: Point) -> int {
    (a.lon - o.lon) * (b.lat - o.lat) - (a.lat - o.lat) * (b.lon - o.lon)
}

/// Tests whether `a` precedes `b`.
pub fn point_precedes(a: Point, b: Point) -> (r: bool)
    ensures
        r == precedes(a, b),
{
    a.lon < b.lon || (a.lon == b.lon && a.lat < b.lat)
}

/// Computes `cross(o, a, b)`.
pub fn turn(o: Point, a: Point, b: Point) -> (t: i128)
    ensures
        t == cross(o, a, b),
{
    reveal(cross);
    let ax: i128 = a.lon as i128 - o.lon as i128;
    let ay: i128 = a.lat as i128 - o.lat as i128;
    let bx: i128 = b.lon as i128 - o.lon as i128;
    let by: i128 = b.lat as i128 - o.lat as i128;
    assert(-0x1_0000_0000 <= ax <= 0x1_0000_0000 && -0x1_0000_0000 <= ay <= 0x1_0000_0000);
    assert(-0x1_0000_0000 <= bx <= 0x1_0000_0000 && -0x1_0000_0000 <= by <= 0x1_0000_0000);
    assert(-0x1_0000_0000_0000_0000 <= ax * by <= 0x1_0000_0000_0000_0000) by (nonlinear_arith)
        requires
            -0x1_0000_0000 <= ax <= 0x1_0000_0000,
            -0x1_0000_0000 <= by <= 0x1_0000_0000,
    ;
    assert(-0x1_0000_0000_0000_0000 <= ay * bx <= 0x1_0000_0000_0000_0000) by (nonlinear_arith)
        requires
            -0x1_0000_0000 <= ay <= 0x1_0000_0000,
            -0x1_0000_0000 <= bx <= 0x1_0000_0000,
    ;
    ax * by - ay * bx
}

} // verus!

//! The bounding box of a stream of points.

use crate::geometry::Point;
use vstd::prelude::*;

verus! {

/// The least and greatest coordinate seen on each axis.
#[derive(Clone, Copy, Debug, PartialEq, Eq, Structural)]
pub struct BoundingBox {
    pub min_lon: i32,
    pub max_lon: i32,
    pub min_lat: i32,
    pub max_lat: i32,
}

/// The pair (0, 0) stands for a position that was never filled in.
pub open spec fn is_missing(p: Point) -> bool {
    p.lon == 0 && p.lat == 0
}

/// The lesser of two coordinates.
pub open spec fn least(a: i32, b: i32) -> i32 {
    if a <= b {
        a
    } else {
        b
    }
}

/// The greater of two coordinates.
pub open spec fn greatest(a: i32, b: i32) -> i32 {
    if a >= b {
        a
    } else {
        b
    }
}

/// The bounds after one more point: a missing position changes nothing, the
/// first real point makes a box of itself, a later one stretches the box.
pub open spec fn widened(acc: Option<BoundingBox>, p: Point) -> Option<BoundingBox> {
    if is_missing(p) {
        acc
    } else {
        match acc {
            None => Some(
                BoundingBox { min_lon: p.lon, max_lon: p.lon, min_lat: p.lat, max_lat: p.lat },
            ),
            Some(b) => Some(
                BoundingBox {
                    min_lon: least(b.min_lon, p.lon),
                    max_lon: greatest(b.max_lon, p.lon),
                    min_lat: least(b.min_lat, p.lat),
                    max_lat: greatest(b.max_lat, p.lat),
                },
            ),
        }
    }
}

/// The bounds of the first `n` points.
pub open spec fn bounds_upto(points: Seq<Point>, n: int) -> Option<BoundingBox>
    decreases n,
{
    if n <= 0 {
        None
    } else {
        widened(bounds_upto(points, n - 1), points[n - 1])
    }
}

/// The bounds of all the points; absent where none is a real position.
pub open spec fn bounds(points: Seq<Point>) -> Option<BoundingBox> {
    bounds_upto(points, points.len() as int)
}

/// Whether the box holds the point.
pub open spec fn holds(b: BoundingBox, p: Point) -> bool {
    b.min_lon <= p.lon <= b.max_lon && b.min_lat <= p.lat <= b.max_lat
}

/// Whether some real position among the first `n` points has the longitude `lon`.
pub open spec fn lon_seen(points: Seq<Point>, n: int, lon: i32) -> bool {
    exists|i: int| 0 <= i < n && !is_missing(#[trigger] points[i]) && points[i].lon == lon
}

/// Whether some real position among the first `n` points has the latitude `lat`.
pub open spec fn lat_seen(points: Seq<Point>, n: int, lat: i32) -> bool {
    exists|i: int| 0 <= i < n && !is_missing(#[trigger] points[i]) && points[i].lat == lat
}

/// The bounds are absent exactly where every point is missing; otherwise the
/// box holds every real position and each of its four sides passes through one.
pub proof fn lemma_bounds_are_tight(points: Seq<Point>, n: int)
    requires
        0 <= n <= points.len(),
    ensures
        bounds_upto(points, n) is None <==> forall|i: int|
            0 <= i < n ==> is_missing(#[trigger] points[i]),
        bounds_upto(points, n) is Some ==> {
            let b = bounds_upto(points, n)->0;
            &&& forall|i: int|
                0 <= i < n && !is_missing(#[trigger] points[i]) ==> holds(b, points[i])
            &&& lon_seen(points, n, b.min_lon)
            &&& lon_seen(points, n, b.max_lon)
            &&& lat_seen(points, n, b.min_lat)
            &&& lat_seen(points, n, b.max_lat)
        },
    decreases n,
{
    if n > 0 {
        lemma_bounds_are_tight(points, n - 1);
        let before = bounds_upto(points, n - 1);
        let p = points[n - 1];
        if is_missing(p) {
            if before is Some {
                let b = before->0;
                lemma_seen_later(points, n - 1, b);
            }
        } else {
            let b = bounds_upto(points, n)->0;
            if before is Some {
                lemma_seen_later(points, n - 1, before->0);
            }
            assert(!is_missing(points[n - 1]));
            assert(lon_seen(points, n, b.min_lon));
            assert(lon_seen(points, n, b.max_lon));
            assert(lat_seen(points, n, b.min_lat));
            assert(lat_seen(points, n, b.max_lat));
        }
    }
}

proof fn lemma_seen_later(points: Seq<Point>, n: int, b: BoundingBox)
    requires
        0 <= n < points.len(),
    ensures
        lon_seen(points, n, b.min_lon) ==> lon_seen(points, n + 1, b.min_lon),
        lon_seen(points, n, b.max_lon) ==> lon_seen(points, n + 1, b.max_lon),
        lat_seen(points, n, b.min_lat) ==> lat_seen(points, n + 1, b.min_lat),
        lat_seen(points, n, b.max_lat) ==> lat_seen(points, n + 1, b.max_lat),
{
    if lon_seen(points, n, b.min_lon) {
        let i = choose|i: int|
            0 <= i < n && !is_missing(#[trigger] points[i]) && points[i].lon == b.min_lon;
        assert(0 <= i < n + 1 && !is_missing(points[i]) && points[i].lon == b.min_lon);
    }
    if lon_seen(points, n, b.max_lon) {
        let i = choose|i: int|
            0 <= i < n && !is_missing(#[trigger] points[i]) && points[i].lon == b.max_lon;
        assert(0 <= i < n + 1 && !is_missing(points[i]) && points[i].lon == b.max_lon);
    }
    if lat_seen(points, n, b.min_lat) {
        let i = choose|i: int|
            0 <= i < n && !is_missing(#[trigger] points[i]) && points[i].lat == b.min_lat;
        assert(0 <= i < n + 1 && !is_missing(points[i]) && points[i].lat == b.min_lat);
    }
    if lat_seen(points, n, b.max_lat) {
        let i = choose|i: int|
            0 <= i < n && !is_missing(#[trigger] points[i]) && points[i].lat == b.max_lat;
        assert(0 <= i < n + 1 && !is_missing(points[i]) && points[i].lat == b.max_lat);
    }
}

/// Missing positions do not count: the bounds of a stream are those of the
/// stream without them.
pub proof fn lemma_bounds_ignore_missing(points: Seq<Point>)
    ensures
        bounds(points) == bounds(points.filter(|p: Point| !is_missing(p))),
    decreases points.len(),
{
    let present = |p: Point| !is_missing(p);
    reveal(Seq::filter);
    if points.len() > 0 {
        let front = points.drop_last();
        lemma_bounds_ignore_missing(front);
        lemma_bounds_of_prefix(points, front, front.len() as int);
        let kept = front.filter(present);
        if is_missing(points.last()) {
            assert(points.filter(present) == kept);
        } else {
            let all = points.filter(present);
            assert(all == kept.push(points.last()));
            assert(all.drop_last() =~= kept);
            lemma_bounds_of_prefix(all, kept, kept.len() as int);
        }
    }
}

proof fn lemma_bounds_of_prefix(long: Seq<Point>, short: Seq<Point>, n: int)
    requires
        0 <= n <= short.len() <= long.len(),
        forall|i: int| 0 <= i < short.len() ==> short[i] == long[i],
    ensures
        bounds_upto(long, n) == bounds_upto(short, n),
    decreases n,
{
    if n > 0 {
        lemma_bounds_of_prefix(long, short, n - 1);
    }
}

/// Takes one more point into the bounds.
pub fn widen(acc: Option<BoundingBox>, p: Point) -> (out: Option<BoundingBox>)
    ensures
        out == widened(acc, p),
{
    if p.lon == 0 && p.lat == 0 {
        acc
    } else {
        match acc {
            None => Some(
                BoundingBox { min_lon: p.lon, max_lon: p.lon, min_lat: p.lat, max_lat: p.lat },
            ),
            Some(b) => Some(
                BoundingBox {
                    min_lon: if b.min_lon <= p.lon { b.min_lon } else { p.lon },
                    max_lon: if b.max_lon >= p.lon { b.max_lon } else { p.lon },
                    min_lat: if b.min_lat <= p.lat { b.min_lat } else { p.lat },
                    max_lat: if b.max_lat >= p.lat { b.max_lat } else { p.lat },
                },
            ),
        }
    }
}

/// The bounding box of the points in one pass. Missing positions are left
/// out; where nothing else was seen there is no box.
pub fn bounding_box(points: &Vec<Point>) -> (out: Option<BoundingBox>)
    ensures
        out == bounds(points@),
        out is None <==> forall|i: int| 0 <= i < points.len() ==> is_missing(#[trigger] points[i]),
        out is Some ==> forall|i: int|
            0 <= i < points.len() && !is_missing(#[trigger] points[i]) ==> holds(
                out->0,
                points[i],
            ),
        out is Some ==> lon_seen(points@, points.len() as int, out->0.min_lon) && lon_seen(
            points@,
            points.len() as int,
            out->0.max_lon,
        ) && lat_seen(points@, points.len() as int, out->0.min_lat) && lat_seen(
            points@,
            points.len() as int,
            out->0.max_lat,
        ),
{
    let mut acc: Option<BoundingBox> = None;
    let mut i: usize = 0;
    while i < points.len()
        invariant
            i <= points.len(),
            acc == bounds_upto(points@, i as int),
        decreases points.len() - i,
    {
        acc = widen(acc, points[i]);
        i += 1;
    }
    proof {
        lemma_bounds_are_tight(points@, points.len() as int);
    }
    acc
}

} // verus!

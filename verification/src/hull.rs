//! The convex hull of a set of points, by two monotone chains.

use crate::geometry::{ascending, cross, point_precedes, precedes, sorted, turn, Point};
use rayon::slice::ParallelSliceMut;
use vstd::prelude::*;

verus! {

/// The cross product of two plane vectors.
spec fn wedge(ux: int, uy: int, vx: int, vy: int) -> int {
    ux * vy - uy * vx
}

/// Whether a vector points forward in the order of the points: to greater
/// longitude, or straight to greater latitude.
spec fn forward(x: int, y: int) -> bool {
    x > 0 || (x == 0 && y > 0)
}

/// Three plane vectors are linearly dependent, with the cross products of
/// the pairs as coefficients.
proof fn lemma_dependent(ux: int, uy: int, vx: int, vy: int, wx: int, wy: int)
    ensures
        ux * wedge(vx, vy, wx, wy) + vx * wedge(wx, wy, ux, uy) + wx * wedge(ux, uy, vx, vy) == 0,
        uy * wedge(vx, vy, wx, wy) + vy * wedge(wx, wy, ux, uy) + wy * wedge(ux, uy, vx, vy) == 0,
{
    assert(ux * (vx * wy - vy * wx) + vx * (wx * uy - wy * ux) + wx * (ux * vy - uy * vx) == 0)
        by (nonlinear_arith);
    assert(uy * (vx * wy - vy * wx) + vy * (wx * uy - wy * ux) + wy * (ux * vy - uy * vx) == 0)
        by (nonlinear_arith);
}

/// For forward vectors, turning left is transitive: if `v` is left of `u`
/// and `w` is not right of `v`, then `w` is left of `u`.
proof fn lemma_left_of_left(ux: int, uy: int, vx: int, vy: int, wx: int, wy: int)
    requires
        forward(ux, uy),
        forward(vx, vy),
        forward(wx, wy),
        wedge(ux, uy, vx, vy) > 0,
        wedge(vx, vy, wx, wy) >= 0,
    ensures
        wedge(ux, uy, wx, wy) > 0,
{
    lemma_dependent(ux, uy, vx, vy, wx, wy);
    let uv = wedge(ux, uy, vx, vy);
    let vw = wedge(vx, vy, wx, wy);
    let wu = wedge(wx, wy, ux, uy);
    assert(wedge(ux, uy, wx, wy) == -wu);
    // vx * (u x w) == ux * (v x w) + wx * (u x v)
    if vx > 0 {
        assert(ux * vw >= 0) by (nonlinear_arith)
            requires
                ux >= 0,
                vw >= 0,
        ;
        assert(wx * uv >= 0) by (nonlinear_arith)
            requires
                wx >= 0,
                uv > 0,
        ;
        if ux == 0 && wx == 0 {
            // both point straight up, so `v` cannot be left of `u`
            assert(uv == -(uy * vx));
            assert(uy * vx > 0) by (nonlinear_arith)
                requires
                    uy > 0,
                    vx > 0,
            ;
        }
        if wx > 0 {
            assert(wx * uv > 0) by (nonlinear_arith)
                requires
                    wx > 0,
                    uv > 0,
            ;
            assert(vx * wu < 0);
            assert(wu < 0) by (nonlinear_arith)
                requires
                    vx > 0,
                    vx * wu < 0,
            ;
        } else {
            // `w` points straight up and `u` does not
            assert(ux > 0);
            assert(wedge(ux, uy, wx, wy) == ux * wy);
            assert(ux * wy > 0) by (nonlinear_arith)
                requires
                    ux > 0,
                    wy > 0,
            ;
        }
    } else {
        // `v` points straight up
        assert(uv == ux * vy);
        assert(ux > 0) by (nonlinear_arith)
            requires
                ux * vy > 0,
                vy > 0,
                ux >= 0,
        ;
        assert(vw == -(vy * wx));
        assert(wx == 0) by (nonlinear_arith)
            requires
                -(vy * wx) >= 0,
                vy > 0,
                wx >= 0,
        ;
        assert(wedge(ux, uy, wx, wy) == ux * wy);
        assert(ux * wy > 0) by (nonlinear_arith)
            requires
                ux > 0,
                wy > 0,
        ;
    }
}

/// For forward vectors: if `a` is not left of `u` and `b` is left of `u`,
/// then `b` is not right of `a`.
proof fn lemma_across(ux: int, uy: int, ax: int, ay: int, bx: int, by: int)
    requires
        forward(ux, uy),
        forward(ax, ay),
        forward(bx, by),
        wedge(ux, uy, ax, ay) <= 0,
        wedge(ux, uy, bx, by) > 0,
    ensures
        wedge(ax, ay, bx, by) >= 0,
{
    lemma_dependent(ux, uy, ax, ay, bx, by);
    let ua = wedge(ux, uy, ax, ay);
    let ub = wedge(ux, uy, bx, by);
    let ab = wedge(ax, ay, bx, by);
    assert(wedge(bx, by, ux, uy) == -ub);
    // ux * (a x b) == ax * (u x b) - bx * (u x a)
    if ux > 0 {
        assert(ax * ub >= 0) by (nonlinear_arith)
            requires
                ax >= 0,
                ub > 0,
        ;
        assert(bx * ua <= 0) by (nonlinear_arith)
            requires
                bx >= 0,
                ua <= 0,
        ;
        assert(ax * wedge(bx, by, ux, uy) == -(ax * ub)) by (nonlinear_arith)
            requires
                wedge(bx, by, ux, uy) == -ub,
        ;
        assert(ux * ab >= 0);
        assert(ab >= 0) by (nonlinear_arith)
            requires
                ux > 0,
                ux * ab >= 0,
        ;
    } else {
        assert(ub == -(uy * bx));
        assert(false) by (nonlinear_arith)
            requires
                -(uy * bx) > 0,
                uy > 0,
                bx >= 0,
        ;
    }
}

/// For forward vectors `a`, `c - a` and `d`: if `a` is not right of `c` and
/// `d` is not left of `c`, then `a` is not right of `d`.
proof fn lemma_between(ax: int, ay: int, cx: int, cy: int, dx: int, dy: int)
    requires
        forward(ax, ay),
        forward(cx - ax, cy - ay),
        forward(dx, dy),
        wedge(cx, cy, ax, ay) >= 0,
        wedge(cx, cy, dx, dy) <= 0,
    ensures
        wedge(dx, dy, ax, ay) >= 0,
{
    lemma_dependent(cx, cy, dx, dy, ax, ay);
    let ca = wedge(cx, cy, ax, ay);
    let cd = wedge(cx, cy, dx, dy);
    let da = wedge(dx, dy, ax, ay);
    assert(wedge(ax, ay, cx, cy) == -ca);
    // cx * (d x a) == dx * (c x a) - ax * (c x d)
    if cx > 0 {
        assert(dx * wedge(ax, ay, cx, cy) == -(dx * ca)) by (nonlinear_arith)
            requires
                wedge(ax, ay, cx, cy) == -ca,
        ;
        assert(dx * ca >= 0) by (nonlinear_arith)
            requires
                dx >= 0,
                ca >= 0,
        ;
        assert(ax * cd <= 0) by (nonlinear_arith)
            requires
                ax >= 0,
                cd <= 0,
        ;
        assert(cx * da >= 0);
        assert(da >= 0) by (nonlinear_arith)
            requires
                cx > 0,
                cx * da >= 0,
        ;
    } else {
        assert(ax == 0 && ay > 0);
        assert(da == dx * ay);
        assert(dx * ay >= 0) by (nonlinear_arith)
            requires
                dx >= 0,
                ay > 0,
        ;
    }
}

/// Forward vectors along one line lie on the same side of every vector.
proof fn lemma_same_side(ux: int, uy: int, vx: int, vy: int, wx: int, wy: int)
    requires
        forward(ux, uy),
        forward(vx, vy),
        wedge(ux, uy, vx, vy) == 0,
    ensures
        wedge(ux, uy, wx, wy) > 0 <==> wedge(vx, vy, wx, wy) > 0,
        wedge(ux, uy, wx, wy) < 0 <==> wedge(vx, vy, wx, wy) < 0,
{
    lemma_dependent(ux, uy, vx, vy, wx, wy);
    let uw = wedge(ux, uy, wx, wy);
    let vw = wedge(vx, vy, wx, wy);
    assert(wedge(wx, wy, ux, uy) == -uw);
    assert(wx * wedge(ux, uy, vx, vy) == 0 && wy * wedge(ux, uy, vx, vy) == 0) by (nonlinear_arith)
        requires
            wedge(ux, uy, vx, vy) == 0,
    ;
    assert(vx * wedge(wx, wy, ux, uy) == -(vx * uw) && vy * wedge(wx, wy, ux, uy) == -(vy * uw))
        by (nonlinear_arith)
        requires
            wedge(wx, wy, ux, uy) == -uw,
    ;
    // ux * (v x w) == vx * (u x w), and the same with uy and vy
    assert(ux * vw == vx * uw);
    assert(uy * vw == vy * uw);
    if ux > 0 {
        assert(vx > 0) by (nonlinear_arith)
            requires
                ux * vy - uy * vx == 0,
                ux > 0,
                vx > 0 || (vx == 0 && vy > 0),
        ;
        assert((uw > 0 <==> vw > 0) && (uw < 0 <==> vw < 0)) by (nonlinear_arith)
            requires
                ux * vw == vx * uw,
                ux > 0,
                vx > 0,
        ;
    } else {
        assert(vx == 0) by (nonlinear_arith)
            requires
                ux * vy - uy * vx == 0,
                ux == 0,
                uy > 0,
        ;
        assert((uw > 0 <==> vw > 0) && (uw < 0 <==> vw < 0)) by (nonlinear_arith)
            requires
                uy * vw == vy * uw,
                uy > 0,
                vy > 0,
        ;
    }
}

/// The order in which a chain takes the points: with the order of the points
/// for the lower chain, against it for the upper one.
spec fn before(a: Point, b: Point, fwd: bool) -> bool {
    if fwd {
        precedes(a, b)
    } else {
        precedes(b, a)
    }
}

spec fn step_lon(a: Point, b: Point, fwd: bool) -> int {
    if fwd {
        b.lon - a.lon
    } else {
        a.lon - b.lon
    }
}

spec fn step_lat(a: Point, b: Point, fwd: bool) -> int {
    if fwd {
        b.lat - a.lat
    } else {
        a.lat - b.lat
    }
}

/// The turn at `o` is the cross product of the steps from `o`, whichever way
/// the chain runs.
proof fn lemma_cross_of_steps(o: Point, a: Point, b: Point, fwd: bool)
    ensures
        cross(o, a, b) == wedge(
            step_lon(o, a, fwd),
            step_lat(o, a, fwd),
            step_lon(o, b, fwd),
            step_lat(o, b, fwd),
        ),
{
    reveal(cross);
    let ax = a.lon - o.lon;
    let ay = a.lat - o.lat;
    let bx = b.lon - o.lon;
    let by = b.lat - o.lat;
    assert((-ax) * (-by) - (-ay) * (-bx) == ax * by - ay * bx) by (nonlinear_arith);
}

/// The cross product is additive in its second vector.
proof fn lemma_wedge_sum(ux: int, uy: int, vx: int, vy: int, wx: int, wy: int)
    ensures
        wedge(ux, uy, vx + wx, vy + wy) == wedge(ux, uy, vx, vy) + wedge(ux, uy, wx, wy),
        wedge(ux, uy, ux + vx, uy + vy) == wedge(ux, uy, vx, vy),
{
    assert(ux * (vy + wy) - uy * (vx + wx) == (ux * vy - uy * vx) + (ux * wy - uy * wx))
        by (nonlinear_arith);
    assert(ux * (uy + vy) - uy * (ux + vx) == ux * vy - uy * vx) by (nonlinear_arith);
}

/// An edge of a chain that turns left into the next edge has on its left
/// whatever lies later and is not right of that next edge.
proof fn lemma_earlier_edge(a: Point, b: Point, c: Point, q: Point, fwd: bool)
    requires
        before(a, b, fwd),
        before(b, c, fwd),
        before(c, q, fwd),
        cross(a, b, c) > 0,
        cross(b, c, q) >= 0,
    ensures
        cross(a, b, q) > 0,
{
    let ux = step_lon(a, b, fwd);
    let uy = step_lat(a, b, fwd);
    let vx = step_lon(b, c, fwd);
    let vy = step_lat(b, c, fwd);
    let wx = step_lon(c, q, fwd);
    let wy = step_lat(c, q, fwd);
    lemma_cross_of_steps(a, b, c, fwd);
    lemma_cross_of_steps(b, c, q, fwd);
    lemma_cross_of_steps(a, b, q, fwd);
    assert(step_lon(a, c, fwd) == ux + vx && step_lat(a, c, fwd) == uy + vy);
    assert(step_lon(b, q, fwd) == vx + wx && step_lat(b, q, fwd) == vy + wy);
    assert(step_lon(a, q, fwd) == ux + (vx + wx) && step_lat(a, q, fwd) == uy + (vy + wy));
    lemma_wedge_sum(ux, uy, vx, vy, 0, 0);
    lemma_wedge_sum(vx, vy, wx, wy, 0, 0);
    lemma_wedge_sum(ux, uy, vx + wx, vy + wy, 0, 0);
    lemma_wedge_sum(ux, uy, vx, vy, wx, wy);
    lemma_left_of_left(ux, uy, vx, vy, wx, wy);
}

/// When the top `t` of a chain is given up for `q`, a point after `t` that
/// was left of the edge into `t` and of the line from `t` to `q` is left of
/// the line from the point below, `s`, to `q`.
proof fn lemma_pop_later(s: Point, t: Point, p: Point, q: Point)
    requires
        cross(s, t, p) >= 0,
        cross(t, q, p) >= 0,
        cross(s, t, q) <= 0,
    ensures
        cross(s, q, p) >= 0,
{
    reveal(cross);
    let tx = t.lon - s.lon;
    let ty = t.lat - s.lat;
    let px = p.lon - s.lon;
    let py = p.lat - s.lat;
    let qx = q.lon - s.lon;
    let qy = q.lat - s.lat;
    assert((qx - tx) * (py - ty) - (qy - ty) * (px - tx) == (qx * py - qy * px) + (tx * qy - ty
        * qx) - (tx * py - ty * px)) by (nonlinear_arith);
}

/// When the top `t` of a chain is given up for `q`, a point between the
/// point below, `s`, and `t` that was left of the edge from `s` to `t` is
/// left of the line from `s` to `q`.
proof fn lemma_pop_earlier(s: Point, t: Point, p: Point, q: Point, fwd: bool)
    requires
        before(s, p, fwd),
        before(p, t, fwd),
        before(t, q, fwd),
        cross(s, t, p) >= 0,
        cross(s, t, q) <= 0,
    ensures
        cross(s, q, p) >= 0,
{
    lemma_cross_of_steps(s, t, p, fwd);
    lemma_cross_of_steps(s, t, q, fwd);
    lemma_cross_of_steps(s, q, p, fwd);
    lemma_between(
        step_lon(s, p, fwd),
        step_lat(s, p, fwd),
        step_lon(s, t, fwd),
        step_lat(s, t, fwd),
        step_lon(s, q, fwd),
        step_lat(s, q, fwd),
    );
}

/// When `q` is put on a chain whose last edge runs from `s` to `t`, a point
/// before `t` that was left of that edge is left of the new edge from `t`
/// to `q`.
proof fn lemma_new_edge(s: Point, t: Point, p: Point, q: Point, fwd: bool)
    requires
        before(s, t, fwd),
        before(p, t, fwd),
        before(t, q, fwd),
        cross(s, t, p) >= 0,
        cross(s, t, q) > 0,
    ensures
        cross(t, q, p) >= 0,
{
    let ux = step_lon(s, t, fwd);
    let uy = step_lat(s, t, fwd);
    let ax = step_lon(p, t, fwd);
    let ay = step_lat(p, t, fwd);
    let bx = step_lon(t, q, fwd);
    let by = step_lat(t, q, fwd);
    lemma_cross_of_steps(s, t, p, fwd);
    lemma_cross_of_steps(s, t, q, fwd);
    lemma_cross_of_steps(t, q, p, fwd);
    // from s: p lies at u - a, q at u + b; from t: p lies at -a
    assert(step_lon(s, p, fwd) == ux - ax && step_lat(s, p, fwd) == uy - ay);
    assert(step_lon(s, q, fwd) == ux + bx && step_lat(s, q, fwd) == uy + by);
    assert(step_lon(t, p, fwd) == -ax && step_lat(t, p, fwd) == -ay);
    assert(ux * (uy - ay) - uy * (ux - ax) == -(ux * ay - uy * ax)) by (nonlinear_arith);
    lemma_wedge_sum(ux, uy, bx, by, 0, 0);
    assert(bx * (-ay) - by * (-ax) == ax * by - ay * bx) by (nonlinear_arith);
    lemma_across(ux, uy, ax, ay, bx, by);
}

/// The points in the order in which a chain takes them.
spec fn taken(points: Seq<Point>, fwd: bool) -> Seq<Point> {
    if fwd {
        points
    } else {
        points.reverse()
    }
}

/// Whether `p` is on the left of the edge that leaves vertex `k` of the
/// chain, or on its line.
spec fn edge_sees(chain: Seq<Point>, k: int, p: Point) -> bool {
    cross(chain[k], chain[k + 1], p) >= 0
}

/// Whether every edge of the chain has the first `n` points of `order` on its
/// left or on its line.
spec fn chain_sees(chain: Seq<Point>, order: Seq<Point>, n: int) -> bool {
    forall|k: int, j: int|
        0 <= k < chain.len() - 1 && 0 <= j < n ==> #[trigger] edge_sees(chain, k, order[j])
}

/// Whether the chain runs in the order of the points.
spec fn chain_runs(chain: Seq<Point>, fwd: bool) -> bool {
    forall|a: int, b: int| 0 <= a < b < chain.len() ==> before(chain[a], chain[b], fwd)
}

/// Whether the chain turns left at each of its inner vertices.
spec fn chain_turns_left(chain: Seq<Point>) -> bool {
    forall|k: int|
        0 <= k < chain.len() - 2 ==> cross(#[trigger] chain[k], chain[k + 1], chain[k + 2]) > 0
}

/// Whether each vertex of the chain is one of the first `n` points of `order`.
spec fn chain_drawn_from(chain: Seq<Point>, order: Seq<Point>, n: int) -> bool {
    forall|k: int|
        0 <= k < chain.len() ==> exists|j: int| 0 <= j < n && order[j] == #[trigger] chain[k]
}

/// Half of the boundary of the hull: a chain from the first point taken to
/// the last that turns left at every vertex, whose vertices are points of the
/// set, and that has every point of the set on its left or on it.
#[verifier::opaque]
spec fn is_chain(chain: Seq<Point>, points: Seq<Point>, fwd: bool) -> bool {
    let order = taken(points, fwd);
    &&& chain.len() >= 1
    &&& chain[0] == order[0]
    &&& chain.last() == order.last()
    &&& chain_runs(chain, fwd)
    &&& chain_turns_left(chain)
    &&& chain_drawn_from(chain, order, order.len() as int)
    &&& chain_sees(chain, order, order.len() as int)
}

/// The turn is zero where two of the three points agree, and changes sign
/// where the last two change places.
proof fn lemma_cross_basics(o: Point, a: Point, b: Point)
    ensures
        cross(o, a, a) == 0,
        cross(o, a, o) == 0,
        cross(o, o, b) == 0,
        cross(o, b, a) == -cross(o, a, b),
{
    reveal(cross);
    let ax = a.lon - o.lon;
    let ay = a.lat - o.lat;
    let bx = b.lon - o.lon;
    let by = b.lat - o.lat;
    assert(ax * ay - ay * ax == 0) by (nonlinear_arith);
    assert(bx * ay - by * ax == -(ax * by - ay * bx)) by (nonlinear_arith);
}

/// The new point is on the left of every edge of a chain that turns left and
/// whose last edge has it on its left.
proof fn lemma_chain_sees_new(chain: Seq<Point>, q: Point, fwd: bool, k: int)
    requires
        chain.len() >= 2,
        chain_runs(chain, fwd),
        chain_turns_left(chain),
        before(chain.last(), q, fwd),
        cross(chain[chain.len() - 2], chain.last(), q) > 0,
        0 <= k < chain.len() - 1,
    ensures
        cross(chain[k], chain[k + 1], q) > 0,
    decreases chain.len() - k,
{
    if k < chain.len() - 2 {
        lemma_chain_sees_new(chain, q, fwd, k + 1);
        if k + 2 < chain.len() - 1 {
            assert(before(chain[k + 2], chain[chain.len() - 1], fwd));
        }
        assert(before(chain[k], chain[k + 1], fwd));
        assert(before(chain[k + 1], chain[k + 2], fwd));
        lemma_earlier_edge(chain[k], chain[k + 1], chain[k + 2], q, fwd);
    }
}

/// What holds of a chain under construction once the first `n` points of
/// `order` are taken.
spec fn growing(chain: Seq<Point>, order: Seq<Point>, n: int, fwd: bool) -> bool {
    &&& chain.len() >= 1
    &&& chain[0] == order[0]
    &&& chain_runs(chain, fwd)
    &&& chain_turns_left(chain)
    &&& chain_drawn_from(chain, order, n)
    &&& chain_sees(chain, order, n)
}

/// Whether the points taken after the top of the chain are on the left of
/// the line from the top to `q`.
spec fn clear_above(chain: Seq<Point>, order: Seq<Point>, n: int, q: Point, fwd: bool) -> bool {
    forall|j: int|
        0 <= j < n && before(chain.last(), #[trigger] order[j], fwd) ==> cross(
            chain.last(),
            q,
            order[j],
        ) >= 0
}

proof fn lemma_taken_runs(points: Seq<Point>, fwd: bool)
    requires
        ascending(points),
    ensures
        chain_runs(taken(points, fwd), fwd),
{
    let order = taken(points, fwd);
    assert forall|a: int, b: int| 0 <= a < b < order.len() implies before(
        order[a],
        order[b],
        fwd,
    ) by {
        if !fwd {
            assert(precedes(points[points.len() - 1 - b], points[points.len() - 1 - a]));
        }
    }
}

proof fn lemma_top_is_latest(chain: Seq<Point>, order: Seq<Point>, n: int, q: Point, fwd: bool)
    requires
        1 <= n <= order.len(),
        chain.len() >= 1,
        chain.last() == order[n - 1],
        chain_runs(order, fwd),
    ensures
        clear_above(chain, order, n, q, fwd),
{
    assert forall|j: int|
        0 <= j < n && before(chain.last(), #[trigger] order[j], fwd) implies cross(
        chain.last(),
        q,
        order[j],
    ) >= 0 by {
        if j < n - 1 {
            assert(before(order[j], order[n - 1], fwd));
        }
    }
}

/// Giving up the top of the chain for `q`, which is not on the left of the
/// last edge, keeps what holds of the chain.
proof fn lemma_pop(chain: Seq<Point>, order: Seq<Point>, n: int, q: Point, fwd: bool)
    requires
        1 <= n < order.len(),
        q == order[n],
        chain_runs(order, fwd),
        growing(chain, order, n, fwd),
        clear_above(chain, order, n, q, fwd),
        chain.len() >= 2,
        cross(chain[chain.len() - 2], chain.last(), q) <= 0,
    ensures
        growing(chain.drop_last(), order, n, fwd),
        clear_above(chain.drop_last(), order, n, q, fwd),
{
    let rest = chain.drop_last();
    let len = chain.len() as int;
    let s = chain[len - 2];
    let t = chain[len - 1];
    assert(rest.last() == s);
    assert(before(s, t, fwd));
    let jt = choose|j: int| 0 <= j < n && order[j] == chain[len - 1];
    assert(before(order[jt], order[n], fwd));
    assert forall|j: int| 0 <= j < n && before(s, #[trigger] order[j], fwd) implies cross(
        s,
        q,
        order[j],
    ) >= 0 by {
        let p = order[j];
        assert(edge_sees(chain, len - 2, order[j]));
        if p == t {
            lemma_cross_basics(s, t, q);
        } else if before(t, p, fwd) {
            lemma_pop_later(s, t, p, q);
        } else {
            lemma_pop_earlier(s, t, p, q, fwd);
        }
    }
    assert forall|k: int, j: int| 0 <= k < rest.len() - 1 && 0 <= j < n implies #[trigger] edge_sees(
        rest,
        k,
        order[j],
    ) by {
        assert(edge_sees(chain, k, order[j]));
    }
    assert forall|k: int| 0 <= k < rest.len() - 2 implies cross(
        #[trigger] rest[k],
        rest[k + 1],
        rest[k + 2],
    ) > 0 by {
        assert(cross(chain[k], chain[k + 1], chain[k + 2]) > 0);
    }
    assert forall|k: int| 0 <= k < rest.len() implies exists|j: int|
        0 <= j < n && order[j] == #[trigger] rest[k] by {
        assert(rest[k] == chain[k]);
    }
    assert forall|a: int, b: int| 0 <= a < b < rest.len() implies before(rest[a], rest[b], fwd) by {
        assert(before(chain[a], chain[b], fwd));
    }
}

/// Putting `q` on a chain whose last edge has it on its left keeps what
/// holds of the chain, now with `q` among the points taken.
proof fn lemma_push(chain: Seq<Point>, order: Seq<Point>, n: int, q: Point, fwd: bool)
    requires
        1 <= n < order.len(),
        q == order[n],
        chain_runs(order, fwd),
        growing(chain, order, n, fwd),
        clear_above(chain, order, n, q, fwd),
        chain.len() < 2 || cross(chain[chain.len() - 2], chain.last(), q) > 0,
    ensures
        growing(chain.push(q), order, n + 1, fwd),
{
    let more = chain.push(q);
    let t = chain.last();
    let jt = choose|j: int| 0 <= j < n && order[j] == chain[chain.len() - 1];
    assert(before(order[jt], order[n], fwd));
    assert(before(t, q, fwd));
    assert forall|a: int, b: int| 0 <= a < b < more.len() implies before(more[a], more[b], fwd) by {
        if b == chain.len() {
            let ja = choose|j: int| 0 <= j < n && order[j] == chain[a];
            assert(before(order[ja], order[n], fwd));
        } else {
            assert(before(chain[a], chain[b], fwd));
        }
    }
    assert forall|k: int| 0 <= k < more.len() - 2 implies cross(
        #[trigger] more[k],
        more[k + 1],
        more[k + 2],
    ) > 0 by {
        if k + 2 < chain.len() {
            assert(cross(chain[k], chain[k + 1], chain[k + 2]) > 0);
        }
    }
    assert forall|k: int| 0 <= k < more.len() implies exists|j: int|
        0 <= j < n + 1 && order[j] == #[trigger] more[k] by {
        if k < chain.len() {
            let j = choose|j: int| 0 <= j < n && order[j] == chain[k];
            assert(0 <= j < n + 1 && order[j] == more[k]);
        } else {
            assert(order[n] == more[k]);
        }
    }
    assert forall|k: int, j: int| 0 <= k < more.len() - 1 && 0 <= j < n + 1 implies #[trigger] edge_sees(
        more,
        k,
        order[j],
    ) by {
        let p = order[j];
        if k < chain.len() - 1 {
            assert(more[k] == chain[k] && more[k + 1] == chain[k + 1]);
            if j < n {
                assert(edge_sees(chain, k, order[j]));
            } else {
                lemma_chain_sees_new(chain, q, fwd, k);
            }
        } else {
            // the new edge, from t to q
            assert(more[k] == t && more[k + 1] == q);
            lemma_cross_basics(t, q, p);
            if j == n {
            } else if p == t {
            } else if before(t, p, fwd) {
            } else if chain.len() >= 2 {
                let s = chain[chain.len() - 2];
                assert(before(s, t, fwd));
                assert(edge_sees(chain, chain.len() - 2, order[j]));
                lemma_new_edge(s, t, p, q, fwd);
            } else {
                // t is the first point taken, so none comes before it
                if j > 0 {
                    assert(before(order[0], order[j], fwd));
                }
            }
        }
    }
}

/// Builds one chain of the hull over points in ascending order: the lower
/// chain with `fwd`, the upper chain without.
fn chain_of(points: &Vec<Point>, fwd: bool) -> (chain: Vec<Point>)
    requires
        ascending(points@),
        points.len() >= 1,
    ensures
        is_chain(chain@, points@, fwd),
{
    let n = points.len();
    let ghost order = taken(points@, fwd);
    let mut chain: Vec<Point> = Vec::new();
    chain.push(if fwd { points[0] } else { points[n - 1] });
    proof {
        lemma_taken_runs(points@, fwd);
        assert(chain@[0] == order[0]);
        assert(growing(chain@, order, 1, fwd));
    }
    let mut i: usize = 1;
    while i < n
        invariant
            n == points.len(),
            n == order.len(),
            1 <= i <= n,
            order == taken(points@, fwd),
            chain_runs(order, fwd),
            growing(chain@, order, i as int, fwd),
            chain@.last() == order[i - 1],
        decreases n - i,
    {
        let q = if fwd { points[i] } else { points[n - 1 - i] };
        proof {
            assert(q == order[i as int]);
            lemma_top_is_latest(chain@, order, i as int, q, fwd);
        }
        loop
            invariant
                n == order.len(),
                1 <= i < n,
                q == order[i as int],
                chain_runs(order, fwd),
                growing(chain@, order, i as int, fwd),
                clear_above(chain@, order, i as int, q, fwd),
            ensures
                chain.len() < 2 || cross(chain@[chain.len() - 2], chain@.last(), q) > 0,
            decreases chain.len(),
        {
            let len = chain.len();
            if len < 2 {
                break ;
            }
            if turn(chain[len - 2], chain[len - 1], q) > 0 {
                break ;
            }
            proof {
                lemma_pop(chain@, order, i as int, q, fwd);
            }
            chain.pop();
        }
        proof {
            lemma_push(chain@, order, i as int, q, fwd);
        }
        chain.push(q);
        i += 1;
    }
    proof {
        reveal(is_chain);
    }
    chain
}

/// The vertex that follows vertex `k` on a ring of `len` vertices.
pub open spec fn next_on_ring(k: int, len: int) -> int {
    if k + 1 < len {
        k + 1
    } else {
        0
    }
}

/// Whether `p` is on the left of the edge that leaves vertex `k` of the ring,
/// or on its line.
pub open spec fn ring_edge_sees(ring: Seq<Point>, k: int, p: Point) -> bool {
    cross(ring[k], ring[next_on_ring(k, ring.len() as int)], p) >= 0
}

/// Whether the ring, walked counter-clockwise, has every one of the points on
/// the left of each of its edges or on it: the points lie on or inside it.
pub open spec fn ring_encloses(ring: Seq<Point>, points: Seq<Point>) -> bool {
    forall|k: int, i: int|
        0 <= k < ring.len() && 0 <= i < points.len() ==> #[trigger] ring_edge_sees(
            ring,
            k,
            points[i],
        )
}

/// Whether each vertex of the ring is one of the points.
pub open spec fn ring_drawn_from(ring: Seq<Point>, points: Seq<Point>) -> bool {
    forall|k: int| 0 <= k < ring.len() ==> points.contains(#[trigger] ring[k])
}

/// Whether the ring turns left at each of its vertices: no vertex lies on the
/// line through its neighbours, so none can be left out.
pub open spec fn ring_turns_left(ring: Seq<Point>) -> bool {
    forall|k: int|
        0 <= k < ring.len() ==> cross(
            #[trigger] ring[k],
            ring[next_on_ring(k, ring.len() as int)],
            ring[next_on_ring(next_on_ring(k, ring.len() as int), ring.len() as int)],
        ) > 0
}

/// Where one chain ends and the other begins the ring turns left, unless the
/// two chains are one edge there and back.
proof fn lemma_junction(first: Seq<Point>, second: Seq<Point>, points: Seq<Point>, fwd: bool)
    requires
        ascending(points),
        points.len() >= 2,
        is_chain(first, points, fwd),
        is_chain(second, points, !fwd),
        first.len() >= 2,
        second.len() >= 2,
        first.len() >= 3 || second.len() >= 3,
    ensures
        first.last() == second[0],
        cross(first[first.len() - 2], second[0], second[1]) > 0,
{
    reveal(is_chain);
    let n = points.len() as int;
    let order = taken(points, fwd);
    let back = taken(points, !fwd);
    assert(order.last() == back[0]) by {
        assert(points.reverse()[0] == points[n - 1]);
        assert(points.reverse().last() == points[0]);
    }
    let x = second[0];
    let a = first[first.len() - 2];
    let b = second[1];
    assert(before(a, first[first.len() - 1], fwd));
    assert(before(second[0], second[1], !fwd));
    // b is one of the points, so the last edge of the first chain sees it
    let jb = choose|j: int| 0 <= j < n && back[j] == second[1];
    assert(order[n - 1 - jb] == b) by {
        assert(points.reverse()[jb] == points[n - 1 - jb]);
        assert(points.reverse()[n - 1 - jb] == points[jb]);
    }
    assert(edge_sees(first, first.len() - 2, order[n - 1 - jb]));
    let ux = step_lon(a, x, fwd);
    let uy = step_lat(a, x, fwd);
    let vx = step_lon(b, x, fwd);
    let vy = step_lat(b, x, fwd);
    lemma_cross_of_steps(a, x, b, fwd);
    assert(step_lon(a, b, fwd) == ux - vx && step_lat(a, b, fwd) == uy - vy);
    assert(ux * (uy - vy) - uy * (ux - vx) == -(ux * vy - uy * vx)) by (nonlinear_arith);
    if cross(a, x, b) == 0 {
        assert(wedge(ux, uy, vx, vy) == 0);
        if first.len() >= 3 {
            let c = first[first.len() - 3];
            assert(cross(c, a, x) > 0);
            let jc = choose|j: int| 0 <= j < n && order[j] == first[first.len() - 3];
            assert(back[n - 1 - jc] == c) by {
                assert(points.reverse()[jc] == points[n - 1 - jc]);
                assert(points.reverse()[n - 1 - jc] == points[jc]);
            }
            assert(edge_sees(second, 0, back[n - 1 - jc]));
            let wx = step_lon(x, c, fwd);
            let wy = step_lat(x, c, fwd);
            lemma_cross_of_steps(x, b, c, fwd);
            lemma_cross_of_steps(c, a, x, fwd);
            assert(step_lon(x, b, fwd) == -vx && step_lat(x, b, fwd) == -vy);
            assert(step_lon(c, a, fwd) == -wx - ux && step_lat(c, a, fwd) == -wy - uy);
            assert(step_lon(c, x, fwd) == -wx && step_lat(c, x, fwd) == -wy);
            assert((-vx) * wy - (-vy) * wx == -(vx * wy - vy * wx)) by (nonlinear_arith);
            assert((-wx - ux) * (-wy) - (-wy - uy) * (-wx) == ux * wy - uy * wx)
                by (nonlinear_arith);
            lemma_same_side(ux, uy, vx, vy, wx, wy);
            assert(false);
        } else {
            let d = second[2];
            assert(cross(second[0], second[1], second[2]) > 0);
            let jd = choose|j: int| 0 <= j < n && back[j] == second[2];
            assert(order[n - 1 - jd] == d) by {
                assert(points.reverse()[jd] == points[n - 1 - jd]);
                assert(points.reverse()[n - 1 - jd] == points[jd]);
            }
            assert(edge_sees(first, first.len() - 2, order[n - 1 - jd]));
            let wx = step_lon(x, d, fwd);
            let wy = step_lat(x, d, fwd);
            lemma_cross_of_steps(x, b, d, fwd);
            lemma_cross_of_steps(a, x, d, fwd);
            assert(step_lon(x, b, fwd) == -vx && step_lat(x, b, fwd) == -vy);
            assert(step_lon(a, d, fwd) == ux + wx && step_lat(a, d, fwd) == uy + wy);
            assert((-vx) * wy - (-vy) * wx == -(vx * wy - vy * wx)) by (nonlinear_arith);
            lemma_wedge_sum(ux, uy, wx, wy, 0, 0);
            lemma_same_side(ux, uy, vx, vy, wx, wy);
            assert(false);
        }
    }
}

/// The lower chain without its last vertex, then the upper chain without its
/// last vertex, make a ring that encloses the points and turns left at each
/// of its vertices.
proof fn lemma_ring(lower: Seq<Point>, upper: Seq<Point>, points: Seq<Point>)
    requires
        ascending(points),
        points.len() >= 2,
        is_chain(lower, points, true),
        is_chain(upper, points, false),
    ensures
        lower.len() >= 2,
        upper.len() >= 2,
        lower[0] == points[0],
        ring_encloses(lower.drop_last() + upper.drop_last(), points),
        ring_drawn_from(lower.drop_last() + upper.drop_last(), points),
        lower.len() + upper.len() >= 5 ==> ring_turns_left(
            lower.drop_last() + upper.drop_last(),
        ),
{
    reveal(is_chain);
    let n = points.len() as int;
    let back = points.reverse();
    assert(precedes(points[0], points[n - 1]));
    assert(back[0] == points[n - 1] && back.last() == points[0]);
    let ring = lower.drop_last() + upper.drop_last();
    let low = lower.len() - 1;
    let len = ring.len() as int;
    assert forall|k: int, i: int| 0 <= k < ring.len() && 0 <= i < n implies #[trigger] ring_edge_sees(
        ring,
        k,
        points[i],
    ) by {
        let next = next_on_ring(k, ring.len() as int);
        if k < low {
            assert(ring[k] == lower[k]);
            assert(ring[next] == lower[k + 1]);
            assert(edge_sees(lower, k, points[i]));
        } else {
            assert(ring[k] == upper[k - low]);
            assert(ring[next] == upper[k - low + 1]);
            assert(points[i] == back[n - 1 - i]);
            assert(edge_sees(upper, k - low, back[n - 1 - i]));
        }
    }
    assert forall|k: int| 0 <= k < ring.len() implies points.contains(#[trigger] ring[k]) by {
        if k < low {
            let j = choose|j: int| 0 <= j < n && points[j] == lower[k];
            assert(points[j] == ring[k]);
        } else {
            let j = choose|j: int| 0 <= j < n && back[j] == upper[k - low];
            assert(points[n - 1 - j] == ring[k]);
        }
    }
    if lower.len() + upper.len() >= 5 {
        lemma_ring_turns(lower, upper, points);
    }
}

/// The ring of two chains turns left at each vertex: inside a chain because
/// the chain does, and where the chains meet by `lemma_junction`.
proof fn lemma_ring_turns(lower: Seq<Point>, upper: Seq<Point>, points: Seq<Point>)
    requires
        ascending(points),
        points.len() >= 2,
        is_chain(lower, points, true),
        is_chain(upper, points, false),
        lower.len() >= 2,
        upper.len() >= 2,
        lower.len() + upper.len() >= 5,
    ensures
        ring_turns_left(lower.drop_last() + upper.drop_last()),
{
    let ring = lower.drop_last() + upper.drop_last();
    let low = lower.len() - 1;
    let len = ring.len() as int;
    lemma_junction(lower, upper, points, true);
    lemma_junction(upper, lower, points, false);
    assert(chain_turns_left(lower) && chain_turns_left(upper)) by {
        reveal(is_chain);
    }
    assert forall|k: int| 0 <= k < ring.len() implies cross(
        #[trigger] ring[k],
        ring[next_on_ring(k, len)],
        ring[next_on_ring(next_on_ring(k, len), len)],
    ) > 0 by {
        let next = next_on_ring(k, len);
        let after = next_on_ring(next, len);
        if k < low {
            assert(ring[k] == lower[k]);
            if k + 2 <= low {
                assert(ring[next] == lower[k + 1]);
                assert(ring[after] == lower[k + 2]);
                assert(cross(lower[k], lower[k + 1], lower[k + 2]) > 0);
            } else if k + 1 <= low - 1 {
                // the last inner vertex of the lower chain
                assert(ring[next] == lower[k + 1]);
                assert(ring[after] == upper[0]);
                assert(cross(lower[k], lower[k + 1], lower[k + 2]) > 0);
            } else {
                // the vertex before the meeting point
                assert(ring[next] == upper[0]);
                if upper.len() >= 3 {
                    assert(ring[after] == upper[1]);
                } else {
                    assert(after == 0);
                    assert(ring[after] == lower[0]);
                }
            }
        } else {
            let m = k - low;
            assert(ring[k] == upper[m]);
            if m + 2 <= upper.len() - 2 {
                assert(ring[next] == upper[m + 1]);
                assert(ring[after] == upper[m + 2]);
                assert(cross(upper[m], upper[m + 1], upper[m + 2]) > 0);
            } else if m + 1 <= upper.len() - 2 {
                assert(ring[next] == upper[m + 1]);
                assert(after == 0);
                assert(ring[after] == lower[0]);
                assert(cross(upper[m], upper[m + 1], upper[m + 2]) > 0);
            } else {
                assert(next == 0);
                assert(ring[next] == lower[0]);
                if lower.len() >= 3 {
                    assert(ring[after] == lower[1]);
                } else {
                    assert(ring[after] == upper[0]);
                }
            }
        }
    }
}

/// The convex hull of points in ascending order, as a ring of vertices walked
/// counter-clockwise from the first point. Fewer than three points have no
/// hull. Otherwise each vertex is one of the points, every point lies on or
/// inside the ring, and the ring turns left at each vertex, so that it has
/// no vertex to spare; points that all lie on one line give the ring of
/// their two ends.
pub fn convex_hull(points: &Vec<Point>) -> (ring: Vec<Point>)
    requires
        ascending(points@),
    ensures
        points.len() < 3 ==> ring.len() == 0,
        points.len() >= 3 ==> ring.len() >= 2 && ring[0] == points[0],
        ring_drawn_from(ring@, points@),
        ring_encloses(ring@, points@),
        ring.len() >= 3 ==> ring_turns_left(ring@),
{
    let mut ring: Vec<Point> = Vec::new();
    if points.len() < 3 {
        return ring;
    }
    let lower = chain_of(points, true);
    let upper = chain_of(points, false);
    proof {
        lemma_ring(lower@, upper@, points@);
    }
    let mut k: usize = 0;
    while k < lower.len() - 1
        invariant
            lower.len() >= 2,
            k <= lower.len() - 1,
            ring@ == lower@.take(k as int),
        decreases lower.len() - k,
    {
        ring.push(lower[k]);
        k += 1;
        assert(lower@.take(k as int) =~= lower@.take(k - 1).push(lower@[k - 1]));
    }
    assert(ring@ =~= lower@.drop_last());
    let mut m: usize = 0;
    while m < upper.len() - 1
        invariant
            upper.len() >= 2,
            m <= upper.len() - 1,
            ring@ == lower@.drop_last() + upper@.take(m as int),
        decreases upper.len() - m,
    {
        ring.push(upper[m]);
        m += 1;
        assert(lower@.drop_last() + upper@.take(m as int) =~= (lower@.drop_last() + upper@.take(
            m - 1,
        )).push(upper@[m - 1]));
    }
    assert(ring@ =~= lower@.drop_last() + upper@.drop_last());
    ring
}

/// `ParallelSliceMut::par_sort_unstable_by_key` sorts the slice in place by
/// the key of each item, here the pair of longitude and latitude, which
/// compares first by longitude: the same points come out, none before a
/// point that precedes it.
#[verifier::external_body]
fn sort_points(points: &mut Vec<Point>)
    ensures
        final(points)@.to_multiset() == old(points)@.to_multiset(),
        sorted(final(points)@),
{
    points.par_sort_unstable_by_key(|p| (p.lon, p.lat));
}

/// The points of a sorted sequence, each once.
pub fn dedup_sorted(points: &Vec<Point>) -> (out: Vec<Point>)
    requires
        sorted(points@),
    ensures
        ascending(out@),
        out@.to_set() == points@.to_set(),
{
    let mut out: Vec<Point> = Vec::new();
    let mut i: usize = 0;
    while i < points.len()
        invariant
            i <= points.len(),
            sorted(points@),
            ascending(out@),
            i == 0 <==> out.len() == 0,
            i > 0 ==> out@.last() == points[i - 1],
            forall|k: int| 0 <= k < out.len() ==> points@.contains(#[trigger] out[k]),
            forall|j: int| 0 <= j < i ==> out@.contains(#[trigger] points[j]),
        decreases points.len() - i,
    {
        let p = points[i];
        let ghost before_push = out@;
        if out.len() == 0 || point_precedes(out[out.len() - 1], p) {
            out.push(p);
            proof {
                assert forall|a: int, b: int| 0 <= a < b < out.len() implies precedes(
                    out[a],
                    out[b],
                ) by {
                    if b == out.len() - 1 {
                        if a < b - 1 {
                            assert(precedes(before_push[a], before_push[b - 1]));
                        }
                    } else {
                        assert(precedes(before_push[a], before_push[b]));
                    }
                }
                assert forall|j: int| 0 <= j < i + 1 implies out@.contains(
                    #[trigger] points[j],
                ) by {
                    if j < i {
                        let k = choose|k: int| 0 <= k < before_push.len() && before_push[k] == points[j];
                        assert(out@[k] == points[j]);
                    } else {
                        assert(out@[out.len() - 1] == points[j]);
                    }
                }
                assert forall|k: int| 0 <= k < out.len() implies points@.contains(
                    #[trigger] out[k],
                ) by {
                    if k < before_push.len() {
                        assert(points@.contains(before_push[k]));
                    } else {
                        assert(points@[i as int] == out[k]);
                    }
                }
            }
        } else {
            proof {
                assert(!precedes(points[i as int], points[i - 1]));
                assert(points[i as int] == points[i - 1]);
                assert forall|j: int| 0 <= j < i + 1 implies out@.contains(
                    #[trigger] points[j],
                ) by {
                    if j == i {
                        assert(out@[out.len() - 1] == points[j]);
                    }
                }
            }
        }
        i += 1;
    }
    proof {
        assert forall|p: Point| out@.contains(p) <==> points@.contains(p) by {
            if out@.contains(p) {
                let k = choose|k: int| 0 <= k < out.len() && out[k] == p;
                assert(points@.contains(out[k]));
            }
            if points@.contains(p) {
                let j = choose|j: int| 0 <= j < points.len() && points[j] == p;
                assert(out@.contains(points[j]));
            }
        }
        assert(out@.to_set() =~= points@.to_set());
    }
    out
}

/// The convex hull of any points: they are sorted, repeated points are
/// dropped, and the ring is built as in `convex_hull`. Fewer than three
/// distinct points have no hull.
pub fn hull_of_points(points: Vec<Point>) -> (ring: Vec<Point>)
    ensures
        points@.to_set().len() < 3 ==> ring.len() == 0,
        points@.to_set().len() >= 3 ==> ring.len() >= 2 && forall|i: int|
            0 <= i < points.len() ==> !precedes(#[trigger] points[i], ring[0]),
        ring_drawn_from(ring@, points@),
        ring_encloses(ring@, points@),
        ring.len() >= 3 ==> ring_turns_left(ring@),
{
    let mut ordered = points;
    sort_points(&mut ordered);
    let each_once = dedup_sorted(&ordered);
    let ring = convex_hull(&each_once);
    proof {
        broadcast use vstd::seq_lib::group_to_multiset_ensures;

        assert forall|p: Point| ordered@.contains(p) <==> points@.contains(p) by {
            assert(ordered@.to_multiset().count(p) == points@.to_multiset().count(p));
        }
        assert(ordered@.to_set() =~= points@.to_set());
        assert(each_once@.no_duplicates()) by {
            assert forall|a: int, b: int|
                0 <= a < each_once.len() && 0 <= b < each_once.len() && a != b implies each_once[a]
                != each_once[b] by {
                if a < b {
                    assert(precedes(each_once[a], each_once[b]));
                } else {
                    assert(precedes(each_once[b], each_once[a]));
                }
            }
        }
        each_once@.unique_seq_to_set();
        assert forall|k: int| 0 <= k < ring.len() implies points@.contains(#[trigger] ring[k]) by {
            assert(each_once@.contains(ring[k]));
            assert(each_once@.to_set().contains(ring[k]));
            assert(points@.to_set().contains(ring[k]));
        }
        assert forall|k: int, i: int|
            0 <= k < ring.len() && 0 <= i < points.len() implies #[trigger] ring_edge_sees(
            ring@,
            k,
            points[i],
        ) by {
            assert(points@.contains(points[i]));
            assert(points@.to_set().contains(points[i]));
            assert(each_once@.to_set().contains(points[i]));
            assert(each_once@.contains(points[i]));
            let j = choose|j: int| 0 <= j < each_once.len() && each_once[j] == points[i];
            assert(ring_edge_sees(ring@, k, each_once[j]));
        }
        if each_once.len() >= 3 {
            assert forall|i: int| 0 <= i < points.len() implies !precedes(
                #[trigger] points[i],
                ring[0],
            ) by {
                assert(points@.contains(points[i]));
                assert(points@.to_set().contains(points[i]));
                assert(each_once@.to_set().contains(points[i]));
                assert(each_once@.contains(points[i]));
                let j = choose|j: int| 0 <= j < each_once.len() && each_once[j] == points[i];
                if j > 0 {
                    assert(precedes(each_once[0], each_once[j]));
                }
            }
        }
    }
    ring
}

} // verus!

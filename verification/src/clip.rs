//! Cleaning the geometry of a path: rules that cut known-bad stretches off the
//! paths they name, and the test that what is left is still a line.

use crate::geometry::Point;
use crate::text::{absent_or_same, same_text};
use vstd::prelude::*;

verus! {

/// The coordinate that a rule looks at.
#[derive(Clone, Copy, Debug, PartialEq, Eq, Structural)]
pub enum Axis {
    Lon,
    Lat,
}

/// The side of the bound on which points are kept.
#[derive(Clone, Copy, Debug, PartialEq, Eq, Structural)]
pub enum Side {
    Below,
    Above,
}

/// One cut: on the paths it names, only the points strictly on one side of a
/// bound stay. A key that is absent matches every path.
#[derive(Clone, Debug)]
pub struct ClipRule {
    /// The feed of the path.
    pub feed_id: Option<String>,
    /// The resolved colour of the path, as six hexadecimal digits.
    pub colour: Option<String>,
    /// The one route that the path serves; a path of several routes, or of
    /// none, does not match.
    pub sole_route: Option<String>,
    pub axis: Axis,
    pub side: Side,
    pub bound: i32,
}

/// What a `ClipRule` holds, with each text as its sequence of characters.
pub struct ClipRuleView {
    pub feed_id: Option<Seq<char>>,
    pub colour: Option<Seq<char>>,
    pub sole_route: Option<Seq<char>>,
    pub axis: Axis,
    pub side: Side,
    pub bound: i32,
}

impl DeepView for ClipRule {
    type V = ClipRuleView;

    open spec fn deep_view(&self) -> ClipRuleView {
        ClipRuleView {
            feed_id: self.feed_id.deep_view(),
            colour: self.colour.deep_view(),
            sole_route: self.sole_route.deep_view(),
            axis: self.axis,
            side: self.side,
            bound: self.bound,
        }
    }
}

/// Whether the rule names the path of the given feed, colour and routes.
pub open spec fn applies(
    rule: ClipRuleView,
    feed_id: Seq<char>,
    colour: Seq<char>,
    route_ids: Seq<Seq<char>>,
) -> bool {
    &&& rule.feed_id is Some ==> rule.feed_id->0 == feed_id
    &&& rule.colour is Some ==> rule.colour->0 == colour
    &&& rule.sole_route is Some ==> route_ids.len() == 1 && route_ids[0] == rule.sole_route->0
}

/// Whether the point is on the side of the bound that the rule keeps.
pub open spec fn keeps(rule: ClipRuleView, p: Point) -> bool {
    let at = match rule.axis {
        Axis::Lon => p.lon,
        Axis::Lat => p.lat,
    };
    match rule.side {
        Side::Below => at < rule.bound,
        Side::Above => at > rule.bound,
    }
}

/// Whether the point passes every rule that names the path.
pub open spec fn point_stays(
    rules: Seq<ClipRuleView>,
    feed_id: Seq<char>,
    colour: Seq<char>,
    route_ids: Seq<Seq<char>>,
    p: Point,
) -> bool {
    forall|k: int|
        0 <= k < rules.len() && applies(#[trigger] rules[k], feed_id, colour, route_ids) ==> keeps(
            rules[k],
            p,
        )
}

/// The points of the path that stay, in their order.
pub open spec fn cleaned(
    points: Seq<Point>,
    rules: Seq<ClipRuleView>,
    feed_id: Seq<char>,
    colour: Seq<char>,
    route_ids: Seq<Seq<char>>,
) -> Seq<Point> {
    points.filter(|p: Point| point_stays(rules, feed_id, colour, route_ids, p))
}

/// A path of which fewer than two points are left: it is no line, and is
/// passed over.
#[derive(Clone, Copy, Debug, PartialEq, Eq, Structural)]
pub struct DegeneratePath {
    /// How many points stayed: none or one.
    pub kept: usize,
}

/// Tests whether the rule names the path.
pub fn rule_applies(rule: &ClipRule, feed_id: &str, colour: &str, route_ids: &Vec<String>) -> (yes:
    bool)
    ensures
        yes == applies(rule.deep_view(), feed_id@, colour@, route_ids.deep_view()),
{
    if !absent_or_same(&rule.feed_id, feed_id) {
        return false;
    }
    if !absent_or_same(&rule.colour, colour) {
        return false;
    }
    match &rule.sole_route {
        Some(route) => {
            assert(route_ids.len() >= 1 ==> route_ids.deep_view()[0] == route_ids@[0]@);
            route_ids.len() == 1 && same_text(route_ids[0].as_str(), route.as_str())
        },
        None => true,
    }
}

/// Tests whether the point is on the side that the rule keeps.
pub fn rule_keeps(rule: &ClipRule, p: Point) -> (yes: bool)
    ensures
        yes == keeps(rule.deep_view(), p),
{
    let at = match rule.axis {
        Axis::Lon => p.lon,
        Axis::Lat => p.lat,
    };
    match rule.side {
        Side::Below => at < rule.bound,
        Side::Above => at > rule.bound,
    }
}

/// Cleans one path. The points that pass every rule naming the path are
/// returned in their order, provided at least two are left; otherwise the
/// path is degenerate, which the caller reports and passes over.
pub fn clean_path(
    points: &Vec<Point>,
    rules: &Vec<ClipRule>,
    feed_id: &str,
    colour: &str,
    route_ids: &Vec<String>,
) -> (out: Result<Vec<Point>, DegeneratePath>)
    ensures
        match out {
            Ok(line) => line@ == cleaned(
                points@,
                rules.deep_view(),
                feed_id@,
                colour@,
                route_ids.deep_view(),
            ) && line.len() >= 2,
            Err(e) => e.kept == cleaned(
                points@,
                rules.deep_view(),
                feed_id@,
                colour@,
                route_ids.deep_view(),
            ).len() && e.kept < 2,
        },
{
    let ghost stays = |p: Point|
        point_stays(rules.deep_view(), feed_id@, colour@, route_ids.deep_view(), p);
    let mut named: Vec<bool> = Vec::new();
    let mut k: usize = 0;
    while k < rules.len()
        invariant
            k <= rules.len(),
            named.len() == k,
            forall|j: int|
                0 <= j < k ==> named[j] == applies(
                    #[trigger] rules.deep_view()[j],
                    feed_id@,
                    colour@,
                    route_ids.deep_view(),
                ),
        decreases rules.len() - k,
    {
        let yes = rule_applies(&rules[k], feed_id, colour, route_ids);
        assert(rules.deep_view()[k as int] == rules@[k as int].deep_view());
        named.push(yes);
        k += 1;
    }
    let mut line: Vec<Point> = Vec::new();
    let mut i: usize = 0;
    while i < points.len()
        invariant
            i <= points.len(),
            named.len() == rules.len(),
            forall|j: int|
                0 <= j < rules.len() ==> named[j] == applies(
                    #[trigger] rules.deep_view()[j],
                    feed_id@,
                    colour@,
                    route_ids.deep_view(),
                ),
            stays == |p: Point|
                point_stays(rules.deep_view(), feed_id@, colour@, route_ids.deep_view(), p),
            line@ == points@.take(i as int).filter(stays),
        decreases points.len() - i,
    {
        let p = points[i];
        let mut ok = true;
        let mut j: usize = 0;
        while j < rules.len()
            invariant
                j <= rules.len(),
                named.len() == rules.len(),
                forall|m: int|
                    0 <= m < rules.len() ==> named[m] == applies(
                        #[trigger] rules.deep_view()[m],
                        feed_id@,
                        colour@,
                        route_ids.deep_view(),
                    ),
                ok == forall|m: int|
                    0 <= m < j && applies(
                        #[trigger] rules.deep_view()[m],
                        feed_id@,
                        colour@,
                        route_ids.deep_view(),
                    ) ==> keeps(rules.deep_view()[m], p),
            decreases rules.len() - j,
        {
            assert(rules.deep_view()[j as int] == rules@[j as int].deep_view());
            if named[j] && !rule_keeps(&rules[j], p) {
                ok = false;
            }
            j += 1;
        }
        assert(ok == stays(p));
        proof {
            reveal(Seq::filter);
            assert(points@.take(i + 1).drop_last() =~= points@.take(i as int));
        }
        if ok {
            line.push(p);
        }
        i += 1;
    }
    assert(points@.take(points.len() as int) =~= points@);
    if line.len() >= 2 {
        Ok(line)
    } else {
        Err(DegeneratePath { kept: line.len() })
    }
}

/// Cleaning keeps the order of the points and adds none: what is left is no
/// longer than the path, and every point left passes the rules.
pub proof fn lemma_cleaned_is_part(
    points: Seq<Point>,
    rules: Seq<ClipRuleView>,
    feed_id: Seq<char>,
    colour: Seq<char>,
    route_ids: Seq<Seq<char>>,
)
    ensures
        cleaned(points, rules, feed_id, colour, route_ids).len() <= points.len(),
        forall|i: int|
            0 <= i < cleaned(points, rules, feed_id, colour, route_ids).len() ==> point_stays(
                rules,
                feed_id,
                colour,
                route_ids,
                #[trigger] cleaned(points, rules, feed_id, colour, route_ids)[i],
            ),
        (forall|k: int|
            0 <= k < rules.len() ==> !applies(#[trigger] rules[k], feed_id, colour, route_ids))
            ==> cleaned(points, rules, feed_id, colour, route_ids) == points,
{
    let stays = |p: Point| point_stays(rules, feed_id, colour, route_ids, p);
    let left = cleaned(points, rules, feed_id, colour, route_ids);
    points.lemma_filter_len(stays);
    assert forall|i: int| 0 <= i < left.len() implies point_stays(
        rules,
        feed_id,
        colour,
        route_ids,
        #[trigger] left[i],
    ) by {
        points.lemma_filter_pred(stays, i);
    }
    if forall|k: int|
        0 <= k < rules.len() ==> !applies(#[trigger] rules[k], feed_id, colour, route_ids) {
        assert forall|i: int| 0 <= i < points.len() implies stays(#[trigger] points[i]) by {}
        lemma_filter_keeps_all(points, stays);
    }
}

proof fn lemma_filter_keeps_all(points: Seq<Point>, stays: spec_fn(Point) -> bool)
    requires
        forall|i: int| 0 <= i < points.len() ==> stays(#[trigger] points[i]),
    ensures
        points.filter(stays) == points,
    decreases points.len(),
{
    reveal(Seq::filter);
    if points.len() > 0 {
        let front = points.drop_last();
        assert forall|i: int| 0 <= i < front.len() implies stays(#[trigger] front[i]) by {
            assert(front[i] == points[i]);
        }
        lemma_filter_keeps_all(front, stays);
        assert(front.push(points.last()) =~= points);
    }
}

} // verus!

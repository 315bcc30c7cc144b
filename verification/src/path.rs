//! The paths of a feed as they are stored: the line of each shape after
//! cleaning, with the routes it serves and its resolved styling; and the
//! points from which the geometry of the whole feed is derived.

use crate::clip::{clean_path, cleaned, ClipRule, DegeneratePath};
use crate::codes::{route_type_code, route_type_to_int, RouteType};
use crate::feed::{
    find_route, route_index, Colour, ParsedFeed, ParsedFeedView, Route, RouteView, Shape,
    ShapeView, StopView, TripView,
};
use crate::geometry::Point;
use crate::styling::{
    colour_hex, hex_of, resolve_style, resolved_colour, resolved_label, resolved_text_colour,
    StyleOverride,
};
use crate::text::{distinct, same_text, unique_texts, Substitution};
use vstd::prelude::*;

verus! {

/// The tables by which paths are cleaned and styled.
#[derive(Clone, Debug)]
pub struct StyleTables {
    pub overrides: Vec<StyleOverride>,
    pub substitutions: Vec<Substitution>,
    pub clip_rules: Vec<ClipRule>,
}

/// The path of one shape, ready to be stored.
#[derive(Clone, Debug)]
pub struct GeoPath {
    pub shape_id: String,
    pub points: Vec<Point>,
    pub colour: Colour,
    pub text_colour: Colour,
    pub label: String,
    pub route_ids: Vec<String>,
    pub route_type: i16,
}

/// The route ids of those of the first `n` trips that run along the shape,
/// trip by trip.
pub open spec fn trips_on_shape_upto(trips: Seq<TripView>, shape_id: Seq<char>, n: int) -> Seq<
    Seq<char>,
>
    decreases n,
{
    if n <= 0 {
        Seq::empty()
    } else if trips[n - 1].shape_id == Some(shape_id) {
        trips_on_shape_upto(trips, shape_id, n - 1).push(trips[n - 1].route_id)
    } else {
        trips_on_shape_upto(trips, shape_id, n - 1)
    }
}

/// The ids of the routes that a shape serves, each once, in the order of the
/// trips.
pub open spec fn shape_route_ids(feed: ParsedFeedView, shape_id: Seq<char>) -> Seq<Seq<char>> {
    distinct(trips_on_shape_upto(feed.trips, shape_id, feed.trips.len() as int))
}

/// A route of which only the id is known.
pub open spec fn bare_route(id: Seq<char>) -> RouteView {
    RouteView {
        id,
        short_name: Seq::empty(),
        long_name: Seq::empty(),
        route_type: RouteType::Bus,
        colour: None,
        text_colour: None,
    }
}

/// The route of the feed with the given id; a bare route where the feed
/// holds none.
pub open spec fn named_route(routes: Seq<RouteView>, id: Seq<char>) -> RouteView {
    match route_index(routes, id) {
        Some(r) => routes[r],
        None => bare_route(id),
    }
}

/// The routes with the given ids.
pub open spec fn named_routes(routes: Seq<RouteView>, ids: Seq<Seq<char>>) -> Seq<RouteView> {
    Seq::new(ids.len(), |k: int| named_route(routes, ids[k]))
}

/// The stored type of a path: that of its first route, and of a bus where it
/// serves none.
pub open spec fn path_type(routes: Seq<RouteView>) -> int {
    if routes.len() > 0 {
        route_type_code(routes[0].route_type)
    } else {
        route_type_code(RouteType::Bus)
    }
}

/// Collects the ids of the routes that a shape serves.
pub fn route_ids_of_shape(feed: &ParsedFeed, shape_id: &str) -> (ids: Vec<String>)
    ensures
        ids.deep_view() == shape_route_ids(feed.deep_view(), shape_id@),
{
    let mut all: Vec<String> = Vec::new();
    let mut t: usize = 0;
    assert(all.deep_view() =~= Seq::empty());
    while t < feed.trips.len()
        invariant
            t <= feed.trips.len(),
            all.deep_view() == trips_on_shape_upto(feed.deep_view().trips, shape_id@, t as int),
        decreases feed.trips.len() - t,
    {
        let trip = &feed.trips[t];
        let ghost before = all.deep_view();
        assert(feed.deep_view().trips[t as int] == trip.deep_view());
        let on_shape = match &trip.shape_id {
            Some(id) => same_text(id.as_str(), shape_id),
            None => false,
        };
        if on_shape {
            all.push(trip.route_id.clone());
            assert(all.deep_view() =~= before.push(trip.route_id@));
        }
        t += 1;
    }
    unique_texts(all)
}

fn copy_route(route: &Route) -> (copy: Route)
    ensures
        copy.deep_view() == route.deep_view(),
{
    Route {
        id: route.id.clone(),
        short_name: route.short_name.clone(),
        long_name: route.long_name.clone(),
        route_type: route.route_type,
        colour: route.colour,
        text_colour: route.text_colour,
    }
}

/// Looks up the routes with the given ids.
pub fn routes_named(routes: &Vec<Route>, ids: &Vec<String>) -> (found: Vec<Route>)
    ensures
        found.deep_view() == named_routes(routes.deep_view(), ids.deep_view()),
{
    let mut found: Vec<Route> = Vec::new();
    let mut k: usize = 0;
    while k < ids.len()
        invariant
            k <= ids.len(),
            found.len() == k,
            forall|j: int|
                0 <= j < k ==> (#[trigger] found@[j]).deep_view() == named_route(
                    routes.deep_view(),
                    ids@[j]@,
                ),
        decreases ids.len() - k,
    {
        let route = match find_route(routes, ids[k].as_str()) {
            Some(r) => {
                assert(routes.deep_view()[r as int] == routes@[r as int].deep_view());
                copy_route(&routes[r])
            },
            None => Route {
                id: ids[k].clone(),
                short_name: String::new(),
                long_name: String::new(),
                route_type: RouteType::Bus,
                colour: None,
                text_colour: None,
            },
        };
        found.push(route);
        k += 1;
    }
    assert(found.deep_view() =~= named_routes(routes.deep_view(), ids.deep_view()));
    found
}

/// The path of a shape: the routes it serves, its styling resolved from
/// them, and its line cleaned by the rules that name it. A shape of which
/// fewer than two points are left has no path.
pub fn styled_path(feed_id: &str, feed: &ParsedFeed, shape: &Shape, tables: &StyleTables) -> (out:
    Result<GeoPath, DegeneratePath>)
    ensures
        ({
            let ids = shape_route_ids(feed.deep_view(), shape.id@);
            let routes = named_routes(feed.deep_view().routes, ids);
            let colour = resolved_colour(feed_id@, routes, tables.overrides.deep_view());
            let line = cleaned(
                shape.points@,
                tables.clip_rules.deep_view(),
                feed_id@,
                colour_hex(colour),
                ids,
            );
            match out {
                Ok(path) => {
                    &&& line.len() >= 2
                    &&& path.points@ == line
                    &&& path.shape_id@ == shape.id@
                    &&& path.route_ids.deep_view() == ids
                    &&& path.colour == colour
                    &&& path.text_colour == resolved_text_colour(
                        feed_id@,
                        routes,
                        tables.overrides.deep_view(),
                    )
                    &&& path.label@ == resolved_label(
                        feed_id@,
                        routes,
                        tables.overrides.deep_view(),
                        tables.substitutions.deep_view(),
                    )
                    &&& path.route_type as int == path_type(routes)
                },
                Err(e) => line.len() < 2 && e.kept == line.len(),
            }
        }),
{
    let route_ids = route_ids_of_shape(feed, shape.id.as_str());
    let routes = routes_named(&feed.routes, &route_ids);
    let style = resolve_style(feed_id, &routes, &tables.overrides, &tables.substitutions);
    let hex = hex_of(style.colour);
    let route_type = if routes.len() > 0 {
        assert(routes.deep_view()[0] == routes@[0].deep_view());
        route_type_to_int(&routes[0].route_type)
    } else {
        route_type_to_int(&RouteType::Bus)
    };
    match clean_path(&shape.points, &tables.clip_rules, feed_id, hex.as_str(), &route_ids) {
        Ok(points) => Ok(
            GeoPath {
                shape_id: shape.id.clone(),
                points,
                colour: style.colour,
                text_colour: style.text_colour,
                label: style.label,
                route_ids,
                route_type,
            },
        ),
        Err(e) => Err(e),
    }
}

/// The positions of the first `n` stops, of those that have one.
pub open spec fn stop_positions_upto(stops: Seq<StopView>, n: int) -> Seq<Point>
    decreases n,
{
    if n <= 0 {
        Seq::empty()
    } else if stops[n - 1].position is Some {
        stop_positions_upto(stops, n - 1).push(stops[n - 1].position->0)
    } else {
        stop_positions_upto(stops, n - 1)
    }
}

/// The positions of the stops of a feed.
pub open spec fn stop_positions(feed: ParsedFeedView) -> Seq<Point> {
    stop_positions_upto(feed.stops, feed.stops.len() as int)
}

/// The points of the first `n` shapes, shape after shape.
pub open spec fn shape_points_upto(shapes: Seq<ShapeView>, n: int) -> Seq<Point>
    decreases n,
{
    if n <= 0 {
        Seq::empty()
    } else {
        shape_points_upto(shapes, n - 1) + shapes[n - 1].points
    }
}

/// The points of all shapes of a feed.
pub open spec fn shape_points(feed: ParsedFeedView) -> Seq<Point> {
    shape_points_upto(feed.shapes, feed.shapes.len() as int)
}

/// Collects the positions of the stops.
pub fn stop_points(feed: &ParsedFeed) -> (points: Vec<Point>)
    ensures
        points@ == stop_positions(feed.deep_view()),
{
    let mut points: Vec<Point> = Vec::new();
    let mut k: usize = 0;
    while k < feed.stops.len()
        invariant
            k <= feed.stops.len(),
            points@ == stop_positions_upto(feed.deep_view().stops, k as int),
        decreases feed.stops.len() - k,
    {
        assert(feed.deep_view().stops[k as int] == feed.stops@[k as int].deep_view());
        match feed.stops[k].position {
            Some(p) => {
                points.push(p);
            },
            None => {},
        }
        k += 1;
    }
    points
}

/// Collects the points of all shapes.
pub fn all_shape_points(feed: &ParsedFeed) -> (points: Vec<Point>)
    ensures
        points@ == shape_points(feed.deep_view()),
{
    let mut points: Vec<Point> = Vec::new();
    let mut k: usize = 0;
    while k < feed.shapes.len()
        invariant
            k <= feed.shapes.len(),
            points@ == shape_points_upto(feed.deep_view().shapes, k as int),
        decreases feed.shapes.len() - k,
    {
        let shape = &feed.shapes[k];
        let ghost before = points@;
        assert(feed.deep_view().shapes[k as int] == shape.deep_view());
        let mut i: usize = 0;
        while i < shape.points.len()
            invariant
                i <= shape.points.len(),
                points@ == before + shape.points@.take(i as int),
            decreases shape.points.len() - i,
        {
            points.push(shape.points[i]);
            i += 1;
            assert(before + shape.points@.take(i as int) =~= (before + shape.points@.take(
                i - 1,
            )).push(shape.points@[i - 1]));
        }
        assert(shape.points@.take(shape.points.len() as int) =~= shape.points@);
        k += 1;
    }
    points
}

} // verus!

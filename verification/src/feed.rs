//! One feed as it is held while its job runs: stops, routes, trips with their
//! stop times, and shapes.

use crate::codes::{LocationType, RouteType};
use crate::geometry::Point;
use crate::text::same_text;
use vstd::prelude::*;

verus! {

/// A colour of three channels.
#[derive(Clone, Copy, Debug, PartialEq, Eq, Structural)]
pub struct Colour {
    pub r: u8,
    pub g: u8,
    pub b: u8,
}

/// A route with what it declares for display. An empty name is a name that
/// the feed does not give.
#[derive(Clone, Debug)]
pub struct Route {
    pub id: String,
    pub short_name: String,
    pub long_name: String,
    pub route_type: RouteType,
    pub colour: Option<Colour>,
    pub text_colour: Option<Colour>,
}

/// What a `Route` holds, with each text as its sequence of characters.
pub struct RouteView {
    pub id: Seq<char>,
    pub short_name: Seq<char>,
    pub long_name: Seq<char>,
    pub route_type: RouteType,
    pub colour: Option<Colour>,
    pub text_colour: Option<Colour>,
}

impl DeepView for Route {
    type V = RouteView;

    open spec fn deep_view(&self) -> RouteView {
        RouteView {
            id: self.id@,
            short_name: self.short_name@,
            long_name: self.long_name@,
            route_type: self.route_type,
            colour: self.colour,
            text_colour: self.text_colour,
        }
    }
}

/// A stop; its position is absent where the feed gives no coordinates.
#[derive(Clone, Debug)]
pub struct Stop {
    pub id: String,
    pub name: String,
    pub position: Option<Point>,
    pub location_type: LocationType,
}

/// What a `Stop` holds, with each text as its sequence of characters.
pub struct StopView {
    pub id: Seq<char>,
    pub name: Seq<char>,
    pub position: Option<Point>,
    pub location_type: LocationType,
}

impl DeepView for Stop {
    type V = StopView;

    open spec fn deep_view(&self) -> StopView {
        StopView {
            id: self.id@,
            name: self.name@,
            position: self.position,
            location_type: self.location_type,
        }
    }
}

/// One call of a trip at a stop.
#[derive(Clone, Debug)]
pub struct StopTime {
    pub stop_id: String,
    pub stop_sequence: u32,
    pub arrival_time: Option<u32>,
    pub departure_time: Option<u32>,
    pub stop_headsign: Option<String>,
}

/// What a `StopTime` holds, with each text as its sequence of characters.
pub struct StopTimeView {
    pub stop_id: Seq<char>,
    pub stop_sequence: u32,
    pub arrival_time: Option<u32>,
    pub departure_time: Option<u32>,
    pub stop_headsign: Option<Seq<char>>,
}

impl DeepView for StopTime {
    type V = StopTimeView;

    open spec fn deep_view(&self) -> StopTimeView {
        StopTimeView {
            stop_id: self.stop_id@,
            stop_sequence: self.stop_sequence,
            arrival_time: self.arrival_time,
            departure_time: self.departure_time,
            stop_headsign: self.stop_headsign.deep_view(),
        }
    }
}

/// A trip of a route, along a shape where the feed draws one.
#[derive(Clone, Debug)]
pub struct Trip {
    pub id: String,
    pub route_id: String,
    pub shape_id: Option<String>,
    pub headsign: Option<String>,
    pub stop_times: Vec<StopTime>,
}

/// What a `Trip` holds, with each text as its sequence of characters.
pub struct TripView {
    pub id: Seq<char>,
    pub route_id: Seq<char>,
    pub shape_id: Option<Seq<char>>,
    pub headsign: Option<Seq<char>>,
    pub stop_times: Seq<StopTimeView>,
}

impl DeepView for Trip {
    type V = TripView;

    open spec fn deep_view(&self) -> TripView {
        TripView {
            id: self.id@,
            route_id: self.route_id@,
            shape_id: self.shape_id.deep_view(),
            headsign: self.headsign.deep_view(),
            stop_times: self.stop_times.deep_view(),
        }
    }
}

/// The drawn path of a shape.
#[derive(Clone, Debug)]
pub struct Shape {
    pub id: String,
    pub points: Vec<Point>,
}

/// What a `Shape` holds, with each text as its sequence of characters.
pub struct ShapeView {
    pub id: Seq<char>,
    pub points: Seq<Point>,
}

impl DeepView for Shape {
    type V = ShapeView;

    open spec fn deep_view(&self) -> ShapeView {
        ShapeView { id: self.id@, points: self.points@ }
    }
}

/// The entities of one feed.
#[derive(Clone, Debug)]
pub struct ParsedFeed {
    pub stops: Vec<Stop>,
    pub routes: Vec<Route>,
    pub trips: Vec<Trip>,
    pub shapes: Vec<Shape>,
}

/// What a `ParsedFeed` holds, with each text as its sequence of characters.
pub struct ParsedFeedView {
    pub stops: Seq<StopView>,
    pub routes: Seq<RouteView>,
    pub trips: Seq<TripView>,
    pub shapes: Seq<ShapeView>,
}

impl DeepView for ParsedFeed {
    type V = ParsedFeedView;

    open spec fn deep_view(&self) -> ParsedFeedView {
        ParsedFeedView {
            stops: self.stops.deep_view(),
            routes: self.routes.deep_view(),
            trips: self.trips.deep_view(),
            shapes: self.shapes.deep_view(),
        }
    }
}

/// The position of the first route with the given id at or after `from`, if
/// there is one.
pub open spec fn route_index_from(routes: Seq<RouteView>, id: Seq<char>, from: int) -> Option<int>
    decreases routes.len() - from,
{
    if from < 0 || from >= routes.len() {
        None
    } else if routes[from].id == id {
        Some(from)
    } else {
        route_index_from(routes, id, from + 1)
    }
}

/// The position of the first route with the given id.
pub open spec fn route_index(routes: Seq<RouteView>, id: Seq<char>) -> Option<int> {
    route_index_from(routes, id, 0)
}

/// What `route_index` finds is a route with the id, and none before it has it.
pub proof fn lemma_route_index(routes: Seq<RouteView>, id: Seq<char>, from: int)
    requires
        0 <= from,
    ensures
        match route_index_from(routes, id, from) {
            Some(at) => from <= at < routes.len() && routes[at].id == id && forall|k: int|
                from <= k < at ==> (#[trigger] routes[k]).id != id,
            None => forall|k: int| from <= k < routes.len() ==> (#[trigger] routes[k]).id != id,
        },
    decreases routes.len() - from,
{
    if from < routes.len() && routes[from].id != id {
        lemma_route_index(routes, id, from + 1);
    }
}

/// Looks a route up by its id; of several with one id the first counts.
pub fn find_route(routes: &Vec<Route>, id: &str) -> (found: Option<usize>)
    ensures
        match found {
            Some(at) => route_index(routes.deep_view(), id@) == Some(at as int) && at
                < routes.len(),
            None => route_index(routes.deep_view(), id@) is None,
        },
{
    let mut i: usize = 0;
    while i < routes.len()
        invariant
            i <= routes.len(),
            route_index(routes.deep_view(), id@) == route_index_from(
                routes.deep_view(),
                id@,
                i as int,
            ),
        decreases routes.len() - i,
    {
        assert(routes.deep_view()[i as int] == routes@[i as int].deep_view());
        if same_text(routes[i].id.as_str(), id) {
            return Some(i);
        }
        i += 1;
    }
    None
}

} // verus!

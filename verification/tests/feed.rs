use gtfs_ingest::bounds::BoundingBox;
use gtfs_ingest::clip::DegeneratePath;
use gtfs_ingest::codes::{continuous_to_int, ContinuousPickupDropOff, LocationType, RouteType};
use gtfs_ingest::defaults::{standard_clip_rules, standard_overrides, YARD_LON};
use gtfs_ingest::feed::{find_route, Colour, ParsedFeed, Route, Shape, Stop, StopTime, Trip};
use gtfs_ingest::geometry::Point;
use gtfs_ingest::path::{
    all_shape_points, route_ids_of_shape, routes_named, stop_points, styled_path, StyleTables,
};
use gtfs_ingest::registry::{
    merge_documents, AssociatedFeed, FeedEntry, FeedSpec, OperatorEntry, RegistryDocument,
};
use gtfs_ingest::rows::{stores_stop_time, summarise, trip_row};
use gtfs_ingest::stops::{find_stop, make_hashmap_stops_to_route_types_and_ids};
use gtfs_ingest::styling::hex_of;
use gtfs_ingest::text::standard_substitutions;

fn p(lon: i32, lat: i32) -> Point {
    Point { lon, lat }
}

fn route(id: &str, short: &str, long: &str, route_type: RouteType, colour: Option<Colour>) -> Route {
    Route {
        id: id.to_string(),
        short_name: short.to_string(),
        long_name: long.to_string(),
        route_type,
        colour,
        text_colour: None,
    }
}

fn call(stop: &str, sequence: u32, headsign: Option<&str>) -> StopTime {
    StopTime {
        stop_id: stop.to_string(),
        stop_sequence: sequence,
        arrival_time: Some(3600 + sequence),
        departure_time: Some(3660 + sequence),
        stop_headsign: headsign.map(|s| s.to_string()),
    }
}

fn trip(id: &str, route_id: &str, shape: Option<&str>, calls: Vec<StopTime>) -> Trip {
    Trip {
        id: id.to_string(),
        route_id: route_id.to_string(),
        shape_id: shape.map(|s| s.to_string()),
        headsign: Some("downtown via main street".to_string()),
        stop_times: calls,
    }
}

fn stop(id: &str, position: Option<Point>) -> Stop {
    Stop { id: id.to_string(), name: id.to_string(), position, location_type: LocationType::StopPoint }
}

fn feed() -> ParsedFeed {
    ParsedFeed {
        stops: vec![
            stop("s1", Some(p(10, 10))),
            stop("s2", None),
            stop("s3", Some(p(0, 0))),
            stop("s4", Some(p(-30, 50))),
        ],
        routes: vec![
            route("bus", "10", "Tenth Street", RouteType::Bus, Some(Colour { r: 1, g: 2, b: 3 })),
            route("rail", "", "Harbor Line Clockwise", RouteType::Rail, None),
            route("coach", "C", "", RouteType::Coach, None),
        ],
        trips: vec![
            trip("t1", "bus", Some("sh1"), vec![call("s1", 1, None), call("s2", 2, Some("Mall"))]),
            trip("t2", "rail", Some("sh1"), vec![call("s2", 1, None), call("s4", 2, None)]),
            trip("t3", "gone", Some("sh1"), vec![call("s1", 1, None), call("s9", 2, None)]),
            trip("t4", "bus", Some("sh2"), vec![call("s1", 1, None)]),
            trip("t5", "coach", None, vec![call("s4", 1, None), call("s1", 2, None)]),
        ],
        shapes: vec![
            Shape { id: "sh1".to_string(), points: vec![p(0, 0), p(40, 0), p(40, 30)] },
            Shape { id: "sh2".to_string(), points: vec![p(0, 30), p(20, 10), p(40, 0)] },
            Shape { id: "sh3".to_string(), points: vec![p(5, 5)] },
        ],
    }
}

fn tables() -> StyleTables {
    StyleTables {
        overrides: standard_overrides(),
        substitutions: standard_substitutions(),
        clip_rules: standard_clip_rules(),
    }
}

#[test]
fn continuous_policies_have_their_codes() {
    assert_eq!(continuous_to_int(&ContinuousPickupDropOff::Continuous), 0);
    assert_eq!(continuous_to_int(&ContinuousPickupDropOff::NotAvailable), 1);
    assert_eq!(continuous_to_int(&ContinuousPickupDropOff::ArrangeByPhone), 2);
    assert_eq!(continuous_to_int(&ContinuousPickupDropOff::CoordinateWithDriver), 3);
    assert_eq!(continuous_to_int(&ContinuousPickupDropOff::Unknown(9)), 9);
}

#[test]
fn a_route_is_found_by_its_id() {
    let feed = feed();
    assert_eq!(find_route(&feed.routes, "bus"), Some(0));
    assert_eq!(find_route(&feed.routes, "coach"), Some(2));
    assert_eq!(find_route(&feed.routes, "gone"), None);
    assert_eq!(find_route(&Vec::new(), "bus"), None);
}

#[test]
fn each_stop_has_the_routes_of_its_calls() {
    let (types, ids) = make_hashmap_stops_to_route_types_and_ids(&feed());
    let expected_types: Vec<(String, Vec<i16>)> = vec![
        ("s1".to_string(), vec![3, 3, 200]),
        ("s2".to_string(), vec![3, 2]),
        ("s4".to_string(), vec![2, 200]),
    ];
    let expected_ids: Vec<(String, Vec<String>)> = vec![
        ("s1".to_string(), vec!["bus".to_string(), "bus".to_string(), "coach".to_string()]),
        ("s2".to_string(), vec!["bus".to_string(), "rail".to_string()]),
        ("s4".to_string(), vec!["rail".to_string(), "coach".to_string()]),
    ];
    assert_eq!(types, expected_types);
    assert_eq!(ids, expected_ids);
    assert_eq!(find_stop(&types, "s2"), Some(1));
    assert_eq!(find_stop(&types, "s9"), None);
    assert_eq!(find_stop(&types, "s3"), None);
}

#[test]
fn a_feed_without_trips_has_no_calls() {
    let empty = ParsedFeed { stops: Vec::new(), routes: Vec::new(), trips: Vec::new(), shapes: Vec::new() };
    let (types, ids) = make_hashmap_stops_to_route_types_and_ids(&empty);
    assert!(types.is_empty() && ids.is_empty());
}

#[test]
fn a_shape_serves_the_routes_of_its_trips_each_once() {
    let mut feed = feed();
    feed.trips.push(trip("t6", "bus", Some("sh1"), Vec::new()));
    assert_eq!(route_ids_of_shape(&feed, "sh1"), vec!["bus", "rail", "gone"]);
    assert_eq!(route_ids_of_shape(&feed, "sh2"), vec!["bus"]);
    assert_eq!(route_ids_of_shape(&feed, "sh3"), Vec::<String>::new());
}

#[test]
fn an_unknown_route_is_known_by_its_id_alone() {
    let feed = feed();
    let ids = vec!["rail".to_string(), "gone".to_string()];
    let routes = routes_named(&feed.routes, &ids);
    assert_eq!(routes.len(), 2);
    assert_eq!(routes[0].long_name, "Harbor Line Clockwise");
    assert_eq!(routes[0].route_type, RouteType::Rail);
    assert_eq!(routes[1].id, "gone");
    assert_eq!(routes[1].short_name, "");
    assert_eq!(routes[1].long_name, "");
    assert_eq!(routes[1].route_type, RouteType::Bus);
    assert_eq!(routes[1].colour, None);
}

#[test]
fn a_path_carries_its_line_its_routes_and_its_style() {
    let feed = feed();
    let path = styled_path("f-some-feed", &feed, &feed.shapes[0], &tables()).unwrap();
    assert_eq!(path.shape_id, "sh1");
    assert_eq!(path.points, vec![p(0, 0), p(40, 0), p(40, 30)]);
    assert_eq!(path.route_ids, vec!["bus", "rail", "gone"]);
    assert_eq!(hex_of(path.colour), "010203");
    assert_eq!(hex_of(path.text_colour), "000000");
    assert_eq!(path.label, "10,Harbor Line CW,gone");
    assert_eq!(path.route_type, 3);
}

#[test]
fn a_path_of_a_known_feed_takes_the_colour_of_the_table() {
    let feed = feed();
    let path = styled_path("f-9q5-metro~losangeles", &feed, &feed.shapes[1], &tables()).unwrap();
    assert_eq!(hex_of(path.colour), "e16710");
    assert_eq!(path.label, "10");
    assert_eq!(path.route_ids, vec!["bus"]);
}

#[test]
fn a_shape_without_trips_is_neutral() {
    let mut feed = feed();
    feed.shapes[2].points.push(p(6, 6));
    let path = styled_path("f-some-feed", &feed, &feed.shapes[2], &tables()).unwrap();
    assert_eq!(hex_of(path.colour), "3a3a3a");
    assert_eq!(path.label, "");
    assert_eq!(path.route_type, 3);
    assert!(path.route_ids.is_empty());
}

#[test]
fn a_shape_of_one_point_has_no_path() {
    let feed = feed();
    assert_eq!(
        styled_path("f-some-feed", &feed, &feed.shapes[2], &tables()).err(),
        Some(DegeneratePath { kept: 1 })
    );
}

#[test]
fn a_path_is_cut_by_the_rules_that_name_its_colour() {
    let red = Some(Colour { r: 0xeb, g: 0x13, b: 0x1b });
    let feed = ParsedFeed {
        stops: Vec::new(),
        routes: vec![route("802", "B", "", RouteType::Subway, red)],
        trips: vec![trip("t", "802", Some("line"), Vec::new())],
        shapes: vec![Shape {
            id: "line".to_string(),
            points: vec![p(YARD_LON - 10, 1), p(YARD_LON + 10, 2), p(YARD_LON - 20, 3)],
        }],
    };
    let path = styled_path("f-9q5-metro~losangeles~rail", &feed, &feed.shapes[0], &tables()).unwrap();
    assert_eq!(path.points, vec![p(YARD_LON - 10, 1), p(YARD_LON - 20, 3)]);
    assert_eq!(path.route_type, 1);
    let elsewhere = styled_path("f-other", &feed, &feed.shapes[0], &tables()).unwrap();
    assert_eq!(elsewhere.points.len(), 3);
}

#[test]
fn the_points_of_a_feed_are_collected_in_order() {
    let feed = feed();
    assert_eq!(stop_points(&feed), vec![p(10, 10), p(0, 0), p(-30, 50)]);
    assert_eq!(
        all_shape_points(&feed),
        vec![p(0, 0), p(40, 0), p(40, 30), p(0, 30), p(20, 10), p(40, 0), p(5, 5)]
    );
}

#[test]
fn the_summary_has_bounds_hull_and_operators() {
    let doc = RegistryDocument {
        feeds: vec![FeedEntry {
            id: "f-some-feed".to_string(),
            spec: FeedSpec::Schedule,
            name: None,
            url: None,
            operators: vec![OperatorEntry {
                id: "o-one".to_string(),
                name: "One".to_string(),
                associated_feeds: vec![AssociatedFeed { feed_id: None, agency_id: Some("77".to_string()) }],
            }],
        }],
        operators: Vec::new(),
    };
    let reg = merge_documents(&vec![doc]);
    let summary = summarise("f-some-feed", &feed(), &reg);
    assert_eq!(summary.feed_id, "f-some-feed");
    assert_eq!(
        summary.bounds,
        Some(BoundingBox { min_lon: -30, max_lon: 10, min_lat: 10, max_lat: 50 })
    );
    assert_eq!(summary.hull, vec![p(0, 0), p(40, 0), p(40, 30), p(0, 30)]);
    assert_eq!(summary.operators.len(), 1);
    assert_eq!(summary.operators[0].operator_id, "o-one");
    assert_eq!(summary.operators[0].agency_id, Some("77".to_string()));
}

#[test]
fn a_feed_without_geometry_has_an_empty_summary() {
    let empty = ParsedFeed { stops: vec![stop("s", None)], routes: Vec::new(), trips: Vec::new(), shapes: Vec::new() };
    let summary = summarise("f", &empty, &merge_documents(&Vec::new()));
    assert_eq!(summary.bounds, None);
    assert!(summary.hull.is_empty());
    assert!(summary.operators.is_empty());
}

#[test]
fn the_row_of_a_trip_has_its_headsigns() {
    let t = trip(
        "t",
        "bus",
        None,
        vec![
            call("a", 1, None),
            call("b", 2, Some("Mall")),
            call("c", 3, Some("Mall")),
            call("d", 4, None),
            call("e", 5, Some("Depot")),
        ],
    );
    let row = trip_row(&t);
    assert_eq!(row.headsign, Some("Downtown via Main Street".to_string()));
    assert!(row.has_stop_headsign);
    assert_eq!(row.stop_headsigns, vec![None, Some("Mall".to_string()), Some("Depot".to_string())]);
    let plain = trip_row(&trip("t", "bus", None, vec![call("a", 1, None), call("b", 2, None)]));
    assert!(!plain.has_stop_headsign);
    assert_eq!(plain.stop_headsigns, vec![None]);
    let mut bare = trip("t", "bus", None, Vec::new());
    bare.headsign = None;
    let row = trip_row(&bare);
    assert_eq!(row.headsign, None);
    assert!(!row.has_stop_headsign);
    assert!(row.stop_headsigns.is_empty());
}

#[test]
fn a_stop_time_needs_a_position_and_both_times() {
    let full = call("a", 1, None);
    assert!(stores_stop_time(Some(p(1, 1)), &full));
    assert!(!stores_stop_time(None, &full));
    let mut no_arrival = call("a", 1, None);
    no_arrival.arrival_time = None;
    assert!(!stores_stop_time(Some(p(1, 1)), &no_arrival));
    let mut no_departure = call("a", 1, None);
    no_departure.departure_time = None;
    assert!(!stores_stop_time(Some(p(1, 1)), &no_departure));
}

use gtfs_ingest::bounds::{bounding_box, widen, BoundingBox};
use gtfs_ingest::clip::{
    clean_path, rule_applies, rule_keeps, Axis, ClipRule, DegeneratePath, Side,
};
use gtfs_ingest::defaults::{standard_clip_rules, YARD_LAT, YARD_LON};
use gtfs_ingest::geometry::{point_precedes, turn, Point};
use gtfs_ingest::hull::{convex_hull, dedup_sorted, hull_of_points};

fn p(lon: i32, lat: i32) -> Point {
    Point { lon, lat }
}

fn on_or_inside(ring: &[Point], q: Point) -> bool {
    (0..ring.len()).all(|k| turn(ring[k], ring[(k + 1) % ring.len()], q) >= 0)
}

#[test]
fn turn_is_twice_the_signed_area() {
    assert_eq!(turn(p(0, 0), p(4, 0), p(0, 3)), 12);
    assert_eq!(turn(p(0, 0), p(0, 3), p(4, 0)), -12);
    assert_eq!(turn(p(1, 1), p(2, 2), p(3, 3)), 0);
    assert_eq!(
        turn(p(i32::MIN, i32::MIN), p(i32::MAX, i32::MIN), p(i32::MIN, i32::MAX)),
        4294967295i128 * 4294967295i128
    );
}

#[test]
fn order_is_by_longitude_then_latitude() {
    assert!(point_precedes(p(1, 9), p(2, 0)));
    assert!(point_precedes(p(1, 1), p(1, 2)));
    assert!(!point_precedes(p(1, 2), p(1, 2)));
    assert!(!point_precedes(p(2, 0), p(1, 9)));
}

#[test]
fn bounding_box_of_nothing_is_absent() {
    assert_eq!(bounding_box(&Vec::new()), None);
}

#[test]
fn bounding_box_of_sentinels_is_absent() {
    assert_eq!(bounding_box(&vec![p(0, 0), p(0, 0), p(0, 0)]), None);
}

#[test]
fn bounding_box_ignores_sentinels() {
    let points = vec![p(0, 0), p(-1180000000, 340000000), p(0, 0), p(-1170000000, 330000000)];
    assert_eq!(
        bounding_box(&points),
        Some(BoundingBox {
            min_lon: -1180000000,
            max_lon: -1170000000,
            min_lat: 330000000,
            max_lat: 340000000,
        })
    );
}

#[test]
fn bounding_box_is_never_stretched_to_zero() {
    let points = vec![p(5, 7), p(0, 0)];
    assert_eq!(
        bounding_box(&points),
        Some(BoundingBox { min_lon: 5, max_lon: 5, min_lat: 7, max_lat: 7 })
    );
}

#[test]
fn a_point_on_one_axis_is_a_real_position() {
    let points = vec![p(0, 10), p(-10, 0)];
    assert_eq!(
        bounding_box(&points),
        Some(BoundingBox { min_lon: -10, max_lon: 0, min_lat: 0, max_lat: 10 })
    );
}

#[test]
fn widening_is_a_fold_step() {
    let first = widen(None, p(3, 4));
    assert_eq!(first, Some(BoundingBox { min_lon: 3, max_lon: 3, min_lat: 4, max_lat: 4 }));
    let second = widen(first, p(-1, 9));
    assert_eq!(second, Some(BoundingBox { min_lon: -1, max_lon: 3, min_lat: 4, max_lat: 9 }));
    assert_eq!(widen(second, p(0, 0)), second);
    assert_eq!(widen(None, p(0, 0)), None);
}

#[test]
fn hull_of_fewer_than_three_points_is_empty() {
    assert!(convex_hull(&Vec::new()).is_empty());
    assert!(convex_hull(&vec![p(1, 1)]).is_empty());
    assert!(convex_hull(&vec![p(1, 1), p(2, 2)]).is_empty());
    assert!(hull_of_points(vec![p(1, 1), p(2, 2), p(1, 1), p(2, 2)]).is_empty());
}

#[test]
fn hull_of_a_square_with_inner_points() {
    let points = vec![p(0, 0), p(0, 4), p(1, 1), p(2, 2), p(3, 1), p(4, 0), p(4, 4)];
    let ring = convex_hull(&points);
    assert_eq!(ring, vec![p(0, 0), p(4, 0), p(4, 4), p(0, 4)]);
    for q in &points {
        assert!(on_or_inside(&ring, *q));
    }
}

#[test]
fn hull_drops_points_on_its_edges() {
    let points = vec![p(0, 0), p(0, 2), p(0, 4), p(2, 0), p(2, 4), p(4, 0), p(4, 2), p(4, 4)];
    assert_eq!(convex_hull(&points), vec![p(0, 0), p(4, 0), p(4, 4), p(0, 4)]);
}

#[test]
fn hull_of_unsorted_points_with_repeats() {
    let points = vec![p(4, 4), p(0, 0), p(2, 1), p(4, 0), p(0, 4), p(0, 0), p(4, 4), p(2, 3)];
    let ring = hull_of_points(points.clone());
    assert_eq!(ring, vec![p(0, 0), p(4, 0), p(4, 4), p(0, 4)]);
    for v in &ring {
        assert!(points.contains(v));
    }
    for q in &points {
        assert!(on_or_inside(&ring, *q));
    }
}

#[test]
fn hull_of_a_triangle_winds_counter_clockwise() {
    let ring = hull_of_points(vec![p(0, 0), p(10, 0), p(5, 8)]);
    assert_eq!(ring, vec![p(0, 0), p(10, 0), p(5, 8)]);
    assert!(turn(ring[0], ring[1], ring[2]) > 0);
}

#[test]
fn hull_of_points_on_a_line_is_the_ring_of_the_two_ends() {
    let ring = hull_of_points(vec![p(2, 2), p(0, 0), p(3, 3), p(1, 1)]);
    assert_eq!(ring, vec![p(0, 0), p(3, 3)]);
}

#[test]
fn hull_at_the_edge_of_the_grid() {
    let points =
        vec![p(i32::MIN, i32::MIN), p(i32::MIN, i32::MAX), p(0, 0), p(i32::MAX, i32::MIN), p(i32::MAX, i32::MAX)];
    let ring = convex_hull(&points);
    assert_eq!(
        ring,
        vec![p(i32::MIN, i32::MIN), p(i32::MAX, i32::MIN), p(i32::MAX, i32::MAX), p(i32::MIN, i32::MAX)]
    );
}

#[test]
fn sorted_points_lose_their_repeats() {
    let sorted = vec![p(0, 0), p(0, 0), p(0, 1), p(1, 0), p(1, 0), p(1, 0)];
    assert_eq!(dedup_sorted(&sorted), vec![p(0, 0), p(0, 1), p(1, 0)]);
    assert_eq!(dedup_sorted(&Vec::new()), Vec::<Point>::new());
}

fn rail_rule() -> ClipRule {
    ClipRule {
        feed_id: Some("rail".to_string()),
        colour: Some("eb131b".to_string()),
        sole_route: None,
        axis: Axis::Lon,
        side: Side::Below,
        bound: 100,
    }
}

#[test]
fn a_rule_names_paths_by_its_keys() {
    let rule = rail_rule();
    let no_routes: Vec<String> = Vec::new();
    assert!(rule_applies(&rule, "rail", "eb131b", &no_routes));
    assert!(!rule_applies(&rule, "bus", "eb131b", &no_routes));
    assert!(!rule_applies(&rule, "rail", "ffffff", &no_routes));
    let by_route = ClipRule {
        feed_id: None,
        colour: None,
        sole_route: Some("807".to_string()),
        axis: Axis::Lat,
        side: Side::Above,
        bound: 0,
    };
    assert!(rule_applies(&by_route, "any", "any", &vec!["807".to_string()]));
    assert!(!rule_applies(&by_route, "any", "any", &vec!["807".to_string(), "808".to_string()]));
    assert!(!rule_applies(&by_route, "any", "any", &vec!["808".to_string()]));
    assert!(!rule_applies(&by_route, "any", "any", &no_routes));
}

#[test]
fn a_rule_keeps_one_side_of_its_bound() {
    let rule = rail_rule();
    assert!(rule_keeps(&rule, p(99, 5)));
    assert!(!rule_keeps(&rule, p(100, 5)));
    assert!(!rule_keeps(&rule, p(101, 5)));
    let above = ClipRule { axis: Axis::Lat, side: Side::Above, bound: 7, ..rail_rule() };
    assert!(above_keeps(&above, 8));
    assert!(!above_keeps(&above, 7));
}

fn above_keeps(rule: &ClipRule, lat: i32) -> bool {
    rule_keeps(rule, p(0, lat))
}

#[test]
fn a_path_of_two_points_is_kept() {
    let rules = vec![rail_rule()];
    let points = vec![p(50, 0), p(150, 0), p(60, 1), p(200, 2)];
    let out = clean_path(&points, &rules, "rail", "eb131b", &Vec::new());
    assert_eq!(out, Ok(vec![p(50, 0), p(60, 1)]));
}

#[test]
fn a_path_of_one_point_is_dropped() {
    let rules = vec![rail_rule()];
    let points = vec![p(50, 0), p(150, 0), p(200, 2)];
    let out = clean_path(&points, &rules, "rail", "eb131b", &Vec::new());
    assert_eq!(out, Err(DegeneratePath { kept: 1 }));
}

#[test]
fn a_path_of_no_points_is_dropped() {
    let rules = vec![rail_rule()];
    let points = vec![p(150, 0), p(200, 2)];
    assert_eq!(
        clean_path(&points, &rules, "rail", "eb131b", &Vec::new()),
        Err(DegeneratePath { kept: 0 })
    );
    assert_eq!(
        clean_path(&Vec::new(), &Vec::new(), "rail", "eb131b", &Vec::new()),
        Err(DegeneratePath { kept: 0 })
    );
}

#[test]
fn a_path_that_no_rule_names_is_left_whole() {
    let rules = vec![rail_rule()];
    let points = vec![p(50, 0), p(150, 0), p(200, 2)];
    assert_eq!(clean_path(&points, &rules, "bus", "eb131b", &Vec::new()), Ok(points.clone()));
    assert_eq!(clean_path(&points, &Vec::new(), "rail", "eb131b", &Vec::new()), Ok(points));
}

#[test]
fn every_rule_that_names_the_path_has_to_be_passed() {
    let rules = vec![rail_rule(), ClipRule { axis: Axis::Lat, side: Side::Above, bound: 0, ..rail_rule() }];
    let points = vec![p(50, 0), p(50, 1), p(150, 1), p(60, 2)];
    assert_eq!(
        clean_path(&points, &rules, "rail", "eb131b", &Vec::new()),
        Ok(vec![p(50, 1), p(60, 2)])
    );
}

#[test]
fn standard_cuts_take_the_yard_off() {
    let rules = standard_clip_rules();
    assert_eq!(rules.len(), 4);
    let west = p(YARD_LON - 1, 340000000);
    let west_too = p(YARD_LON - 500, 340500000);
    let yard = p(YARD_LON, 340000000);
    let line = vec![west, yard, west_too];
    assert_eq!(
        clean_path(&line, &rules, "f-9q5-metro~losangeles~rail", "eb131b", &Vec::new()),
        Ok(vec![west, west_too])
    );
    assert_eq!(
        clean_path(&line, &rules, "f-9q5-metro~losangeles~rail", "0072bc", &Vec::new()),
        Ok(line.clone())
    );
    let north = p(-1183000000, YARD_LAT + 1);
    let north_too = p(-1183000001, YARD_LAT + 9);
    let south = p(-1183000000, YARD_LAT);
    assert_eq!(
        clean_path(&vec![south, north, north_too], &rules, "elsewhere", "123456", &vec!["807".to_string()]),
        Ok(vec![north, north_too])
    );
}

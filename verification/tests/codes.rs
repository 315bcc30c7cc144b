use gtfs_ingest::codes::{
    location_type_conversion, route_type_to_int, toi64, LocationType, RouteType,
};

#[test]
fn widens_optional_seconds() {
    assert_eq!(toi64(&Some(0)), Some(0i64));
    assert_eq!(toi64(&Some(86_400)), Some(86_400i64));
    assert_eq!(toi64(&Some(u32::MAX)), Some(4_294_967_295i64));
    assert_eq!(toi64(&None), None);
}

#[test]
fn location_types_have_their_codes() {
    assert_eq!(location_type_conversion(&LocationType::StopPoint), 0);
    assert_eq!(location_type_conversion(&LocationType::StopArea), 1);
    assert_eq!(location_type_conversion(&LocationType::StationEntrance), 2);
    assert_eq!(location_type_conversion(&LocationType::GenericNode), 3);
    assert_eq!(location_type_conversion(&LocationType::BoardingArea), 4);
    assert_eq!(location_type_conversion(&LocationType::Unknown(17)), 17);
    assert_eq!(location_type_conversion(&LocationType::Unknown(-2)), -2);
}

#[test]
fn route_types_have_their_codes() {
    assert_eq!(route_type_to_int(&RouteType::Tramway), 0);
    assert_eq!(route_type_to_int(&RouteType::Subway), 1);
    assert_eq!(route_type_to_int(&RouteType::Rail), 2);
    assert_eq!(route_type_to_int(&RouteType::Bus), 3);
    assert_eq!(route_type_to_int(&RouteType::Ferry), 4);
    assert_eq!(route_type_to_int(&RouteType::CableCar), 5);
    assert_eq!(route_type_to_int(&RouteType::Gondola), 6);
    assert_eq!(route_type_to_int(&RouteType::Funicular), 7);
    assert_eq!(route_type_to_int(&RouteType::Coach), 200);
    assert_eq!(route_type_to_int(&RouteType::Air), 1100);
    assert_eq!(route_type_to_int(&RouteType::Taxi), 1500);
    assert_eq!(route_type_to_int(&RouteType::Other(715)), 715);
}

//! Numeric codes under which schedule enumerations are stored.

use vstd::prelude::*;

verus! {

/// Kind of a stop location.
#[derive(Clone, Copy, Debug, PartialEq, Eq, Structural)]
pub enum LocationType {
    StopPoint,
    StopArea,
    StationEntrance,
    GenericNode,
    BoardingArea,
    Unknown(i16),
}

/// Mode of transport of a route.
#[derive(Clone, Copy, Debug, PartialEq, Eq, Structural)]
pub enum RouteType {
    Tramway,
    Subway,
    Rail,
    Bus,
    Ferry,
    CableCar,
    Gondola,
    Funicular,
    Coach,
    Air,
    Taxi,
    Other(i16),
}

/// Whether riders may board or alight anywhere along a route.
#[derive(Clone, Copy, Debug, PartialEq, Eq, Structural)]
pub enum ContinuousPickupDropOff {
    Continuous,
    NotAvailable,
    ArrangeByPhone,
    CoordinateWithDriver,
    Unknown(i16),
}

/// The stored code of a location type.
pub open spec fn location_type_code(t: LocationType) -> int {
    match t {
        LocationType::StopPoint => 0,
        LocationType::StopArea => 1,
        LocationType::StationEntrance => 2,
        LocationType::GenericNode => 3,
        LocationType::BoardingArea => 4,
        LocationType::Unknown(i) => i as int,
    }
}

/// The stored code of a route type: the basic modes count from zero, the
/// extended ones keep their published numbers.
pub open spec fn route_type_code(t: RouteType) -> int {
    match t {
        RouteType::Tramway => 0,
        RouteType::Subway => 1,
        RouteType::Rail => 2,
        RouteType::Bus => 3,
        RouteType::Ferry => 4,
        RouteType::CableCar => 5,
        RouteType::Gondola => 6,
        RouteType::Funicular => 7,
        RouteType::Coach => 200,
        RouteType::Air => 1100,
        RouteType::Taxi => 1500,
        RouteType::Other(i) => i as int,
    }
}

/// The stored code of a continuous pickup or drop-off policy.
pub open spec fn continuous_code(t: ContinuousPickupDropOff) -> int {
    match t {
        ContinuousPickupDropOff::Continuous => 0,
        ContinuousPickupDropOff::NotAvailable => 1,
        ContinuousPickupDropOff::ArrangeByPhone => 2,
        ContinuousPickupDropOff::CoordinateWithDriver => 3,
        ContinuousPickupDropOff::Unknown(i) => i as int,
    }
}

/// Widens an optional count of seconds to the signed width of the store.
pub fn toi64(input: &Option<u32>) -> (out: Option<i64>)
    ensures
        out == match *input {
            Some(i) => Some(i as i64),
            None => None,
        },
        input is Some ==> out->0 as int == input->0 as int,
{
    match input {
        Some(i) => Some(*i as i64),
        None => None,
    }
}

/// The code under which a location type is stored.
pub fn location_type_conversion(input: &LocationType) -> (code: i16)
    ensures
        code as int == location_type_code(*input),
{
    match input {
        LocationType::StopPoint => 0,
        LocationType::StopArea => 1,
        LocationType::StationEntrance => 2,
        LocationType::GenericNode => 3,
        LocationType::BoardingArea => 4,
        LocationType::Unknown(i) => *i,
    }
}

/// The code under which a route type is stored.
pub fn route_type_to_int(input: &RouteType) -> (code: i16)
    ensures
        code as int == route_type_code(*input),
{
    match input {
        RouteType::Tramway => 0,
        RouteType::Subway => 1,
        RouteType::Rail => 2,
        RouteType::Bus => 3,
        RouteType::Ferry => 4,
        RouteType::CableCar => 5,
        RouteType::Gondola => 6,
        RouteType::Funicular => 7,
        RouteType::Coach => 200,
        RouteType::Air => 1100,
        RouteType::Taxi => 1500,
        RouteType::Other(i) => *i,
    }
}

/// The code under which a continuous pickup or drop-off policy is stored.
pub fn continuous_to_int(input: &ContinuousPickupDropOff) -> (code: i16)
    ensures
        code as int == continuous_code(*input),
{
    match input {
        ContinuousPickupDropOff::Continuous => 0,
        ContinuousPickupDropOff::NotAvailable => 1,
        ContinuousPickupDropOff::ArrangeByPhone => 2,
        ContinuousPickupDropOff::CoordinateWithDriver => 3,
        ContinuousPickupDropOff::Unknown(i) => *i,
    }
}

} // verus!

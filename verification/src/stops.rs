//! Which routes call at each stop.

use crate::codes::{route_type_code, route_type_to_int};
use crate::feed::{find_route, route_index, ParsedFeed, ParsedFeedView, RouteView, TripView};
use crate::text::{distinct, lemma_distinct_members, same_text};
use vstd::prelude::*;

verus! {

/// One call of a trip at a stop, with the route of the trip.
pub struct Call {
    pub stop: Seq<char>,
    pub route_type: i16,
    pub route_id: Seq<char>,
}

/// The first `n` calls of a trip, in the order of its stop times. A trip
/// whose route the feed does not hold makes no calls.
pub open spec fn trip_calls_upto(trip: TripView, routes: Seq<RouteView>, n: int) -> Seq<Call> {
    match route_index(routes, trip.route_id) {
        Some(r) => Seq::new(
            n as nat,
            |i: int|
                Call {
                    stop: trip.stop_times[i].stop_id,
                    route_type: route_type_code(routes[r].route_type) as i16,
                    route_id: routes[r].id,
                },
        ),
        None => Seq::empty(),
    }
}

/// The calls of a trip.
pub open spec fn trip_calls(trip: TripView, routes: Seq<RouteView>) -> Seq<Call> {
    trip_calls_upto(trip, routes, trip.stop_times.len() as int)
}

/// The calls of the first `n` trips of a feed, trip after trip.
pub open spec fn calls_upto(feed: ParsedFeedView, n: int) -> Seq<Call>
    decreases n,
{
    if n <= 0 {
        Seq::empty()
    } else {
        calls_upto(feed, n - 1) + trip_calls(feed.trips[n - 1], feed.routes)
    }
}

/// All calls of a feed.
pub open spec fn calls(feed: ParsedFeedView) -> Seq<Call> {
    calls_upto(feed, feed.trips.len() as int)
}

/// The stops that are called at, each once, in the order of their first call.
pub open spec fn stops_called(cs: Seq<Call>) -> Seq<Seq<char>> {
    distinct(cs.map_values(|c: Call| c.stop))
}

/// The calls at one stop.
pub open spec fn calls_at(cs: Seq<Call>, stop: Seq<char>) -> Seq<Call> {
    cs.filter(|c: Call| c.stop == stop)
}

/// The route types of the calls at one stop, call by call.
pub open spec fn types_at(cs: Seq<Call>, stop: Seq<char>) -> Seq<i16> {
    calls_at(cs, stop).map_values(|c: Call| c.route_type)
}

/// The route ids of the calls at one stop, call by call.
pub open spec fn ids_at(cs: Seq<Call>, stop: Seq<char>) -> Seq<Seq<char>> {
    calls_at(cs, stop).map_values(|c: Call| c.route_id)
}

/// Whether the table holds, for each stop called at and in the order of
/// first calls, the route types of the calls at the stop.
pub open spec fn types_tally(table: Seq<(Seq<char>, Seq<i16>)>, cs: Seq<Call>) -> bool {
    &&& table.len() == stops_called(cs).len()
    &&& forall|k: int|
        0 <= k < table.len() ==> #[trigger] table[k] == (
            stops_called(cs)[k],
            types_at(cs, stops_called(cs)[k]),
        )
}

/// Whether the table holds, for each stop called at and in the order of
/// first calls, the route ids of the calls at the stop.
pub open spec fn ids_tally(table: Seq<(Seq<char>, Seq<Seq<char>>)>, cs: Seq<Call>) -> bool {
    &&& table.len() == stops_called(cs).len()
    &&& forall|k: int|
        0 <= k < table.len() ==> #[trigger] table[k] == (
            stops_called(cs)[k],
            ids_at(cs, stops_called(cs)[k]),
        )
}

/// What one more call does to the tally: its stop joins the stops called at
/// unless it is among them, and its route joins the lists of that stop.
pub proof fn lemma_one_more_call(cs: Seq<Call>, c: Call)
    ensures
        stops_called(cs.push(c)) == if stops_called(cs).contains(c.stop) {
            stops_called(cs)
        } else {
            stops_called(cs).push(c.stop)
        },
        forall|s: Seq<char>|
            #[trigger] types_at(cs.push(c), s) == if s == c.stop {
                types_at(cs, s).push(c.route_type)
            } else {
                types_at(cs, s)
            },
        forall|s: Seq<char>|
            #[trigger] ids_at(cs.push(c), s) == if s == c.stop {
                ids_at(cs, s).push(c.route_id)
            } else {
                ids_at(cs, s)
            },
        forall|s: Seq<char>|
            !stops_called(cs).contains(s) ==> #[trigger] calls_at(cs, s) == Seq::<Call>::empty(),
{
    let more = cs.push(c);
    let names = cs.map_values(|c: Call| c.stop);
    assert(more.map_values(|c: Call| c.stop) =~= names.push(c.stop));
    assert(names.push(c.stop).drop_last() =~= names);
    lemma_distinct_members(names);
    assert(more.drop_last() =~= cs);
    assert forall|s: Seq<char>| #[trigger]
        types_at(more, s) == if s == c.stop {
            types_at(cs, s).push(c.route_type)
        } else {
            types_at(cs, s)
        } by {
        reveal(Seq::filter);
        if s == c.stop {
            assert(calls_at(more, s) == calls_at(cs, s).push(c));
            assert(calls_at(cs, s).push(c).map_values(|c: Call| c.route_type) =~= calls_at(
                cs,
                s,
            ).map_values(|c: Call| c.route_type).push(c.route_type));
        }
    }
    assert forall|s: Seq<char>| #[trigger]
        ids_at(more, s) == if s == c.stop {
            ids_at(cs, s).push(c.route_id)
        } else {
            ids_at(cs, s)
        } by {
        reveal(Seq::filter);
        if s == c.stop {
            assert(calls_at(more, s) == calls_at(cs, s).push(c));
            assert(calls_at(cs, s).push(c).map_values(|c: Call| c.route_id) =~= calls_at(
                cs,
                s,
            ).map_values(|c: Call| c.route_id).push(c.route_id));
        }
    }
    assert forall|s: Seq<char>| !stops_called(cs).contains(s) implies #[trigger] calls_at(cs, s)
        == Seq::<Call>::empty() by {
        lemma_no_calls(cs, s);
    }
}

/// A stop that no call names has no calls.
proof fn lemma_no_calls(cs: Seq<Call>, s: Seq<char>)
    requires
        !cs.map_values(|c: Call| c.stop).contains(s),
    ensures
        calls_at(cs, s) == Seq::<Call>::empty(),
    decreases cs.len(),
{
    reveal(Seq::filter);
    if cs.len() > 0 {
        let names = cs.map_values(|c: Call| c.stop);
        let front = cs.drop_last();
        assert(names[cs.len() - 1] == cs.last().stop);
        assert(cs.last().stop != s);
        let front_names = front.map_values(|c: Call| c.stop);
        if front_names.contains(s) {
            let i = choose|i: int| 0 <= i < front_names.len() && front_names[i] == s;
            assert(names[i] == s);
        }
        lemma_no_calls(front, s);
    }
}

/// Finds the row of a stop in a table of route types.
pub fn find_stop(table: &Vec<(String, Vec<i16>)>, stop: &str) -> (found: Option<usize>)
    ensures
        match found {
            Some(at) => at < table.len() && table.deep_view()[at as int].0 == stop@ && forall|
                j: int,
            | 0 <= j < at ==> (#[trigger] table.deep_view()[j]).0 != stop@,
            None => forall|j: int|
                0 <= j < table.len() ==> (#[trigger] table.deep_view()[j]).0 != stop@,
        },
{
    let mut k: usize = 0;
    while k < table.len()
        invariant
            k <= table.len(),
            forall|j: int| 0 <= j < k ==> (#[trigger] table.deep_view()[j]).0 != stop@,
        decreases table.len() - k,
    {
        assert(table.deep_view()[k as int] == table@[k as int].deep_view());
        if same_text(table[k].0.as_str(), stop) {
            return Some(k);
        }
        k += 1;
    }
    None
}

/// Takes one call into the two tables.
fn tally_call(
    types: &mut Vec<(String, Vec<i16>)>,
    ids: &mut Vec<(String, Vec<String>)>,
    stop: &String,
    route_type: i16,
    route_id: &String,
    Ghost(cs): Ghost<Seq<Call>>,
)
    requires
        types_tally(old(types).deep_view(), cs),
        ids_tally(old(ids).deep_view(), cs),
    ensures
        types_tally(
            final(types).deep_view(),
            cs.push(Call { stop: stop@, route_type, route_id: route_id@ }),
        ),
        ids_tally(
            final(ids).deep_view(),
            cs.push(Call { stop: stop@, route_type, route_id: route_id@ }),
        ),
{
    let ghost c = Call { stop: stop@, route_type, route_id: route_id@ };
    let ghost types0 = types.deep_view();
    let ghost ids0 = ids.deep_view();
    let ghost keys0 = stops_called(cs);
    proof {
        lemma_one_more_call(cs, c);
        lemma_distinct_members(cs.map_values(|c: Call| c.stop));
    }
    match find_stop(types, stop.as_str()) {
        Some(at) => {
            proof {
                assert(types0[at as int].0 == keys0[at as int]);
                assert(keys0.contains(stop@));
                assert(ids0[at as int].0 == keys0[at as int]);
            }
            types[at].1.push(route_type);
            ids[at].1.push(route_id.clone());
            proof {
                assert(types@[at as int].1.deep_view() =~= types0[at as int].1.push(route_type));
                assert(ids@[at as int].1.deep_view() =~= ids0[at as int].1.push(route_id@));
                assert forall|k: int| 0 <= k < keys0.len() implies #[trigger] types.deep_view()[k]
                    == (keys0[k], types_at(cs.push(c), keys0[k])) by {
                    assert(types0[k] == (keys0[k], types_at(cs, keys0[k])));
                    if k != at {
                        assert(keys0[k] != keys0[at as int]);
                        assert(types.deep_view()[k] == types0[k]);
                    }
                }
                assert forall|k: int| 0 <= k < keys0.len() implies #[trigger] ids.deep_view()[k]
                    == (keys0[k], ids_at(cs.push(c), keys0[k])) by {
                    assert(ids0[k] == (keys0[k], ids_at(cs, keys0[k])));
                    if k != at {
                        assert(keys0[k] != keys0[at as int]);
                        assert(ids.deep_view()[k] == ids0[k]);
                    }
                }
            }
        },
        None => {
            proof {
                if keys0.contains(stop@) {
                    let k = choose|k: int| 0 <= k < keys0.len() && keys0[k] == stop@;
                    assert(types0[k].0 == stop@);
                }
            }
            let mut first_types: Vec<i16> = Vec::new();
            first_types.push(route_type);
            types.push((stop.clone(), first_types));
            let mut first_ids: Vec<String> = Vec::new();
            first_ids.push(route_id.clone());
            ids.push((stop.clone(), first_ids));
            proof {
                assert(first_types.deep_view() =~= Seq::<i16>::empty().push(route_type));
                assert(first_ids.deep_view() =~= Seq::<Seq<char>>::empty().push(route_id@));
                assert(calls_at(cs, stop@) == Seq::<Call>::empty());
                assert(types_at(cs, stop@) =~= Seq::<i16>::empty());
                assert(ids_at(cs, stop@) =~= Seq::<Seq<char>>::empty());
                let keys1 = keys0.push(stop@);
                assert forall|k: int| 0 <= k < keys1.len() implies #[trigger] types.deep_view()[k]
                    == (keys1[k], types_at(cs.push(c), keys1[k])) by {
                    if k < keys0.len() {
                        assert(types.deep_view()[k] == types0[k]);
                        assert(types0[k] == (keys0[k], types_at(cs, keys0[k])));
                        assert(keys0.contains(keys0[k]));
                    }
                }
                assert forall|k: int| 0 <= k < keys1.len() implies #[trigger] ids.deep_view()[k]
                    == (keys1[k], ids_at(cs.push(c), keys1[k])) by {
                    if k < keys0.len() {
                        assert(ids.deep_view()[k] == ids0[k]);
                        assert(ids0[k] == (keys0[k], ids_at(cs, keys0[k])));
                        assert(keys0.contains(keys0[k]));
                    }
                }
            }
        },
    }
}

/// For each stop of the feed at which a trip calls: the types of the routes
/// that call there, and their ids, one entry for each call, in the order of
/// the trips and their stop times. A trip whose route the feed does not hold
/// is left out. The stops stand in the order of their first call.
pub fn make_hashmap_stops_to_route_types_and_ids(gtfs: &ParsedFeed) -> (out: (
    Vec<(String, Vec<i16>)>,
    Vec<(String, Vec<String>)>,
))
    ensures
        types_tally(out.0.deep_view(), calls(gtfs.deep_view())),
        ids_tally(out.1.deep_view(), calls(gtfs.deep_view())),
{
    let mut types: Vec<(String, Vec<i16>)> = Vec::new();
    let mut ids: Vec<(String, Vec<String>)> = Vec::new();
    let ghost feed = gtfs.deep_view();
    proof {
        assert(types.deep_view() =~= Seq::empty());
        assert(ids.deep_view() =~= Seq::empty());
        assert(calls_upto(feed, 0).map_values(|c: Call| c.stop) =~= Seq::empty());
    }
    let mut t: usize = 0;
    while t < gtfs.trips.len()
        invariant
            t <= gtfs.trips.len(),
            feed == gtfs.deep_view(),
            types_tally(types.deep_view(), calls_upto(feed, t as int)),
            ids_tally(ids.deep_view(), calls_upto(feed, t as int)),
        decreases gtfs.trips.len() - t,
    {
        let trip = &gtfs.trips[t];
        let ghost so_far = calls_upto(feed, t as int);
        assert(feed.trips[t as int] == trip.deep_view());
        match find_route(&gtfs.routes, trip.route_id.as_str()) {
            Some(r) => {
                let route = &gtfs.routes[r];
                let code = route_type_to_int(&route.route_type);
                assert(feed.routes[r as int] == route.deep_view());
                let mut n: usize = 0;
                assert(so_far + trip_calls_upto(trip.deep_view(), feed.routes, 0) =~= so_far);
                while n < trip.stop_times.len()
                    invariant
                        n <= trip.stop_times.len(),
                        feed == gtfs.deep_view(),
                        r < gtfs.routes.len(),
                        route_index(feed.routes, trip.route_id@) == Some(r as int),
                        feed.routes[r as int] == route.deep_view(),
                        code as int == route_type_code(route.route_type),
                        types_tally(
                            types.deep_view(),
                            so_far + trip_calls_upto(trip.deep_view(), feed.routes, n as int),
                        ),
                        ids_tally(
                            ids.deep_view(),
                            so_far + trip_calls_upto(trip.deep_view(), feed.routes, n as int),
                        ),
                    decreases trip.stop_times.len() - n,
                {
                    let ghost cs = so_far + trip_calls_upto(
                        trip.deep_view(),
                        feed.routes,
                        n as int,
                    );
                    let stop_time = &trip.stop_times[n];
                    assert(trip.deep_view().stop_times[n as int] == stop_time.deep_view());
                    tally_call(
                        &mut types,
                        &mut ids,
                        &stop_time.stop_id,
                        code,
                        &route.id,
                        Ghost(cs),
                    );
                    assert(cs.push(
                        Call { stop: stop_time.stop_id@, route_type: code, route_id: route.id@ },
                    ) =~= so_far + trip_calls_upto(trip.deep_view(), feed.routes, n + 1));
                    n += 1;
                }
            },
            None => {
                assert(so_far + trip_calls(trip.deep_view(), feed.routes) =~= so_far);
            },
        }
        t += 1;
    }
    (types, ids)
}

} // verus!

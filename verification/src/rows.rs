//! What is derived for the rows of one feed: the summary of the feed, and
//! the parts of the trip and stop rows that are not copied as they stand.

use crate::bounds::{bounding_box, bounds, BoundingBox};
use crate::feed::{ParsedFeed, StopTime, StopTimeView, Trip};
use crate::geometry::Point;
use crate::hull::{hull_of_points, ring_drawn_from, ring_encloses, ring_turns_left};
use crate::operators::{edges_of_feed, operators_of_feed};
use crate::path::{all_shape_points, shape_points, stop_points, stop_positions};
use crate::registry::{Association, Registry};
use crate::text::{
    copy_optional_text, distinct, is_title_cased, same_optional_text, title_cased,
    titlecase_process_new,
};
use vstd::prelude::*;

verus! {

/// The summary row of a feed.
#[derive(Clone, Debug)]
pub struct FeedSummary {
    pub feed_id: String,
    /// The bounding box of the stops; absent where no stop has a position.
    pub bounds: Option<BoundingBox>,
    /// The convex hull of the shapes; empty where they have fewer than three
    /// distinct points.
    pub hull: Vec<Point>,
    /// The operators of the feed.
    pub operators: Vec<Association>,
}

/// Derives the summary of a feed from its stops and shapes and from the
/// edges of the registry.
pub fn summarise(feed_id: &str, feed: &ParsedFeed, reg: &Registry) -> (summary: FeedSummary)
    ensures
        summary.feed_id@ == feed_id@,
        summary.bounds == bounds(stop_positions(feed.deep_view())),
        shape_points(feed.deep_view()).to_set().len() < 3 ==> summary.hull.len() == 0,
        shape_points(feed.deep_view()).to_set().len() >= 3 ==> summary.hull.len() >= 2,
        ring_drawn_from(summary.hull@, shape_points(feed.deep_view())),
        ring_encloses(summary.hull@, shape_points(feed.deep_view())),
        summary.hull.len() >= 3 ==> ring_turns_left(summary.hull@),
        summary.operators.deep_view() == edges_of_feed(reg.deep_view(), feed_id@),
{
    let stops = stop_points(feed);
    let drawn = all_shape_points(feed);
    FeedSummary {
        feed_id: feed_id.to_owned(),
        bounds: bounding_box(&stops),
        hull: hull_of_points(drawn),
        operators: operators_of_feed(reg, feed_id),
    }
}

/// What is derived for the row of a trip.
#[derive(Clone, Debug)]
pub struct TripRow {
    /// The headsign of the trip in its display form.
    pub headsign: Option<String>,
    /// Whether any stop time of the trip has a headsign of its own.
    pub has_stop_headsign: bool,
    /// The headsigns of the stop times, absent ones too, each once, in the
    /// order in which they first occur.
    pub stop_headsigns: Vec<Option<String>>,
}

/// The headsigns of the stop times, one for each stop time.
pub open spec fn headsigns(stop_times: Seq<StopTimeView>) -> Seq<Option<Seq<char>>> {
    Seq::new(stop_times.len(), |i: int| stop_times[i].stop_headsign)
}

/// Whether a stop time of a stop at the given position is stored: the stop
/// needs a position, and the stop time both of its times.
pub open spec fn is_stored(position: Option<Point>, stop_time: StopTimeView) -> bool {
    position is Some && stop_time.arrival_time is Some && stop_time.departure_time is Some
}

/// Tells whether a stop time is stored.
pub fn stores_stop_time(position: Option<Point>, stop_time: &StopTime) -> (yes: bool)
    ensures
        yes == is_stored(position, stop_time.deep_view()),
{
    position.is_some() && stop_time.arrival_time.is_some() && stop_time.departure_time.is_some()
}

fn holds_headsign(seen: &Vec<Option<String>>, headsign: &Option<String>) -> (yes: bool)
    ensures
        yes == seen.deep_view().contains(headsign.deep_view()),
{
    let mut k: usize = 0;
    while k < seen.len()
        invariant
            k <= seen.len(),
            forall|j: int| 0 <= j < k ==> #[trigger] seen.deep_view()[j] != headsign.deep_view(),
        decreases seen.len() - k,
    {
        assert(seen.deep_view()[k as int] == seen@[k as int].deep_view());
        if same_optional_text(&seen[k], headsign) {
            return true;
        }
        k += 1;
    }
    false
}

/// Derives the row of a trip.
pub fn trip_row(trip: &Trip) -> (row: TripRow)
    ensures
        trip.headsign is None <==> row.headsign is None,
        trip.headsign is Some ==> row.headsign->0@ == if is_title_cased(trip.headsign->0@) {
            title_cased(trip.headsign->0@)
        } else {
            trip.headsign->0@
        },
        row.has_stop_headsign == exists|i: int|
            0 <= i < trip.stop_times.len() && (#[trigger] trip.deep_view().stop_times[i]).stop_headsign
                is Some,
        row.stop_headsigns.deep_view() == distinct(headsigns(trip.deep_view().stop_times)),
{
    let ghost all = headsigns(trip.deep_view().stop_times);
    let mut any = false;
    let mut once: Vec<Option<String>> = Vec::new();
    let mut i: usize = 0;
    assert(once.deep_view() =~= distinct(all.take(0)));
    while i < trip.stop_times.len()
        invariant
            i <= trip.stop_times.len(),
            all == headsigns(trip.deep_view().stop_times),
            any == exists|j: int|
                0 <= j < i && (#[trigger] trip.deep_view().stop_times[j]).stop_headsign is Some,
            once.deep_view() == distinct(all.take(i as int)),
        decreases trip.stop_times.len() - i,
    {
        let stop_time = &trip.stop_times[i];
        let ghost before = once.deep_view();
        assert(trip.deep_view().stop_times[i as int] == stop_time.deep_view());
        proof {
            crate::text::lemma_distinct_members(all.take(i as int));
            assert(all.take(i + 1).drop_last() =~= all.take(i as int));
            assert(all.take(i + 1).last() == stop_time.stop_headsign.deep_view());
        }
        if stop_time.stop_headsign.is_some() {
            any = true;
        }
        if !holds_headsign(&once, &stop_time.stop_headsign) {
            once.push(copy_optional_text(&stop_time.stop_headsign));
            assert(once.deep_view() =~= before.push(stop_time.stop_headsign.deep_view()));
        }
        i += 1;
    }
    assert(all.take(trip.stop_times.len() as int) =~= all);
    TripRow {
        headsign: titlecase_process_new(trip.headsign.as_ref()),
        has_stop_headsign: any,
        stop_headsigns: once,
    }
}

} // verus!

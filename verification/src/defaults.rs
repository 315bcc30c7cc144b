//! The tables that a run starts from: the feeds that are never ingested, the
//! cuts that known paths need, and the styling that known feeds need.

use crate::clip::{Axis, ClipRule, ClipRuleView, Side};
use crate::feed::Colour;
use crate::styling::{StyleOverride, StyleOverrideView};
use vstd::prelude::*;

verus! {

/// The feeds that are never ingested.
pub open spec fn denylisted_feeds() -> Seq<Seq<char>> {
    seq![
        "f-9q8y-sfmta"@,
        "f-9qc-westcat~ca~us"@,
        "f-9q9-actransit"@,
        "f-9q9-vta"@,
        "f-9q8yy-missionbaytma~ca~us"@,
        "f-9qbb-marintransit"@,
        "f-9q8-samtrans"@,
        "f-9q9-bart"@,
        "f-9q9-caltrain"@,
        "f-9qc3-riovistadeltabreeze"@,
    ]
}

/// The list of `denylisted_feeds`.
pub fn standard_denylist() -> (list: Vec<String>)
    ensures
        list.deep_view() == denylisted_feeds(),
{
    let mut list: Vec<String> = Vec::new();
    list.push("f-9q8y-sfmta".to_owned());
    list.push("f-9qc-westcat~ca~us".to_owned());
    list.push("f-9q9-actransit".to_owned());
    list.push("f-9q9-vta".to_owned());
    list.push("f-9q8yy-missionbaytma~ca~us".to_owned());
    list.push("f-9qbb-marintransit".to_owned());
    list.push("f-9q8-samtrans".to_owned());
    list.push("f-9q9-bart".to_owned());
    list.push("f-9q9-caltrain".to_owned());
    list.push("f-9qc3-riovistadeltabreeze".to_owned());
    assert(list.deep_view() =~= denylisted_feeds());
    list
}

/// The longitude west of which the two heavy rail lines are kept: east of it
/// lies their yard.
pub const YARD_LON: i32 = -1_182_335_698;

/// The latitude north of which the crosstown line is kept: south of it lies
/// its yard.
pub const YARD_LAT: i32 = 339_615_430;

/// A cut for the paths of one colour of one feed.
pub open spec fn colour_cut(
    feed_id: Seq<char>,
    colour: Seq<char>,
    axis: Axis,
    side: Side,
    bound: i32,
) -> ClipRuleView {
    ClipRuleView {
        feed_id: Some(feed_id),
        colour: Some(colour),
        sole_route: None,
        axis,
        side,
        bound,
    }
}

/// The cuts that take the yard tracks off the rail paths of one feed, by the
/// colour of the line, and off every path that serves the one route `807`.
pub open spec fn yard_cuts() -> Seq<ClipRuleView> {
    seq![
        colour_cut("f-9q5-metro~losangeles~rail"@, "eb131b"@, Axis::Lon, Side::Below, YARD_LON),
        colour_cut("f-9q5-metro~losangeles~rail"@, "a05da5"@, Axis::Lon, Side::Below, YARD_LON),
        colour_cut("f-9q5-metro~losangeles~rail"@, "e470ab"@, Axis::Lat, Side::Above, YARD_LAT),
        ClipRuleView {
            feed_id: None,
            colour: None,
            sole_route: Some("807"@),
            axis: Axis::Lat,
            side: Side::Above,
            bound: YARD_LAT,
        },
    ]
}

fn cut(feed_id: &str, colour: &str, axis: Axis, side: Side, bound: i32) -> (rule: ClipRule)
    ensures
        rule.deep_view() == colour_cut(feed_id@, colour@, axis, side, bound),
{
    ClipRule {
        feed_id: Some(feed_id.to_owned()),
        colour: Some(colour.to_owned()),
        sole_route: None,
        axis,
        side,
        bound,
    }
}

/// The table of `yard_cuts`.
pub fn standard_clip_rules() -> (rules: Vec<ClipRule>)
    ensures
        rules.deep_view() == yard_cuts(),
{
    let mut rules: Vec<ClipRule> = Vec::new();
    rules.push(cut("f-9q5-metro~losangeles~rail", "eb131b", Axis::Lon, Side::Below, YARD_LON));
    rules.push(cut("f-9q5-metro~losangeles~rail", "a05da5", Axis::Lon, Side::Below, YARD_LON));
    rules.push(cut("f-9q5-metro~losangeles~rail", "e470ab", Axis::Lat, Side::Above, YARD_LAT));
    rules.push(
        ClipRule {
            feed_id: None,
            colour: None,
            sole_route: Some("807".to_owned()),
            axis: Axis::Lat,
            side: Side::Above,
            bound: YARD_LAT,
        },
    );
    assert(rules.deep_view() =~= yard_cuts());
    rules
}

/// An entry that gives the paths of one route key of a feed their colour.
pub open spec fn keyed_colour(feed_id: Seq<char>, key: Seq<char>, colour: Colour) -> StyleOverrideView {
    StyleOverrideView {
        feed_id,
        route_key: Some(key),
        colour: Some(colour),
        text_colour: None,
        label: None,
    }
}

/// An entry for a whole feed.
pub open spec fn feed_colours(
    feed_id: Seq<char>,
    colour: Colour,
    text_colour: Option<Colour>,
) -> StyleOverrideView {
    StyleOverrideView { feed_id, route_key: None, colour: Some(colour), text_colour, label: None }
}

/// The colour of the local buses.
pub open spec fn bus_orange() -> Colour {
    Colour { r: 0xe1, g: 0x67, b: 0x10 }
}

/// The colour of the rapid lines.
pub open spec fn rapid_red() -> Colour {
    Colour { r: 0xd1, g: 0x12, b: 0x42 }
}

/// The colour of the first busway.
pub open spec fn busway_orange() -> Colour {
    Colour { r: 0xfc, g: 0x4c, b: 0x02 }
}

/// The colour of the second busway.
pub open spec fn busway_silver() -> Colour {
    Colour { r: 0xad, g: 0xb8, b: 0xbf }
}

/// The colour of the rail feed.
pub open spec fn rail_blue() -> Colour {
    Colour { r: 0x17, g: 0x72, b: 0xac }
}

/// White, for text on dark colours.
pub open spec fn white() -> Colour {
    Colour { r: 0xff, g: 0xff, b: 0xff }
}

/// The styling that known feeds need: one bus feed is orange throughout,
/// but for its rapid lines and its two busways, named by short name or by
/// id; one rail feed is blue with white text.
pub open spec fn known_styles() -> Seq<StyleOverrideView> {
    seq![
        keyed_colour("f-9q5-metro~losangeles"@, "720"@, rapid_red()),
        keyed_colour("f-9q5-metro~losangeles"@, "754"@, rapid_red()),
        keyed_colour("f-9q5-metro~losangeles"@, "761"@, rapid_red()),
        keyed_colour("f-9q5-metro~losangeles"@, "901"@, busway_orange()),
        keyed_colour("f-9q5-metro~losangeles"@, "950"@, busway_silver()),
        keyed_colour("f-9q5-metro~losangeles"@, "910"@, busway_silver()),
        keyed_colour("f-9q5-metro~losangeles"@, "901-13168"@, busway_orange()),
        keyed_colour("f-9q5-metro~losangeles"@, "910-13168"@, busway_silver()),
        feed_colours("f-9q5-metro~losangeles"@, bus_orange(), None),
        feed_colours(
            "f-9-amtrak~amtrakcalifornia~amtrakcharteredvehicle"@,
            rail_blue(),
            Some(white()),
        ),
    ]
}

fn keyed(feed_id: &str, key: &str, colour: Colour) -> (entry: StyleOverride)
    ensures
        entry.deep_view() == keyed_colour(feed_id@, key@, colour),
{
    StyleOverride {
        feed_id: feed_id.to_owned(),
        route_key: Some(key.to_owned()),
        colour: Some(colour),
        text_colour: None,
        label: None,
    }
}

fn whole_feed(feed_id: &str, colour: Colour, text_colour: Option<Colour>) -> (entry: StyleOverride)
    ensures
        entry.deep_view() == feed_colours(feed_id@, colour, text_colour),
{
    StyleOverride {
        feed_id: feed_id.to_owned(),
        route_key: None,
        colour: Some(colour),
        text_colour,
        label: None,
    }
}

/// The table of `known_styles`.
pub fn standard_overrides() -> (table: Vec<StyleOverride>)
    ensures
        table.deep_view() == known_styles(),
{
    let red = Colour { r: 0xd1, g: 0x12, b: 0x42 };
    let orange = Colour { r: 0xfc, g: 0x4c, b: 0x02 };
    let silver = Colour { r: 0xad, g: 0xb8, b: 0xbf };
    let mut table: Vec<StyleOverride> = Vec::new();
    table.push(keyed("f-9q5-metro~losangeles", "720", red));
    table.push(keyed("f-9q5-metro~losangeles", "754", red));
    table.push(keyed("f-9q5-metro~losangeles", "761", red));
    table.push(keyed("f-9q5-metro~losangeles", "901", orange));
    table.push(keyed("f-9q5-metro~losangeles", "950", silver));
    table.push(keyed("f-9q5-metro~losangeles", "910", silver));
    table.push(keyed("f-9q5-metro~losangeles", "901-13168", orange));
    table.push(keyed("f-9q5-metro~losangeles", "910-13168", silver));
    table.push(
        whole_feed("f-9q5-metro~losangeles", Colour { r: 0xe1, g: 0x67, b: 0x10 }, None),
    );
    table.push(
        whole_feed(
            "f-9-amtrak~amtrakcalifornia~amtrakcharteredvehicle",
            Colour { r: 0x17, g: 0x72, b: 0xac },
            Some(Colour { r: 0xff, g: 0xff, b: 0xff }),
        ),
    );
    assert(table.deep_view() =~= known_styles());
    table
}

} // verus!

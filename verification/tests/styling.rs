use gtfs_ingest::codes::RouteType;
use gtfs_ingest::defaults::standard_overrides;
use gtfs_ingest::feed::{Colour, Route};
use gtfs_ingest::styling::{
    find_override, hex_of, resolve_colour, resolve_label, resolve_style, resolve_text_colour,
    route_label, Aspect, StyleOverride,
};
use gtfs_ingest::text::standard_substitutions;

fn rgb(r: u8, g: u8, b: u8) -> Colour {
    Colour { r, g, b }
}

fn route(id: &str, short: &str, long: &str) -> Route {
    Route {
        id: id.to_string(),
        short_name: short.to_string(),
        long_name: long.to_string(),
        route_type: RouteType::Bus,
        colour: None,
        text_colour: None,
    }
}

fn coloured(id: &str, colour: Colour, text: Colour) -> Route {
    Route { colour: Some(colour), text_colour: Some(text), ..route(id, id, "") }
}

fn entry(feed: &str, key: Option<&str>, colour: Option<Colour>, text: Option<Colour>) -> StyleOverride {
    StyleOverride {
        feed_id: feed.to_string(),
        route_key: key.map(|k| k.to_string()),
        colour,
        text_colour: text,
        label: None,
    }
}

#[test]
fn hex_is_six_lower_case_digits() {
    assert_eq!(hex_of(rgb(0, 0, 0)), "000000");
    assert_eq!(hex_of(rgb(255, 255, 255)), "ffffff");
    assert_eq!(hex_of(rgb(0x3a, 0x3a, 0x3a)), "3a3a3a");
    assert_eq!(hex_of(rgb(0xe1, 0x67, 0x10)), "e16710");
    assert_eq!(hex_of(rgb(0x0a, 0x90, 0x09)), "0a9009");
}

#[test]
fn nothing_decides_so_the_defaults_hold() {
    let style = resolve_style("feed", &Vec::new(), &Vec::new(), &Vec::new());
    assert_eq!(style.colour, rgb(0x3a, 0x3a, 0x3a));
    assert_eq!(style.text_colour, rgb(0, 0, 0));
    assert_eq!(style.label, "");
}

#[test]
fn the_first_route_declares_the_colours() {
    let routes = vec![coloured("a", rgb(1, 2, 3), rgb(4, 5, 6)), coloured("b", rgb(7, 8, 9), rgb(9, 9, 9))];
    assert_eq!(resolve_colour("feed", &routes, &Vec::new()), rgb(1, 2, 3));
    assert_eq!(resolve_text_colour("feed", &routes, &Vec::new()), rgb(4, 5, 6));
}

#[test]
fn a_first_route_without_colour_gives_the_default() {
    let routes = vec![route("a", "A", ""), coloured("b", rgb(7, 8, 9), rgb(9, 9, 9))];
    assert_eq!(resolve_colour("feed", &routes, &Vec::new()), rgb(0x3a, 0x3a, 0x3a));
    assert_eq!(resolve_text_colour("feed", &routes, &Vec::new()), rgb(0, 0, 0));
}

#[test]
fn a_feed_entry_overrides_what_is_declared() {
    let routes = vec![coloured("a", rgb(1, 2, 3), rgb(4, 5, 6))];
    let table = vec![entry("feed", None, Some(rgb(10, 20, 30)), None)];
    assert_eq!(resolve_colour("feed", &routes, &table), rgb(10, 20, 30));
    assert_eq!(resolve_text_colour("feed", &routes, &table), rgb(4, 5, 6));
    assert_eq!(resolve_colour("other", &routes, &table), rgb(1, 2, 3));
}

#[test]
fn a_keyed_entry_wins_over_a_feed_entry() {
    let routes = vec![route("r-1", "720", "Rapid")];
    let table = vec![
        entry("feed", None, Some(rgb(1, 1, 1)), Some(rgb(5, 5, 5))),
        entry("feed", Some("720"), Some(rgb(2, 2, 2)), None),
    ];
    assert_eq!(resolve_colour("feed", &routes, &table), rgb(2, 2, 2));
    assert_eq!(resolve_text_colour("feed", &routes, &table), rgb(5, 5, 5));
    assert_eq!(find_override(&table, "feed", &routes, Aspect::Colour), Some(1));
    assert_eq!(find_override(&table, "feed", &routes, Aspect::TextColour), Some(0));
    assert_eq!(find_override(&table, "feed", &routes, Aspect::Label), None);
}

#[test]
fn a_key_matches_the_short_name_or_the_id_of_the_first_route() {
    let table = vec![entry("feed", Some("910-13168"), Some(rgb(2, 2, 2)), None)];
    let by_id = vec![route("910-13168", "J", "")];
    let by_name = vec![route("x", "910-13168", "")];
    let second = vec![route("x", "y", ""), route("910-13168", "J", "")];
    assert_eq!(resolve_colour("feed", &by_id, &table), rgb(2, 2, 2));
    assert_eq!(resolve_colour("feed", &by_name, &table), rgb(2, 2, 2));
    assert_eq!(resolve_colour("feed", &second, &table), rgb(0x3a, 0x3a, 0x3a));
    assert_eq!(resolve_colour("feed", &Vec::new(), &table), rgb(0x3a, 0x3a, 0x3a));
}

#[test]
fn of_two_entries_the_first_decides() {
    let routes = vec![route("r", "901", "")];
    let table = vec![
        entry("feed", Some("901"), None, Some(rgb(9, 9, 9))),
        entry("feed", Some("901"), Some(rgb(1, 1, 1)), None),
        entry("feed", Some("901"), Some(rgb(2, 2, 2)), Some(rgb(8, 8, 8))),
    ];
    assert_eq!(resolve_colour("feed", &routes, &table), rgb(1, 1, 1));
    assert_eq!(resolve_text_colour("feed", &routes, &table), rgb(9, 9, 9));
}

#[test]
fn standard_table_colours_the_known_feeds() {
    let table = standard_overrides();
    assert_eq!(table.len(), 10);
    let metro = "f-9q5-metro~losangeles";
    assert_eq!(hex_of(resolve_colour(metro, &vec![route("2-13168", "2", "")], &table)), "e16710");
    assert_eq!(hex_of(resolve_colour(metro, &vec![route("720-13168", "720", "")], &table)), "d11242");
    assert_eq!(hex_of(resolve_colour(metro, &vec![route("901-13168", "G", "")], &table)), "fc4c02");
    assert_eq!(hex_of(resolve_colour(metro, &vec![route("910-13168", "J", "")], &table)), "adb8bf");
    assert_eq!(hex_of(resolve_colour(metro, &Vec::new(), &table)), "e16710");
    let amtrak = "f-9-amtrak~amtrakcalifornia~amtrakcharteredvehicle";
    let declared = vec![coloured("x", rgb(1, 2, 3), rgb(4, 5, 6))];
    assert_eq!(hex_of(resolve_colour(amtrak, &declared, &table)), "1772ac");
    assert_eq!(hex_of(resolve_text_colour(amtrak, &declared, &table)), "ffffff");
    assert_eq!(hex_of(resolve_text_colour(metro, &declared, &table)), "040506");
}

#[test]
fn a_route_is_known_by_short_name_then_long_name_then_id() {
    let none = Vec::new();
    assert_eq!(route_label(&route("id", "S", "Long"), &none), "S");
    assert_eq!(route_label(&route("id", "", "Long"), &none), "Long");
    assert_eq!(route_label(&route("id", "", ""), &none), "id");
}

#[test]
fn labels_are_rewritten_deduplicated_and_joined() {
    let rules = standard_substitutions();
    let routes = vec![
        route("a", "", "Loop Clockwise"),
        route("b", "10", ""),
        route("c", "", "Loop clockwise"),
        route("d", "", ""),
        route("e", "10", "Ten"),
    ];
    assert_eq!(resolve_label("feed", &routes, &Vec::new(), &rules), "Loop CW,10,d");
    assert_eq!(resolve_label("feed", &Vec::new(), &Vec::new(), &rules), "");
    assert_eq!(resolve_label("feed", &vec![route("91 Line", "", "")], &Vec::new(), &rules), "91 Line");
}

#[test]
fn an_entry_can_set_the_label() {
    let mut named = entry("feed", None, None, None);
    named.label = Some("Harbor Line".to_string());
    let table = vec![named];
    let routes = vec![route("a", "A", "")];
    assert_eq!(resolve_label("feed", &routes, &table, &Vec::new()), "Harbor Line");
    assert_eq!(resolve_label("other", &routes, &table, &Vec::new()), "A");
}

#[test]
fn the_same_arguments_give_the_same_style() {
    let rules = standard_substitutions();
    let table = standard_overrides();
    let rapid = Route { short_name: "754".to_string(), ..coloured("754-13168", rgb(1, 2, 3), rgb(3, 2, 1)) };
    let routes = vec![rapid, route("b", "", "Counterclockwise")];
    let once = resolve_style("f-9q5-metro~losangeles", &routes, &table, &rules);
    let again = resolve_style("f-9q5-metro~losangeles", &routes.clone(), &table.clone(), &rules.clone());
    assert_eq!(once.colour, again.colour);
    assert_eq!(once.text_colour, again.text_colour);
    assert_eq!(once.label, again.label);
    assert_eq!(hex_of(once.colour), "d11242");
    assert_eq!(hex_of(once.text_colour), "030201");
    assert_eq!(once.label, "754,ACW");
}

//! Display styling of a path: its colour, the colour of text on it, and its
//! label, from the routes it serves and a table of overrides.

use crate::feed::{Colour, Route, RouteView};
use crate::text::{distinct, join, joined, same_text, substitute, substituted, unique_texts};
use crate::text::Substitution;
use vstd::prelude::*;

verus! {

/// One entry of the override table. It names a feed, and with a route key
/// only those paths of the feed whose first route has the key as its short
/// name or as its id. What the entry leaves absent it does not override.
#[derive(Clone, Debug)]
pub struct StyleOverride {
    pub feed_id: String,
    pub route_key: Option<String>,
    pub colour: Option<Colour>,
    pub text_colour: Option<Colour>,
    pub label: Option<String>,
}

/// What a `StyleOverride` holds, with each text as its sequence of characters.
pub struct StyleOverrideView {
    pub feed_id: Seq<char>,
    pub route_key: Option<Seq<char>>,
    pub colour: Option<Colour>,
    pub text_colour: Option<Colour>,
    pub label: Option<Seq<char>>,
}

impl DeepView for StyleOverride {
    type V = StyleOverrideView;

    open spec fn deep_view(&self) -> StyleOverrideView {
        StyleOverrideView {
            feed_id: self.feed_id@,
            route_key: self.route_key.deep_view(),
            colour: self.colour,
            text_colour: self.text_colour,
            label: self.label.deep_view(),
        }
    }
}

/// The resolved styling of a path.
#[derive(Clone, Debug)]
pub struct PathStyle {
    pub colour: Colour,
    pub text_colour: Colour,
    pub label: String,
}

/// What an override can set.
#[derive(Clone, Copy, Debug, PartialEq, Eq, Structural)]
pub enum Aspect {
    Colour,
    TextColour,
    Label,
}

/// The colour of a path that nothing else decides: a neutral dark grey.
pub open spec fn neutral() -> Colour {
    Colour { r: 0x3a, g: 0x3a, b: 0x3a }
}

/// The colour of text that nothing else decides.
pub open spec fn black() -> Colour {
    Colour { r: 0, g: 0, b: 0 }
}

/// Whether the entry sets the aspect.
pub open spec fn sets(entry: StyleOverrideView, aspect: Aspect) -> bool {
    match aspect {
        Aspect::Colour => entry.colour is Some,
        Aspect::TextColour => entry.text_colour is Some,
        Aspect::Label => entry.label is Some,
    }
}

/// Whether the entry names the path: with `keyed`, by feed and route key;
/// without, as an entry for the whole feed.
pub open spec fn names(
    entry: StyleOverrideView,
    feed_id: Seq<char>,
    routes: Seq<RouteView>,
    keyed: bool,
) -> bool {
    &&& entry.feed_id == feed_id
    &&& if keyed {
        &&& entry.route_key is Some
        &&& routes.len() > 0
        &&& (routes[0].short_name == entry.route_key->0 || routes[0].id == entry.route_key->0)
    } else {
        entry.route_key is None
    }
}

/// The first entry at or after `from` that names the path and sets the aspect.
pub open spec fn first_entry_from(
    table: Seq<StyleOverrideView>,
    feed_id: Seq<char>,
    routes: Seq<RouteView>,
    keyed: bool,
    aspect: Aspect,
    from: int,
) -> Option<int>
    decreases table.len() - from,
{
    if from < 0 || from >= table.len() {
        None
    } else if names(table[from], feed_id, routes, keyed) && sets(table[from], aspect) {
        Some(from)
    } else {
        first_entry_from(table, feed_id, routes, keyed, aspect, from + 1)
    }
}

/// The entry that decides the aspect for the path: the first keyed entry that
/// names the path and sets the aspect; failing that, the first such entry for
/// the whole feed.
pub open spec fn deciding_entry(
    table: Seq<StyleOverrideView>,
    feed_id: Seq<char>,
    routes: Seq<RouteView>,
    aspect: Aspect,
) -> Option<int> {
    match first_entry_from(table, feed_id, routes, true, aspect, 0) {
        Some(at) => Some(at),
        None => first_entry_from(table, feed_id, routes, false, aspect, 0),
    }
}

/// The colour of the path: from the deciding entry; failing that, the colour
/// that the first route declares; failing that, the neutral colour.
pub open spec fn resolved_colour(
    feed_id: Seq<char>,
    routes: Seq<RouteView>,
    table: Seq<StyleOverrideView>,
) -> Colour {
    match deciding_entry(table, feed_id, routes, Aspect::Colour) {
        Some(at) => table[at].colour->0,
        None => if routes.len() > 0 && routes[0].colour is Some {
            routes[0].colour->0
        } else {
            neutral()
        },
    }
}

/// The colour of text on the path, resolved as the colour is, with black
/// where nothing decides.
pub open spec fn resolved_text_colour(
    feed_id: Seq<char>,
    routes: Seq<RouteView>,
    table: Seq<StyleOverrideView>,
) -> Colour {
    match deciding_entry(table, feed_id, routes, Aspect::TextColour) {
        Some(at) => table[at].text_colour->0,
        None => if routes.len() > 0 && routes[0].text_colour is Some {
            routes[0].text_colour->0
        } else {
            black()
        },
    }
}

/// The name by which a route is known: its short name; where that is empty
/// its long name; where that is empty too, its id.
pub open spec fn route_name(route: RouteView) -> Seq<char> {
    if route.short_name.len() > 0 {
        route.short_name
    } else if route.long_name.len() > 0 {
        route.long_name
    } else {
        route.id
    }
}

/// The labels of the routes: the name of each after the rewriting rules.
pub open spec fn route_labels(
    routes: Seq<RouteView>,
    rules: Seq<(Seq<char>, Seq<char>)>,
) -> Seq<Seq<char>> {
    Seq::new(routes.len(), |i: int| substituted(route_name(routes[i]), rules))
}

/// The label of the path: from the deciding entry; failing that, the labels
/// of its routes, each once, with commas between them.
pub open spec fn resolved_label(
    feed_id: Seq<char>,
    routes: Seq<RouteView>,
    table: Seq<StyleOverrideView>,
    rules: Seq<(Seq<char>, Seq<char>)>,
) -> Seq<char> {
    match deciding_entry(table, feed_id, routes, Aspect::Label) {
        Some(at) => table[at].label->0,
        None => joined(distinct(route_labels(routes, rules)), ","@),
    }
}

/// Tests whether the entry names the path.
fn entry_names(entry: &StyleOverride, feed_id: &str, routes: &Vec<Route>, keyed: bool) -> (yes:
    bool)
    ensures
        yes == names(entry.deep_view(), feed_id@, routes.deep_view(), keyed),
{
    if !same_text(entry.feed_id.as_str(), feed_id) {
        return false;
    }
    match &entry.route_key {
        Some(key) => {
            if !keyed || routes.len() == 0 {
                return false;
            }
            assert(routes.deep_view()[0] == routes@[0].deep_view());
            same_text(routes[0].short_name.as_str(), key.as_str()) || same_text(
                routes[0].id.as_str(),
                key.as_str(),
            )
        },
        None => !keyed,
    }
}

/// Tests whether the entry sets the aspect.
fn entry_sets(entry: &StyleOverride, aspect: Aspect) -> (yes: bool)
    ensures
        yes == sets(entry.deep_view(), aspect),
{
    match aspect {
        Aspect::Colour => entry.colour.is_some(),
        Aspect::TextColour => entry.text_colour.is_some(),
        Aspect::Label => entry.label.is_some(),
    }
}

fn first_entry(
    table: &Vec<StyleOverride>,
    feed_id: &str,
    routes: &Vec<Route>,
    keyed: bool,
    aspect: Aspect,
) -> (found: Option<usize>)
    ensures
        match found {
            Some(at) => at < table.len() && first_entry_from(
                table.deep_view(),
                feed_id@,
                routes.deep_view(),
                keyed,
                aspect,
                0,
            ) == Some(at as int) && sets(table@[at as int].deep_view(), aspect),
            None => first_entry_from(
                table.deep_view(),
                feed_id@,
                routes.deep_view(),
                keyed,
                aspect,
                0,
            ) is None,
        },
{
    let mut i: usize = 0;
    while i < table.len()
        invariant
            i <= table.len(),
            first_entry_from(table.deep_view(), feed_id@, routes.deep_view(), keyed, aspect, 0)
                == first_entry_from(
                table.deep_view(),
                feed_id@,
                routes.deep_view(),
                keyed,
                aspect,
                i as int,
            ),
        decreases table.len() - i,
    {
        assert(table.deep_view()[i as int] == table@[i as int].deep_view());
        if entry_names(&table[i], feed_id, routes, keyed) && entry_sets(&table[i], aspect) {
            return Some(i);
        }
        i += 1;
    }
    None
}

/// Finds the entry of the table that decides the aspect for the path.
pub fn find_override(
    table: &Vec<StyleOverride>,
    feed_id: &str,
    routes: &Vec<Route>,
    aspect: Aspect,
) -> (found: Option<usize>)
    ensures
        match found {
            Some(at) => at < table.len() && deciding_entry(
                table.deep_view(),
                feed_id@,
                routes.deep_view(),
                aspect,
            ) == Some(at as int) && sets(table@[at as int].deep_view(), aspect),
            None => deciding_entry(table.deep_view(), feed_id@, routes.deep_view(), aspect)
                is None,
        },
{
    match first_entry(table, feed_id, routes, true, aspect) {
        Some(at) => Some(at),
        None => first_entry(table, feed_id, routes, false, aspect),
    }
}

/// Resolves the colour of a path.
pub fn resolve_colour(feed_id: &str, routes: &Vec<Route>, table: &Vec<StyleOverride>) -> (colour:
    Colour)
    ensures
        colour == resolved_colour(feed_id@, routes.deep_view(), table.deep_view()),
{
    match find_override(table, feed_id, routes, Aspect::Colour) {
        Some(at) => {
            assert(table.deep_view()[at as int] == table@[at as int].deep_view());
            match table[at].colour {
                Some(c) => c,
                None => Colour { r: 0x3a, g: 0x3a, b: 0x3a },
            }
        },
        None => {
            if routes.len() > 0 {
                assert(routes.deep_view()[0] == routes@[0].deep_view());
                match routes[0].colour {
                    Some(c) => c,
                    None => Colour { r: 0x3a, g: 0x3a, b: 0x3a },
                }
            } else {
                Colour { r: 0x3a, g: 0x3a, b: 0x3a }
            }
        },
    }
}

/// Resolves the colour of text on a path.
pub fn resolve_text_colour(
    feed_id: &str,
    routes: &Vec<Route>,
    table: &Vec<StyleOverride>,
) -> (colour: Colour)
    ensures
        colour == resolved_text_colour(feed_id@, routes.deep_view(), table.deep_view()),
{
    match find_override(table, feed_id, routes, Aspect::TextColour) {
        Some(at) => {
            assert(table.deep_view()[at as int] == table@[at as int].deep_view());
            match table[at].text_colour {
                Some(c) => c,
                None => Colour { r: 0, g: 0, b: 0 },
            }
        },
        None => {
            if routes.len() > 0 {
                assert(routes.deep_view()[0] == routes@[0].deep_view());
                match routes[0].text_colour {
                    Some(c) => c,
                    None => Colour { r: 0, g: 0, b: 0 },
                }
            } else {
                Colour { r: 0, g: 0, b: 0 }
            }
        },
    }
}

/// The label of one route: its name after the rewriting rules.
pub fn route_label(route: &Route, rules: &Vec<Substitution>) -> (label: String)
    ensures
        label@ == substituted(route_name(route.deep_view()), rules.deep_view()),
{
    if !route.short_name.as_str().is_empty() {
        substitute(route.short_name.as_str(), rules)
    } else if !route.long_name.as_str().is_empty() {
        substitute(route.long_name.as_str(), rules)
    } else {
        substitute(route.id.as_str(), rules)
    }
}

/// Resolves the label of a path.
pub fn resolve_label(
    feed_id: &str,
    routes: &Vec<Route>,
    table: &Vec<StyleOverride>,
    rules: &Vec<Substitution>,
) -> (label: String)
    ensures
        label@ == resolved_label(
            feed_id@,
            routes.deep_view(),
            table.deep_view(),
            rules.deep_view(),
        ),
{
    match find_override(table, feed_id, routes, Aspect::Label) {
        Some(at) => {
            assert(table.deep_view()[at as int] == table@[at as int].deep_view());
            match &table[at].label {
                Some(text) => text.clone(),
                None => String::new(),
            }
        },
        None => {
            let mut labels: Vec<String> = Vec::new();
            let mut i: usize = 0;
            while i < routes.len()
                invariant
                    i <= routes.len(),
                    labels.len() == i,
                    forall|k: int|
                        0 <= k < i ==> (#[trigger] labels@[k])@ == substituted(
                            route_name(routes@[k].deep_view()),
                            rules.deep_view(),
                        ),
                decreases routes.len() - i,
            {
                labels.push(route_label(&routes[i], rules));
                i += 1;
            }
            assert(labels.deep_view() =~= route_labels(routes.deep_view(), rules.deep_view()));
            let once = unique_texts(labels);
            join(&once, ",")
        },
    }
}

/// Resolves the styling of a path of the given feed that serves the given
/// routes, in their order. The result depends on the arguments alone, and
/// there is one for every path: where no entry of the table names it and no
/// route declares a colour, the path is neutral with black text.
pub fn resolve_style(
    feed_id: &str,
    routes: &Vec<Route>,
    table: &Vec<StyleOverride>,
    rules: &Vec<Substitution>,
) -> (style: PathStyle)
    ensures
        style.colour == resolved_colour(feed_id@, routes.deep_view(), table.deep_view()),
        style.text_colour == resolved_text_colour(
            feed_id@,
            routes.deep_view(),
            table.deep_view(),
        ),
        style.label@ == resolved_label(
            feed_id@,
            routes.deep_view(),
            table.deep_view(),
            rules.deep_view(),
        ),
{
    PathStyle {
        colour: resolve_colour(feed_id, routes, table),
        text_colour: resolve_text_colour(feed_id, routes, table),
        label: resolve_label(feed_id, routes, table, rules),
    }
}

/// No entry before `from` decides for a path whose feed the table does not
/// name from there on.
proof fn lemma_no_entry(
    table: Seq<StyleOverrideView>,
    feed_id: Seq<char>,
    routes: Seq<RouteView>,
    keyed: bool,
    aspect: Aspect,
    from: int,
)
    requires
        0 <= from,
        forall|k: int| from <= k < table.len() ==> (#[trigger] table[k]).feed_id != feed_id,
    ensures
        first_entry_from(table, feed_id, routes, keyed, aspect, from) is None,
    decreases table.len() - from,
{
    if from < table.len() {
        lemma_no_entry(table, feed_id, routes, keyed, aspect, from + 1);
    }
}

/// A path of a feed that the table does not name falls through to what its
/// first route declares, and without that to the defaults: the neutral
/// colour, black text, and the label made of its routes.
pub proof fn lemma_unnamed_feed_falls_through(
    feed_id: Seq<char>,
    routes: Seq<RouteView>,
    table: Seq<StyleOverrideView>,
    rules: Seq<(Seq<char>, Seq<char>)>,
)
    requires
        forall|k: int| 0 <= k < table.len() ==> (#[trigger] table[k]).feed_id != feed_id,
    ensures
        resolved_colour(feed_id, routes, table) == if routes.len() > 0 && routes[0].colour
            is Some {
            routes[0].colour->0
        } else {
            neutral()
        },
        resolved_text_colour(feed_id, routes, table) == if routes.len() > 0
            && routes[0].text_colour is Some {
            routes[0].text_colour->0
        } else {
            black()
        },
        resolved_label(feed_id, routes, table, rules) == joined(
            distinct(route_labels(routes, rules)),
            ","@,
        ),
{
    lemma_no_entry(table, feed_id, routes, true, Aspect::Colour, 0);
    lemma_no_entry(table, feed_id, routes, false, Aspect::Colour, 0);
    lemma_no_entry(table, feed_id, routes, true, Aspect::TextColour, 0);
    lemma_no_entry(table, feed_id, routes, false, Aspect::TextColour, 0);
    lemma_no_entry(table, feed_id, routes, true, Aspect::Label, 0);
    lemma_no_entry(table, feed_id, routes, false, Aspect::Label, 0);
}

/// A keyed entry that names the path decides before any entry for the whole
/// feed, wherever the two stand in the table.
pub proof fn lemma_keyed_entry_wins(
    feed_id: Seq<char>,
    routes: Seq<RouteView>,
    table: Seq<StyleOverrideView>,
    aspect: Aspect,
    at: int,
)
    requires
        0 <= at < table.len(),
        names(table[at], feed_id, routes, true),
        sets(table[at], aspect),
    ensures
        deciding_entry(table, feed_id, routes, aspect) is Some,
        names(table[deciding_entry(table, feed_id, routes, aspect)->0], feed_id, routes, true),
        deciding_entry(table, feed_id, routes, aspect)->0 <= at,
{
    lemma_first_entry(table, feed_id, routes, true, aspect, 0, at);
}

proof fn lemma_first_entry(
    table: Seq<StyleOverrideView>,
    feed_id: Seq<char>,
    routes: Seq<RouteView>,
    keyed: bool,
    aspect: Aspect,
    from: int,
    at: int,
)
    requires
        0 <= from <= at < table.len(),
        names(table[at], feed_id, routes, keyed),
        sets(table[at], aspect),
    ensures
        first_entry_from(table, feed_id, routes, keyed, aspect, from) is Some,
        from <= first_entry_from(table, feed_id, routes, keyed, aspect, from)->0 <= at,
        names(
            table[first_entry_from(table, feed_id, routes, keyed, aspect, from)->0],
            feed_id,
            routes,
            keyed,
        ),
    decreases at - from,
{
    if from < at && !(names(table[from], feed_id, routes, keyed) && sets(table[from], aspect)) {
        lemma_first_entry(table, feed_id, routes, keyed, aspect, from + 1, at);
    }
}

/// The hexadecimal digit of a number below sixteen, in lower case.
pub open spec fn hex_digit(n: int) -> char {
    if n < 10 {
        (48 + n) as char
    } else {
        (87 + n) as char
    }
}

/// The colour as six hexadecimal digits: red, green, blue.
pub open spec fn colour_hex(c: Colour) -> Seq<char> {
    seq![
        hex_digit(c.r as int / 16),
        hex_digit(c.r as int % 16),
        hex_digit(c.g as int / 16),
        hex_digit(c.g as int % 16),
        hex_digit(c.b as int / 16),
        hex_digit(c.b as int % 16),
    ]
}

fn digit(n: u8) -> (c: char)
    requires
        n < 16,
    ensures
        c == hex_digit(n as int),
{
    if n < 10 {
        (48 + n) as char
    } else {
        (87 + n) as char
    }
}

/// Writes the colour as six hexadecimal digits, the form in which colours
/// are stored.
pub fn hex_of(c: Colour) -> (text: String)
    ensures
        text@ == colour_hex(c),
{
    let mut text = String::new();
    text.push(digit(c.r / 16));
    text.push(digit(c.r % 16));
    text.push(digit(c.g / 16));
    text.push(digit(c.g % 16));
    text.push(digit(c.b / 16));
    text.push(digit(c.b % 16));
    assert(text@ =~= colour_hex(c));
    text
}

} // verus!

use gtfs_ingest::operators::{
    apply_override, apply_overrides, operator_feeds, operators_of_feed, overrides_from_rows,
    parse_overrides, RealtimeOverride,
};
use gtfs_ingest::registry::{
    merge_documents, AssociatedFeed, Association, FeedEntry, FeedSpec, OperatorEntry, Registry,
    RegistryDocument,
};

fn reference(feed: Option<&str>, agency: Option<&str>) -> AssociatedFeed {
    AssociatedFeed { feed_id: feed.map(|s| s.to_string()), agency_id: agency.map(|s| s.to_string()) }
}

fn operator(id: &str, name: &str, refs: Vec<AssociatedFeed>) -> OperatorEntry {
    OperatorEntry { id: id.to_string(), name: name.to_string(), associated_feeds: refs }
}

fn feed(id: &str, spec: FeedSpec, url: &str, operators: Vec<OperatorEntry>) -> FeedEntry {
    FeedEntry { id: id.to_string(), spec, name: None, url: Some(url.to_string()), operators }
}

fn edge(feed: &str, operator: &str, agency: Option<&str>) -> (String, String, Option<String>) {
    (feed.to_string(), operator.to_string(), agency.map(|s| s.to_string()))
}

fn triples(edges: &[Association]) -> Vec<(String, String, Option<String>)> {
    edges.iter().map(|a| (a.feed_id.clone(), a.operator_id.clone(), a.agency_id.clone())).collect()
}

fn sorted(mut v: Vec<(String, String, Option<String>)>) -> Vec<(String, String, Option<String>)> {
    v.sort();
    v
}

fn document_a() -> RegistryDocument {
    RegistryDocument {
        feeds: vec![feed("X", FeedSpec::Schedule, "https://a.example/x.zip", Vec::new())],
        operators: vec![
            operator("P", "Pier Transit", vec![reference(Some("X"), Some("a1"))]),
            operator("Q", "Quay Lines", vec![reference(Some("X"), None)]),
        ],
    }
}

fn document_b() -> RegistryDocument {
    RegistryDocument {
        feeds: Vec::new(),
        operators: vec![operator("P", "Pier Transit Authority", vec![reference(Some("X"), Some("a2"))])],
    }
}

#[test]
fn one_pair_keeps_an_edge_for_each_agency() {
    let reg = merge_documents(&vec![document_a(), document_b()]);
    let of_x = triples(&operators_of_feed(&reg, "X"));
    assert_eq!(of_x.len(), 3);
    assert_eq!(
        sorted(of_x),
        sorted(vec![edge("X", "P", Some("a1")), edge("X", "P", Some("a2")), edge("X", "Q", None)])
    );
}

#[test]
fn the_order_of_documents_does_not_change_the_edges() {
    let ab = merge_documents(&vec![document_a(), document_b()]);
    let ba = merge_documents(&vec![document_b(), document_a()]);
    assert_eq!(sorted(triples(&ab.associations)), sorted(triples(&ba.associations)));
    assert_eq!(ab.associations.len(), 3);
    assert_eq!(ba.associations.len(), 3);
}

#[test]
fn the_last_document_decides_the_name() {
    let ab = merge_documents(&vec![document_a(), document_b()]);
    let ba = merge_documents(&vec![document_b(), document_a()]);
    let p_ab = &ab.operators[ab.find_operator("P").unwrap()];
    let p_ba = &ba.operators[ba.find_operator("P").unwrap()];
    assert_eq!(p_ab.name, "Pier Transit Authority");
    assert_eq!(p_ba.name, "Pier Transit");
    assert_eq!(ab.operators.len(), 2);
    assert_eq!(ba.operators.len(), 2);
}

#[test]
fn the_last_feed_record_replaces_the_first_in_place() {
    let first = RegistryDocument {
        feeds: vec![
            feed("X", FeedSpec::Schedule, "https://old.example/x.zip", Vec::new()),
            feed("Y", FeedSpec::Realtime, "https://old.example/y", Vec::new()),
        ],
        operators: Vec::new(),
    };
    let second = RegistryDocument {
        feeds: vec![feed("X", FeedSpec::Other, "https://new.example/x.zip", Vec::new())],
        operators: Vec::new(),
    };
    let reg = merge_documents(&vec![first, second]);
    assert_eq!(reg.feeds.len(), 2);
    assert_eq!(reg.find_feed("X"), Some(0));
    assert_eq!(reg.find_feed("Y"), Some(1));
    assert_eq!(reg.find_feed("Z"), None);
    assert_eq!(reg.feeds[0].spec, FeedSpec::Other);
    assert_eq!(reg.feeds[0].url, Some("https://new.example/x.zip".to_string()));
    assert_eq!(reg.feeds[1].spec, FeedSpec::Realtime);
}

#[test]
fn the_same_edge_is_held_once() {
    let reg = merge_documents(&vec![document_a(), document_a(), document_b(), document_a()]);
    assert_eq!(reg.associations.len(), 3);
    assert_eq!(reg.feeds.len(), 1);
    assert_eq!(reg.operators.len(), 2);
}

#[test]
fn an_operator_inside_a_feed_belongs_to_it() {
    let doc = RegistryDocument {
        feeds: vec![feed(
            "F",
            FeedSpec::Schedule,
            "u",
            vec![
                operator("bare", "Bare", Vec::new()),
                operator("own", "Own", vec![reference(None, Some("ag"))]),
                operator("far", "Far", vec![reference(Some("G"), None), reference(None, None)]),
            ],
        )],
        operators: vec![operator("loose", "Loose", vec![reference(None, Some("zz"))])],
    };
    let reg = merge_documents(&vec![doc]);
    assert_eq!(
        triples(&reg.associations),
        vec![
            edge("F", "bare", None),
            edge("F", "own", Some("ag")),
            edge("G", "far", None),
            edge("F", "far", None),
        ]
    );
    assert_eq!(reg.operators.len(), 4);
    assert_eq!(reg.find_operator("loose"), Some(3));
}

#[test]
fn a_reference_to_an_unknown_feed_is_kept() {
    let reg = merge_documents(&vec![document_b()]);
    assert_eq!(triples(&reg.associations), vec![edge("X", "P", Some("a2"))]);
    assert_eq!(reg.find_feed("X"), None);
    let later = merge_documents(&vec![document_b(), document_a()]);
    assert_eq!(later.find_feed("X"), Some(0));
    assert_eq!(triples(&operators_of_feed(&later, "X")).len(), 3);
}

#[test]
fn no_documents_make_an_empty_registry() {
    let reg = merge_documents(&Vec::new());
    assert!(reg.feeds.is_empty() && reg.operators.is_empty() && reg.associations.is_empty());
    let fresh = Registry::new();
    assert!(fresh.feeds.is_empty() && fresh.operators.is_empty() && fresh.associations.is_empty());
}

fn mixed_registry() -> Registry {
    let doc = RegistryDocument {
        feeds: vec![
            feed("s1", FeedSpec::Schedule, "u", Vec::new()),
            feed("s2", FeedSpec::Schedule, "u", Vec::new()),
            feed("rt", FeedSpec::Realtime, "u", Vec::new()),
            feed("gbfs", FeedSpec::Other, "u", Vec::new()),
        ],
        operators: vec![
            operator(
                "op",
                "Op",
                vec![
                    reference(Some("s1"), Some("1")),
                    reference(Some("rt"), None),
                    reference(Some("s2"), None),
                    reference(Some("gbfs"), None),
                    reference(Some("ghost"), None),
                    reference(Some("s1"), Some("2")),
                ],
            ),
            operator("other", "Other", vec![reference(Some("s1"), None)]),
        ],
    };
    merge_documents(&vec![doc])
}

#[test]
fn an_operator_has_its_feeds_by_kind() {
    let reg = mixed_registry();
    let feeds = operator_feeds(&reg, &Vec::new(), "op");
    assert_eq!(feeds.operator_id, "op");
    assert_eq!(
        triples(&feeds.static_feeds),
        vec![edge("s1", "op", Some("1")), edge("s2", "op", None), edge("s1", "op", Some("2"))]
    );
    assert_eq!(triples(&feeds.realtime_feeds), vec![edge("rt", "op", None)]);
    let none = operator_feeds(&reg, &Vec::new(), "nobody");
    assert!(none.static_feeds.is_empty() && none.realtime_feeds.is_empty());
}

#[test]
fn denylisted_schedule_feeds_are_left_out() {
    let reg = mixed_registry();
    let denylist = vec!["s1".to_string(), "rt".to_string()];
    let feeds = operator_feeds(&reg, &denylist, "op");
    assert_eq!(triples(&feeds.static_feeds), vec![edge("s2", "op", None)]);
    assert_eq!(triples(&feeds.realtime_feeds), vec![edge("rt", "op", None)]);
}

#[test]
fn an_override_joins_feed_and_operator_under_no_agency() {
    let mut reg = mixed_registry();
    let line = RealtimeOverride { realtime_id: "rt2".to_string(), operator_id: "op".to_string() };
    let before = reg.associations.len();
    apply_override(&mut reg, &line);
    assert_eq!(reg.associations.len(), before + 1);
    assert_eq!(triples(&operators_of_feed(&reg, "rt2")), vec![edge("rt2", "op", None)]);
    apply_override(&mut reg, &line);
    assert_eq!(reg.associations.len(), before + 1);
}

#[test]
fn an_override_replaces_the_edges_of_its_pair() {
    let mut reg = mixed_registry();
    let lines = vec![
        RealtimeOverride { realtime_id: "s1".to_string(), operator_id: "op".to_string() },
        RealtimeOverride { realtime_id: "rt".to_string(), operator_id: "other".to_string() },
    ];
    apply_overrides(&mut reg, &lines);
    assert_eq!(
        sorted(triples(&operators_of_feed(&reg, "s1"))),
        sorted(vec![edge("s1", "op", None), edge("s1", "other", None)])
    );
    assert_eq!(
        sorted(triples(&operators_of_feed(&reg, "rt"))),
        sorted(vec![edge("rt", "op", None), edge("rt", "other", None)])
    );
    assert_eq!(reg.feeds.len(), 4);
    assert_eq!(reg.operators.len(), 2);
}

fn pairs(lines: &[RealtimeOverride]) -> Vec<(String, String)> {
    lines.iter().map(|l| (l.realtime_id.clone(), l.operator_id.clone())).collect()
}

#[test]
fn rows_of_two_fields_make_lines() {
    let rows = vec![
        Some(vec!["rt-a".to_string(), "op-a".to_string()]),
        None,
        Some(vec!["short".to_string()]),
        Some(Vec::new()),
        Some(vec!["rt-b".to_string(), "op-b".to_string(), "note".to_string()]),
    ];
    assert_eq!(
        pairs(&overrides_from_rows(&rows)),
        vec![("rt-a".to_string(), "op-a".to_string()), ("rt-b".to_string(), "op-b".to_string())]
    );
    assert!(overrides_from_rows(&Vec::new()).is_empty());
}

#[test]
fn the_list_is_read_after_its_header() {
    let text = "realtime,operator\nf-rt~one,o-one\n\"f-rt~two\",\"o-two, inc\"\n";
    assert_eq!(
        pairs(&parse_overrides(text)),
        vec![
            ("f-rt~one".to_string(), "o-one".to_string()),
            ("f-rt~two".to_string(), "o-two, inc".to_string())
        ]
    );
    assert!(parse_overrides("realtime,operator\n").is_empty());
    assert!(parse_overrides("").is_empty());
}

#[test]
fn a_record_of_another_width_is_refused() {
    let text = "realtime,operator\na,b\nc,d,e\nf\ng,h\n";
    assert_eq!(
        pairs(&parse_overrides(text)),
        vec![("a".to_string(), "b".to_string()), ("g".to_string(), "h".to_string())]
    );
}

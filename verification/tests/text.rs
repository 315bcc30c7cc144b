use gtfs_ingest::text::{
    chars_of, is_uppercase, join, matches_at, replace_all, standard_substitutions, string_of,
    substitute, titlecase_process_new, titlecase_process_new_nooption, Substitution,
};

fn chars(s: &str) -> Vec<char> {
    s.chars().collect()
}

#[test]
fn chars_and_back() {
    assert_eq!(chars_of("añb"), vec!['a', 'ñ', 'b']);
    assert_eq!(string_of(&vec!['x', 'y']), "xy");
    assert_eq!(string_of(&chars_of("Line 2 → East")), "Line 2 → East");
    assert_eq!(chars_of(""), Vec::<char>::new());
}

#[test]
fn pattern_is_found_where_it_stands() {
    let text = chars("clockwise");
    assert!(matches_at(&text, &chars("clock"), 0));
    assert!(matches_at(&text, &chars("wise"), 5));
    assert!(!matches_at(&text, &chars("wise"), 6));
    assert!(!matches_at(&text, &chars("clockwise loop"), 0));
    assert!(matches_at(&text, &chars(""), 9));
}

#[test]
fn replaces_every_occurrence_from_the_left() {
    assert_eq!(replace_all(&chars("aaa"), &chars("aa"), &chars("b")), chars("ba"));
    assert_eq!(replace_all(&chars("abcabc"), &chars("bc"), &chars("")), chars("aa"));
    assert_eq!(replace_all(&chars("abc"), &chars("x"), &chars("y")), chars("abc"));
    assert_eq!(replace_all(&chars("abc"), &chars(""), &chars("y")), chars("abc"));
    assert_eq!(replace_all(&chars(""), &chars("a"), &chars("y")), chars(""));
    assert_eq!(replace_all(&chars("ab"), &chars("ab"), &chars("abab")), chars("abab"));
}

#[test]
fn rules_apply_in_the_order_of_the_table() {
    let table = vec![
        Substitution { pattern: "a".to_string(), with: "b".to_string() },
        Substitution { pattern: "b".to_string(), with: "c".to_string() },
    ];
    assert_eq!(substitute("ab", &table), "cc");
    let reversed = vec![
        Substitution { pattern: "b".to_string(), with: "c".to_string() },
        Substitution { pattern: "a".to_string(), with: "b".to_string() },
    ];
    assert_eq!(substitute("ab", &reversed), "bc");
    assert_eq!(substitute("ab", &Vec::new()), "ab");
}

#[test]
fn standard_rules_shorten_directions_and_regions() {
    let rules = standard_substitutions();
    assert_eq!(rules.len(), 7);
    assert_eq!(substitute("Downtown Counterclockwise", &rules), "Downtown ACW");
    assert_eq!(substitute("Loop counterclockwise", &rules), "Loop ACW");
    assert_eq!(substitute("Loop clockwise", &rules), "Loop CW");
    assert_eq!(substitute("Clockwise", &rules), "CW");
    assert_eq!(substitute("910-16168", &rules), "910");
    assert_eq!(substitute("Orange County Line", &rules), "OC Line");
    assert_eq!(substitute("Inland Empire-Orange County", &rules), "IE-OC");
    assert_eq!(substitute("Express", &rules), "Express");
}

#[test]
fn joins_with_the_separator_between() {
    let parts = vec!["1".to_string(), "2".to_string(), "3".to_string()];
    assert_eq!(join(&parts, ","), "1,2,3");
    assert_eq!(join(&vec!["only".to_string()], ","), "only");
    assert_eq!(join(&Vec::new(), ","), "");
    assert_eq!(join(&vec!["".to_string(), "".to_string()], ", "), ", ");
}

#[test]
fn long_ascii_names_are_title_cased() {
    assert_eq!(
        titlecase_process_new_nooption(&"a sample title to capitalize: an example".to_string()),
        "A Sample Title to Capitalize: An Example"
    );
    assert_eq!(titlecase_process_new_nooption(&"MAIN ST & 1ST AVE".to_string()), "Main St & 1st Ave");
    assert_eq!(titlecase_process_new_nooption(&"downtown".to_string()), "Downtown");
}

#[test]
fn short_names_stay_as_they_are() {
    assert_eq!(titlecase_process_new_nooption(&"main st".to_string()), "Main St");
    assert_eq!(titlecase_process_new_nooption(&"mainst".to_string()), "mainst");
    assert_eq!(titlecase_process_new_nooption(&"UCLA".to_string()), "UCLA");
    assert_eq!(titlecase_process_new_nooption(&"".to_string()), "");
}

#[test]
fn names_in_other_scripts_stay_as_they_are() {
    assert_eq!(titlecase_process_new_nooption(&"zürich hauptbahnhof".to_string()), "zürich hauptbahnhof");
    assert_eq!(titlecase_process_new_nooption(&"東京駅 丸の内北口".to_string()), "東京駅 丸の内北口");
}

#[test]
fn optional_names_keep_their_absence() {
    assert_eq!(titlecase_process_new(None), None);
    assert_eq!(
        titlecase_process_new(Some(&"union station".to_string())),
        Some("Union Station".to_string())
    );
    assert_eq!(titlecase_process_new(Some(&"7th".to_string())), Some("7th".to_string()));
}

#[test]
fn uppercase_means_every_character() {
    assert!(is_uppercase("ABC"));
    assert!(is_uppercase("ÄÖ"));
    assert!(is_uppercase(""));
    assert!(!is_uppercase("AbC"));
    assert!(!is_uppercase("A1"));
    assert!(!is_uppercase("A B"));
}

//! The effect library panel.

use oak_node::effect_library::{
    arrange_rows, format_collapsed, hidden_by_collapse, library_rows, loaded_collapsed,
    matches_names, matches_query, parse_collapsed, query_of, stored_collapsed, toggle_collapsed,
    EffectEntry, LibraryRow, COLLAPSED_CONFIG_KEY,
};
use oak_node::textset::TextSet;

/// A one-entry table row for the pure collapse logic.
fn entry(group: Option<&str>) -> EffectEntry {
    EffectEntry {
        type_id: "oak:testeffect".to_string(),
        name: "Test Effect".to_string(),
        group: group.map(str::to_string),
    }
}

/// A set of keys.
fn set(keys: &[&str]) -> TextSet {
    let mut set = TextSet::new();
    for key in keys {
        set.insert(key.to_string());
    }
    set
}

/// An entry of a group.
fn named(name: &str, group: Option<&str>) -> EffectEntry {
    EffectEntry {
        type_id: format!("oak:{name}"),
        name: name.to_string(),
        group: group.map(str::to_string),
    }
}

/// The header of a group.
fn header(key: &str, built_in: bool, collapsed: bool) -> LibraryRow {
    LibraryRow::Header { key: key.to_string(), built_in, collapsed }
}

#[test]
fn collapsed_rows_toggle_and_stay_searchable() {
    let color = entry(Some("color"));
    let mut collapsed = TextSet::new();

    assert!(!hidden_by_collapse(&color, "", &collapsed));
    assert!(toggle_collapsed(&mut collapsed, "color"), "first toggle collapses");
    assert!(hidden_by_collapse(&color, "", &collapsed));
    assert!(
        !hidden_by_collapse(&color, "blur", &collapsed),
        "a search looks through collapsed groups"
    );
    assert!(
        !hidden_by_collapse(&color, "", &TextSet::new()),
        "an unlisted group stays open"
    );
    assert!(!toggle_collapsed(&mut collapsed, "color"), "second toggle expands");
    assert!(collapsed.is_empty());
}

#[test]
fn query_matches_name_and_type_id() {
    let color = entry(Some("color"));
    assert!(matches_query(&color, ""));
    assert!(matches_query(&color, "test"));
    assert!(matches_query(&color, "oak:test"));
    assert!(!matches_query(&color, "blur"));
}

#[test]
fn collapsed_list_round_trips() {
    let collapsed = set(&["keying", "color"]);
    let raw = format_collapsed(&collapsed);
    assert_eq!(raw, "color,keying");
    assert_eq!(parse_collapsed(&raw).to_vec(), collapsed.to_vec());
    assert_eq!(parse_collapsed(&format!(" {raw} , ")).to_vec(), collapsed.to_vec());
    assert!(parse_collapsed("").is_empty());
    assert!(parse_collapsed(" , ").is_empty());
}

#[test]
fn unusual_keys_do_not_survive_being_stored() {
    assert!(parse_collapsed(&format_collapsed(&set(&[""]))).is_empty());
    assert_eq!(
        parse_collapsed(&format_collapsed(&set(&["a,b"]))).to_vec(),
        vec!["a".to_string(), "b".to_string()]
    );
    assert_eq!(
        parse_collapsed(&format_collapsed(&set(&["\u{3000}pad\t"]))).to_vec(),
        vec!["pad".to_string()]
    );
}

#[test]
fn reading_settles_after_one_round() {
    let raw = "b,, a ,b,c c,";
    let first = parse_collapsed(raw);
    let stored = format_collapsed(&first);
    assert_eq!(stored, "a,b,c c");
    assert_eq!(format_collapsed(&parse_collapsed(&stored)), stored);
}

#[test]
fn toggling_one_group_leaves_the_others_alone() {
    let mut collapsed = set(&["color", "keying"]);
    assert!(toggle_collapsed(&mut collapsed, "blur"));
    assert_eq!(format_collapsed(&collapsed), "blur,color,keying");
    assert!(!toggle_collapsed(&mut collapsed, "keying"));
    assert_eq!(format_collapsed(&collapsed), "blur,color");
}

#[test]
fn search_text_is_trimmed_and_folded() {
    assert_eq!(query_of("  GAUSSIAN Blur\n"), "gaussian blur");
    assert_eq!(query_of("ÄÖ"), "äö");
    assert_eq!(query_of(" \t "), "");
    assert!(matches_query(&entry(None), &query_of(" TEST e")));
}

#[test]
fn names_are_searched_as_they_are() {
    let name: Vec<char> = "test effect".chars().collect();
    let id: Vec<char> = "oak:x".chars().collect();
    assert!(matches_names(&name, &id, &"t e".chars().collect()));
    assert!(matches_names(&name, &id, &"k:x".chars().collect()));
    assert!(matches_names(&name, &id, &Vec::new()));
    assert!(!matches_names(&name, &id, &"Test".chars().collect()));
    assert!(!matches_names(&name, &id, &"test effects".chars().collect()));
}

#[test]
fn rows_group_entries_under_headers() {
    let entries = vec![
        named("one", None),
        named("two", Some("color")),
        named("three", Some("color")),
        named("four", Some("keying")),
    ];
    assert_eq!(
        library_rows(&entries, "", &TextSet::new()),
        vec![
            header("", true, false),
            LibraryRow::Entry(0),
            header("color", false, false),
            LibraryRow::Entry(1),
            LibraryRow::Entry(2),
            header("keying", false, false),
            LibraryRow::Entry(3),
        ]
    );
}

#[test]
fn a_collapsed_group_keeps_its_header() {
    let entries = vec![named("two", Some("color")), named("four", Some("keying"))];
    assert_eq!(
        library_rows(&entries, "", &set(&["color"])),
        vec![
            header("color", false, true),
            header("keying", false, false),
            LibraryRow::Entry(1),
        ]
    );
    // A search looks inside the collapsed group.
    assert_eq!(
        library_rows(&entries, "TWO", &set(&["color"])),
        vec![header("color", false, true), LibraryRow::Entry(0)]
    );
}

#[test]
fn the_built_in_group_collapses_like_the_others() {
    let entries = vec![named("one", None), named("two", Some("color"))];
    let mut collapsed = TextSet::new();
    // A click on the header hands its key back.
    let rows = library_rows(&entries, "", &collapsed);
    let LibraryRow::Header { key, .. } = &rows[0] else {
        panic!("no header: {rows:?}");
    };
    assert!(toggle_collapsed(&mut collapsed, key));
    assert!(hidden_by_collapse(&entries[0], "", &collapsed));
    assert_eq!(
        library_rows(&entries, "", &collapsed),
        vec![header("", true, true), header("color", false, false), LibraryRow::Entry(1)]
    );
    assert_eq!(
        library_rows(&entries, "one", &collapsed),
        vec![header("", true, true), LibraryRow::Entry(0)]
    );
    assert!(!toggle_collapsed(&mut collapsed, key));
    assert_eq!(library_rows(&entries, "", &collapsed), rows);
}

#[test]
fn collapsed_groups_survive_a_session() {
    for keys in [&[][..], &[""], &["color"], &["", "color", "keying"], &["zoom", ""], &["builtin"], &["builtin", ""]] {
        let collapsed = set(keys);
        let raw = stored_collapsed(&collapsed);
        assert_eq!(loaded_collapsed(&raw).to_vec(), collapsed.to_vec(), "{raw}");
    }
    assert_eq!(stored_collapsed(&set(&["color", ""])), ",color");
    assert_eq!(stored_collapsed(&set(&[""])), ",");
    assert_eq!(stored_collapsed(&set(&["color", "keying"])), "color,keying");
    assert_eq!(stored_collapsed(&TextSet::new()), "");
    assert_eq!(loaded_collapsed(", color").to_vec(), vec!["", "color"]);
    assert_eq!(loaded_collapsed(" color , ").to_vec(), vec!["color"]);
    assert!(loaded_collapsed("").is_empty());
}

#[test]
fn padding_and_blank_items_are_dropped() {
    let plain = parse_collapsed("a,b c").to_vec();
    for raw in [" a , b c ", ",a,,b c,", "\ta, \u{3000} ,b c\n"] {
        assert_eq!(parse_collapsed(raw).to_vec(), plain, "{raw:?}");
    }
}

#[test]
fn rows_skip_entries_that_do_not_match() {
    let entries = vec![
        named("a", Some("x")),
        named("b", Some("y")),
        named("c", Some("x")),
    ];
    assert_eq!(
        arrange_rows(&entries, &vec![true, false, true], true, &TextSet::new()),
        vec![header("x", false, false), LibraryRow::Entry(0), LibraryRow::Entry(2)]
    );
    assert!(arrange_rows(&entries, &vec![false; 3], true, &TextSet::new()).is_empty());
}

#[test]
fn the_configuration_key_is_stable() {
    assert_eq!(COLLAPSED_CONFIG_KEY, "EffectLibraryCollapsed");
}

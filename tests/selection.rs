use well_data::selection::{contains_text, visible_wells, Selection};

fn names(v: &[&str]) -> Vec<String> {
    v.iter().map(|s| s.to_string()).collect()
}

#[test]
fn contains_text_finds_infixes() {
    assert!(contains_text("well A7-bis", "A7"));
    assert!(contains_text("abc", ""));
    assert!(contains_text("", ""));
    assert!(contains_text("abc", "abc"));
    assert!(!contains_text("abc", "abcd"));
    assert!(!contains_text("abc", "ac"));
    assert!(contains_text("aab", "ab"));
}

#[test]
fn search_ignores_case() {
    let wells = names(&["A7", "a70", "B1", "СКВ-12"]);
    assert_eq!(visible_wells(&wells, "a7"), names(&["A7", "a70"]));
    assert_eq!(visible_wells(&wells, "скв"), names(&["СКВ-12"]));
    assert_eq!(visible_wells(&wells, ""), wells);
    assert!(visible_wells(&wells, "zz").is_empty());
}

#[test]
fn selection_keeps_sorted_distinct_names() {
    let mut s = Selection::new();
    s.select("B1");
    s.select("A7");
    s.select("B1");
    assert_eq!(s.names, names(&["A7", "B1"]));
    assert_eq!(s.len(), 2);
    assert!(s.contains("A7"));
    assert!(!s.contains("a7"));
    s.deselect("A7");
    s.deselect("Z");
    assert_eq!(s.names, names(&["B1"]));
    s.select_all(&names(&["C", "A", "B1"]));
    assert_eq!(s.names, names(&["A", "B1", "C"]));
    s.clear();
    assert_eq!(s.len(), 0);
}

#[test]
fn select_visible_adds_search_results() {
    let wells = names(&["A7", "a70", "B1"]);
    let mut s = Selection::new();
    s.select("B1");
    s.select_all(&visible_wells(&wells, "A7"));
    assert_eq!(s.names, names(&["A7", "B1", "a70"]));
}


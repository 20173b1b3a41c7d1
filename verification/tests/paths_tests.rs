use txed::glob::build_glob_sets;
use txed::paths::{normalize_bytes, normalize_path, split_components, Segment};

#[test]
fn dot_components_and_empty_components_are_dropped() {
    assert_eq!(normalize_path("./src/match.txt", "/work"), "src/match.txt");
    assert_eq!(normalize_path("src//a/./b.txt", "/work"), "src/a/b.txt");
    assert_eq!(normalize_path("src/", "/work"), "src");
    assert_eq!(normalize_path("../x", "/work"), "../x");
}

#[test]
fn nothing_left_is_the_directory_itself() {
    assert_eq!(normalize_path(".", "/work"), ".");
    assert_eq!(normalize_path("", "/work"), ".");
    assert_eq!(normalize_path("./.", "/work"), ".");
    assert_eq!(normalize_path("/work", "/work"), ".");
    assert_eq!(normalize_path("/work/", "/work"), ".");
}

#[test]
fn absolute_paths_below_the_current_directory_become_relative() {
    assert_eq!(normalize_path("/work/src/a.txt", "/work"), "src/a.txt");
    assert_eq!(normalize_path("/work/src/a.txt", "/work/"), "src/a.txt");
    assert_eq!(normalize_path("/work/./src/a.txt", "/work"), "src/a.txt");
    assert_eq!(normalize_path("/a/b", "/"), "a/b");
}

#[test]
fn other_absolute_paths_stay_absolute() {
    assert_eq!(normalize_path("/workshop/a.txt", "/work"), "/workshop/a.txt");
    assert_eq!(normalize_path("/tmp//x/./a.txt", "/work"), "/tmp/x/a.txt");
    assert_eq!(normalize_path("/", "/work"), "/");
    assert_eq!(normalize_path("/a", "work"), "/a");
}

#[test]
fn multibyte_names_pass_through() {
    assert_eq!(normalize_path("./é/ü.txt", "/work"), "é/ü.txt");
    assert_eq!(normalize_bytes(b"./\xff/a", b"/work"), b"\xff/a");
}

#[test]
fn components_are_segments_of_the_path() {
    assert_eq!(
        split_components(b"/a/./bc//d"),
        vec![
            Segment { start: 1, end: 2 },
            Segment { start: 5, end: 7 },
            Segment { start: 9, end: 10 }
        ]
    );
    assert_eq!(split_components(b"..."), vec![Segment { start: 0, end: 3 }]);
    assert_eq!(split_components(b"./."), vec![]);
}

#[test]
fn filter_takes_what_matches_a_wanted_and_no_unwanted_pattern() {
    let wanted = Some(vec!["*.txt".to_string(), "src/**".to_string()]);
    let unwanted = Some(vec!["b.txt".to_string()]);
    let filter = build_glob_sets(&wanted, &unwanted).unwrap();
    assert!(filter.is_selected("a.txt"));
    assert!(!filter.is_selected("b.txt"));
    assert!(!filter.is_selected("c.md"));
    assert!(filter.is_selected("src/c.md"));
    assert!(filter.is_selected("/tmp/x/match.txt"));
}

#[test]
fn absent_lists_set_no_filter() {
    let filter = build_glob_sets(&None, &None).unwrap();
    assert!(filter.includes.is_none());
    assert!(filter.excludes.is_none());
    assert!(filter.is_selected("anything"));
    let only_unwanted = build_glob_sets(&None, &Some(vec!["*.md".to_string()])).unwrap();
    assert!(only_unwanted.is_selected("a.txt"));
    assert!(!only_unwanted.is_selected("a.md"));
}

#[test]
fn empty_wanted_list_takes_nothing() {
    let filter = build_glob_sets(&Some(vec![]), &None).unwrap();
    assert!(!filter.is_selected("a.txt"));
}

#[test]
fn first_refused_pattern_is_named() {
    let wanted = Some(vec!["*.txt".to_string(), "[".to_string(), "{".to_string()]);
    match build_glob_sets(&wanted, &None) {
        Err(e) => {
            assert!(e.message().starts_with("Validation error: Invalid glob '[': "));
            assert!(e.message().len() > "Validation error: Invalid glob '[': ".len());
        }
        Ok(_) => panic!("an unclosed class was accepted"),
    }
    let unwanted = Some(vec!["{a".to_string()]);
    match build_glob_sets(&Some(vec!["*".to_string()]), &unwanted) {
        Err(e) => assert!(e.message().starts_with("Validation error: Invalid glob '{a': ")),
        Ok(_) => panic!("an unclosed alternation was accepted"),
    }
}

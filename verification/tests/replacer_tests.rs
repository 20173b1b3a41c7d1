use txed::model::{LineRange, ReplacementRange, ValidationMode};
use txed::replacer::Replacer;

fn regex_replacer(pattern: &str, replacement: &str, limit: usize, expand: bool) -> Replacer {
    Replacer::new(
        pattern,
        replacement,
        false,
        false,
        false,
        true,
        false,
        false,
        false,
        false,
        false,
        false,
        limit,
        None,
        None,
        expand,
    )
    .unwrap()
}

fn literal_replacer(
    pattern: &str,
    replacement: &str,
    limit: usize,
    range: Option<LineRange>,
    allowed: Option<Vec<ReplacementRange>>,
) -> Replacer {
    Replacer::new(
        pattern,
        replacement,
        true,
        false,
        false,
        true,
        false,
        false,
        false,
        false,
        false,
        false,
        limit,
        range,
        allowed,
        false,
    )
    .unwrap()
}

#[test]
fn test_basic_replacement() {
    let replacer = Replacer::new(
        "foo", "bar", false, false, false, true, false, false, false, false, false, false, 0,
        None, None, false,
    )
    .unwrap();
    let input = b"foo baz foo";
    let output = replacer.replace_with_count(input).0;
    assert_eq!(&output[..], b"bar baz bar");
}

#[test]
fn test_literal_replacement_optimized() {
    let replacer = Replacer::new(
        "foo", "bar", true, false, false, true, false, false, false, false, false, false, 0,
        None, None, false,
    )
    .unwrap();
    let input = b"foo baz foo";
    let output = replacer.replace_with_count(input).0;
    assert_eq!(&output[..], b"bar baz bar");
}

#[test]
fn test_capture_group_no_expand() {
    let replacer = Replacer::new(
        r"(\d+)",
        "number-$1",
        false, false, false, true, false, false, false, false, false, false, 0, None, None,
        false,
    )
    .unwrap();
    let input = b"abc 123 def";
    let output = replacer.replace_with_count(input).0;
    assert_eq!(&output[..], b"abc number-$1 def");
}

#[test]
fn test_capture_group_with_expand() {
    let replacer = Replacer::new(
        r"(\d+)",
        "number-$1",
        false, false, false, true, false, false, false, false, false, false, 0, None, None,
        true,
    )
    .unwrap();
    let input = b"abc 123 def";
    let output = replacer.replace_with_count(input).0;
    assert_eq!(&output[..], b"abc number-123 def");
}

#[test]
fn test_max_replacements() {
    let replacer = Replacer::new(
        "x", "y", false, false, false, true, false, false, false, false, false, false, 2, None,
        None, false,
    )
    .unwrap();
    let input = b"x x x x";
    let output = replacer.replace_with_count(input).0;
    assert_eq!(&output[..], b"y y x x");
}

#[test]
fn test_allowed_ranges_optimization() {
    let allowed = vec![
        ReplacementRange { start: 4, end: 5 },
        ReplacementRange { start: 0, end: 1 },
    ];
    let replacer = Replacer::new(
        "x", "y", false, false, false, true, false, false, false, false, false, false, 0, None,
        Some(allowed),
        false,
    )
    .unwrap();
    let input = b"x x x";
    let (output, count) = replacer.replace_with_count(input);
    assert_eq!(count, 2);
    assert_eq!(&output[..], b"y x y");
}

#[test]
fn limit_counts_replacements_not_matches() {
    let replacer = literal_replacer("x", "y", 2, None, None);
    let (output, count) = replacer.replace_with_count(b"x x x x");
    assert_eq!(&output[..], b"y y x x");
    assert_eq!(count, 2);
    assert_eq!(replacer.count_matches(b"x x x x"), 4);
}

#[test]
fn line_range_selects_matches_by_their_start_line() {
    let range = Some(LineRange { start: 2, end: Some(3) });
    let replacer = literal_replacer("foo", "bar", 0, range, None);
    let (output, count) = replacer.replace_with_count(b"foo\nfoo\nfoo\nfoo");
    assert_eq!(&output[..], b"foo\nbar\nbar\nfoo");
    assert_eq!(count, 2);
    assert_eq!(replacer.count_matches(b"foo\nfoo\nfoo\nfoo"), 2);
}

#[test]
fn open_line_range_runs_to_the_end() {
    let range = Some(LineRange { start: 3, end: None });
    let replacer = literal_replacer("foo", "bar", 0, range, None);
    let (output, count) = replacer.replace_with_count(b"foo\nfoo\nfoo\nfoo");
    assert_eq!(&output[..], b"foo\nfoo\nbar\nbar");
    assert_eq!(count, 2);
}

#[test]
fn allowlist_targets_the_middle_match() {
    let allowed = Some(vec![ReplacementRange { start: 4, end: 7 }]);
    let replacer = literal_replacer("foo", "bar", 0, None, allowed);
    let (output, count) = replacer.replace_with_count(b"foo\nfoo\nfoo\n");
    assert_eq!(&output[..], b"foo\nbar\nfoo\n");
    assert_eq!(count, 1);
}

#[test]
fn no_match_returns_the_text_unchanged() {
    let replacer = literal_replacer("zzz", "y", 0, None, None);
    let (output, count) = replacer.replace_with_count(b"abc\n");
    assert_eq!(&output[..], b"abc\n");
    assert_eq!(count, 0);
    assert_eq!(replacer.count_matches(b"abc\n"), 0);
}

#[test]
fn literal_pattern_is_not_a_regex() {
    let replacer = literal_replacer("a.c", "x", 0, None, None);
    let (output, count) = replacer.replace_with_count(b"abc a.c");
    assert_eq!(&output[..], b"abc x");
    assert_eq!(count, 1);
}

#[test]
fn literal_with_ignore_case_goes_through_the_regex_engine() {
    let replacer = Replacer::new(
        "a.c", "x", true, true, false, false, false, false, false, false, false, false, 0, None,
        None, false,
    )
    .unwrap();
    let (output, count) = replacer.replace_with_count(b"abc A.C a.c");
    assert_eq!(&output[..], b"abc x x");
    assert_eq!(count, 2);
}

#[test]
fn smart_case_is_insensitive_for_lowercase_patterns_only() {
    let lower = Replacer::new(
        "foo", "x", false, false, true, false, false, false, false, false, false, false, 0,
        None, None, false,
    )
    .unwrap();
    assert_eq!(&lower.replace_with_count(b"foo FOO").0[..], b"x x");
    let upper = Replacer::new(
        "Foo", "x", false, false, true, false, false, false, false, false, false, false, 0,
        None, None, false,
    )
    .unwrap();
    assert_eq!(&upper.replace_with_count(b"foo Foo").0[..], b"foo x");
}

#[test]
fn word_boundary_wraps_the_pattern() {
    let replacer = Replacer::new(
        "cat", "dog", true, false, false, true, true, false, false, false, false, false, 0,
        None, None, false,
    )
    .unwrap();
    let (output, count) = replacer.replace_with_count(b"cat concat cat.");
    assert_eq!(&output[..], b"dog concat dog.");
    assert_eq!(count, 2);
}

#[test]
fn multiline_anchors_match_line_edges() {
    let replacer = Replacer::new(
        "^a", "b", false, false, false, true, false, true, false, false, false, false, 0, None,
        None, false,
    )
    .unwrap();
    assert_eq!(&replacer.replace_with_count(b"a\na\n").0[..], b"b\nb\n");
    let single = Replacer::new(
        "^a", "b", false, false, false, true, false, true, true, false, false, false, 0, None,
        None, false,
    )
    .unwrap();
    assert_eq!(&single.replace_with_count(b"a\na\n").0[..], b"b\na\n");
}

#[test]
fn dot_matches_newline_when_asked() {
    let replacer = Replacer::new(
        "a.b", "x", false, false, false, true, false, false, false, true, false, false, 0, None,
        None, false,
    )
    .unwrap();
    assert_eq!(&replacer.replace_with_count(b"a\nb").0[..], b"x");
    let plain = regex_replacer("a.b", "x", 0, false);
    assert_eq!(&plain.replace_with_count(b"a\nb").0[..], b"a\nb");
}

#[test]
fn invalid_regex_is_a_regex_error() {
    let r = Replacer::new(
        "(", "x", false, false, false, true, false, false, false, false, false, false, 0, None,
        None, false,
    );
    match r {
        Err(e) => {
            assert_eq!(e.code(), txed::error::ErrorCode::Regex);
            assert!(e.message().starts_with("Invalid regex: "));
        }
        Ok(_) => panic!("an unbalanced parenthesis was accepted"),
    }
}

#[test]
fn ambiguous_reference_is_refused_in_strict_mode() {
    let r = Replacer::new(
        r"(\w+)", "$1bad", false, false, false, true, false, false, false, false, false, false,
        0, None, None, true,
    );
    match r {
        Err(e) => {
            assert_eq!(e.code(), txed::error::ErrorCode::AmbiguousReplacement);
            assert_eq!(e.code().as_str(), "E_AMBIGUOUS_REPLACEMENT");
            assert!(e.message().contains("Ambiguous capture group reference"));
        }
        Ok(_) => panic!("an ambiguous reference was accepted"),
    }
}

#[test]
fn ambiguous_reference_is_rewritten_in_warn_mode() {
    let replacer = Replacer::with_validation(
        r"(\w+)", "$1bad", false, false, false, true, false, false, false, false, false, false,
        0, None, None, true, ValidationMode::Warn,
    )
    .unwrap();
    assert_eq!(replacer.warnings().len(), 1);
    assert_eq!(
        replacer.warnings()[0],
        "WARN: Ambiguous capture group reference `$1` rewritten to `${1}`."
    );
    assert_eq!(&replacer.replace_with_count(b"hello world").0[..], b"hellobad worldbad");
}

#[test]
fn ambiguous_reference_passes_with_validation_off() {
    let replacer = Replacer::with_validation(
        r"(\w+)", "$1bad", false, false, false, true, false, false, false, false, false, false,
        0, None, None, true, ValidationMode::Off,
    )
    .unwrap();
    assert_eq!(replacer.warnings().len(), 0);
    assert_eq!(&replacer.replace_with_count(b"hello world").0[..], b" ");
}

#[test]
fn non_utf8_bytes_pass_through() {
    let replacer = literal_replacer("foo", "bar", 0, None, None);
    let (output, count) = replacer.replace_with_count(b"\xff foo \xfe");
    assert_eq!(&output[..], b"\xff bar \xfe");
    assert_eq!(count, 1);
}

#[test]
fn empty_literal_pattern_matches_at_every_offset() {
    let replacer = literal_replacer("", "-", 0, None, None);
    let (output, count) = replacer.replace_with_count(b"ab");
    assert_eq!(&output[..], b"-a-b-");
    assert_eq!(count, 3);
}

#[test]
fn second_literal_pass_finds_nothing() {
    let replacer = literal_replacer("foo", "bar", 0, None, None);
    let (once, first) = replacer.replace_with_count(b"foo foo");
    let (twice, second) = replacer.replace_with_count(&once);
    assert_eq!(first, 2);
    assert_eq!(second, 0);
    assert_eq!(once, twice);
}

#[test]
fn second_literal_pass_may_find_a_match_across_a_seam() {
    let replacer = literal_replacer("ab", "b", 0, None, None);
    let (once, first) = replacer.replace_with_count(b"aab");
    assert_eq!(&once[..], b"ab");
    assert_eq!(first, 1);
    let (twice, second) = replacer.replace_with_count(&once);
    assert_eq!(&twice[..], b"b");
    assert_eq!(second, 1);
}

use txed::model::{LineRange, ReplacementRange};
use txed::replacer::allowlist::{check_allowed_range_optimized, sort_ranges};
use txed::replacer::lines::{build_line_offsets, is_in_range};
use txed::replacer::literal::find_literal_spans;
use txed::replacer::pattern::{find_regex_spans, RegexPattern};
use txed::replacer::splice::{count_spans, replace_spans, MatchSpan};
use txed::replacer::{build_matcher, contains_byte, contains_uppercase, Matcher};

fn span(start: usize, end: usize) -> MatchSpan {
    MatchSpan { start, end }
}

fn range(start: usize, end: usize) -> ReplacementRange {
    ReplacementRange { start, end }
}

#[test]
fn line_offsets_start_at_zero_and_follow_each_line_feed() {
    assert_eq!(build_line_offsets(b""), vec![0]);
    assert_eq!(build_line_offsets(b"abc"), vec![0]);
    assert_eq!(build_line_offsets(b"a\nbc\n"), vec![0, 2, 5]);
    assert_eq!(build_line_offsets(b"\n\n"), vec![0, 1, 2]);
}

#[test]
fn offsets_are_found_on_their_lines() {
    let table = build_line_offsets(b"foo\nfoo\nfoo\nfoo");
    assert_eq!(table, vec![0, 4, 8, 12]);
    let second_and_third = LineRange { start: 2, end: Some(3) };
    assert!(!is_in_range(0, &second_and_third, &table));
    assert!(!is_in_range(3, &second_and_third, &table));
    assert!(is_in_range(4, &second_and_third, &table));
    assert!(is_in_range(7, &second_and_third, &table));
    assert!(is_in_range(11, &second_and_third, &table));
    assert!(!is_in_range(12, &second_and_third, &table));
    let from_third = LineRange { start: 3, end: None };
    assert!(!is_in_range(7, &from_third, &table));
    assert!(is_in_range(8, &from_third, &table));
    assert!(is_in_range(15, &from_third, &table));
}

#[test]
fn allowlist_cursor_moves_forward_with_the_matches() {
    let allowed = vec![range(0, 1), range(4, 5), range(9, 12)];
    let mut cursor = 0;
    assert!(check_allowed_range_optimized(0, 1, &allowed, &mut cursor));
    assert_eq!(cursor, 0);
    assert!(!check_allowed_range_optimized(2, 3, &allowed, &mut cursor));
    assert_eq!(cursor, 1);
    assert!(check_allowed_range_optimized(4, 5, &allowed, &mut cursor));
    assert!(!check_allowed_range_optimized(6, 9, &allowed, &mut cursor));
    assert_eq!(cursor, 2);
    assert!(check_allowed_range_optimized(8, 10, &allowed, &mut cursor));
    assert!(!check_allowed_range_optimized(12, 13, &allowed, &mut cursor));
    assert_eq!(cursor, 3);
}

#[test]
fn a_match_that_only_touches_a_range_is_not_allowed() {
    let allowed = vec![range(4, 7)];
    let mut cursor = 0;
    assert!(!check_allowed_range_optimized(0, 4, &allowed, &mut cursor));
    assert!(check_allowed_range_optimized(3, 5, &allowed, &mut cursor));
    assert!(check_allowed_range_optimized(6, 9, &allowed, &mut cursor));
    assert!(!check_allowed_range_optimized(7, 9, &allowed, &mut cursor));
}

#[test]
fn ranges_are_sorted_by_start_then_end() {
    let sorted = sort_ranges(&vec![range(4, 5), range(0, 3), range(4, 4), range(0, 1)]);
    assert_eq!(sorted, vec![range(0, 1), range(0, 3), range(4, 4), range(4, 5)]);
    assert_eq!(sort_ranges(&vec![]), vec![]);
}

#[test]
fn spans_are_replaced_by_the_fixed_text() {
    let spans = vec![span(0, 1), span(2, 3), span(4, 5)];
    let (out, count) = replace_spans(b"x x x", &spans, b"yy", None, 0, &None, &None);
    assert_eq!(out, b"yy yy yy");
    assert_eq!(count, 3);
}

#[test]
fn spans_are_replaced_by_their_own_expansions() {
    let spans = vec![span(0, 1), span(2, 3)];
    let expansions = vec![b"<a>".to_vec(), b"".to_vec()];
    let (out, count) = replace_spans(b"a b", &spans, b"?", Some(&expansions), 0, &None, &None);
    assert_eq!(out, b"<a> ");
    assert_eq!(count, 2);
}

#[test]
fn filters_and_limit_pick_the_spans() {
    let text = b"x\nx\nx\nx\nx";
    let spans = vec![span(0, 1), span(2, 3), span(4, 5), span(6, 7), span(8, 9)];
    let lines = Some(LineRange { start: 2, end: Some(4) });
    let allowed = Some(vec![range(0, 5), range(8, 9)]);
    assert_eq!(count_spans(text, &spans, &lines, &None), 3);
    assert_eq!(count_spans(text, &spans, &None, &allowed), 4);
    assert_eq!(count_spans(text, &spans, &lines, &allowed), 2);
    assert_eq!(count_spans(text, &spans, &None, &None), 5);
    let (out, count) = replace_spans(text, &spans, b"y", None, 1, &lines, &allowed);
    assert_eq!(out, b"x\ny\nx\nx\nx");
    assert_eq!(count, 1);
    let (out, count) = replace_spans(text, &spans, b"y", None, 0, &lines, &allowed);
    assert_eq!(out, b"x\ny\ny\nx\nx");
    assert_eq!(count, 2);
}

#[test]
fn zero_width_spans_insert_the_replacement() {
    let spans = vec![span(0, 0), span(1, 1), span(2, 2)];
    let (out, count) = replace_spans(b"ab", &spans, b"-", None, 0, &None, &None);
    assert_eq!(out, b"-a-b-");
    assert_eq!(count, 3);
}

#[test]
fn no_spans_leave_the_text() {
    let (out, count) = replace_spans(b"abc", &vec![], b"y", None, 0, &None, &None);
    assert_eq!(out, b"abc");
    assert_eq!(count, 0);
}

#[test]
fn literal_occurrences_do_not_overlap() {
    assert_eq!(find_literal_spans(b"aaaa", b"aa"), vec![span(0, 2), span(2, 4)]);
    assert_eq!(find_literal_spans(b"aaa", b"aa"), vec![span(0, 2)]);
    assert_eq!(find_literal_spans(b"abc", b"d"), vec![]);
    assert_eq!(find_literal_spans(b"ab", b""), vec![span(0, 0), span(1, 1), span(2, 2)]);
    assert_eq!(find_literal_spans(b"", b"a"), vec![]);
}

#[test]
fn regex_matches_are_found_in_order() {
    let p = RegexPattern {
        source: "[0-9]+".to_string(),
        case_insensitive: false,
        multi_line: false,
        dot_matches_new_line: false,
        unicode: true,
    };
    match build_matcher("[0-9]+", b"", false, false, false, false, false, false, false, false, false)
    {
        Ok(Matcher::Regex(built)) => assert_eq!(built, p),
        other => panic!("expected a regex matcher, got {:?}", other),
    }
    assert_eq!(find_regex_spans(&p, b"a1 22 b333"), vec![span(1, 2), span(3, 5), span(7, 10)]);
}

#[test]
fn matcher_is_literal_only_for_plain_literal_searches() {
    let literal =
        build_matcher("a.c", b"x", true, false, false, false, false, false, false, false, false);
    assert_eq!(literal.unwrap(), Matcher::Literal(b"a.c".to_vec()));

    let expanding_without_dollar =
        build_matcher("a.c", b"x", true, false, false, false, false, false, false, false, true);
    assert_eq!(expanding_without_dollar.unwrap(), Matcher::Literal(b"a.c".to_vec()));

    let expanding =
        build_matcher("a.c", b"$0", true, false, false, false, false, false, false, false, true);
    match expanding.unwrap() {
        Matcher::Regex(p) => {
            assert_eq!(p.source, "a\\.c");
            assert!(!p.case_insensitive);
            assert!(p.unicode);
        }
        other => panic!("expected a regex matcher, got {:?}", other),
    }

    let word = build_matcher("a+b", b"x", true, false, false, true, true, true, false, true, false);
    match word.unwrap() {
        Matcher::Regex(p) => {
            assert_eq!(p.source, "\\ba\\+b\\b");
            assert!(!p.multi_line);
            assert!(!p.dot_matches_new_line);
            assert!(!p.unicode);
        }
        other => panic!("expected a regex matcher, got {:?}", other),
    }

    let smart = build_matcher("abc", b"x", false, false, true, false, true, false, true, false, false);
    match smart.unwrap() {
        Matcher::Regex(p) => {
            assert_eq!(p.source, "abc");
            assert!(p.case_insensitive);
            assert!(p.multi_line);
            assert!(p.dot_matches_new_line);
        }
        other => panic!("expected a regex matcher, got {:?}", other),
    }

    let smart_upper =
        build_matcher("aBc", b"x", false, false, true, false, false, false, false, false, false);
    match smart_upper.unwrap() {
        Matcher::Regex(p) => assert!(!p.case_insensitive),
        other => panic!("expected a regex matcher, got {:?}", other),
    }
}

#[test]
fn uppercase_is_found_beyond_ascii() {
    assert!(contains_uppercase("aBc"));
    assert!(contains_uppercase("éÉ"));
    assert!(!contains_uppercase("abc é 1 _"));
    assert!(!contains_uppercase(""));
}

#[test]
fn bytes_are_found() {
    assert!(contains_byte(b"a$b", b'$'));
    assert!(!contains_byte(b"ab", b'$'));
    assert!(!contains_byte(b"", 0));
}

use txed::diff::{diff_changes, generate_diff, render_diff, ChangeTag, LineChange};
use txed::error::{Error, ErrorCode, FailedJobs};
use txed::events::{file_event, report_events, Event, FileEvent, Policies, SkipReason};
use txed::model::{Pipeline, Transaction};
use txed::reporter::{FileResult, Report};

fn line(tag: ChangeTag, text: &str) -> LineChange {
    LineChange {
        tag,
        text: text.to_string(),
        missing_newline: !text.ends_with('\n') && !text.ends_with('\r'),
    }
}

#[test]
fn diff_lists_kept_deleted_and_inserted_lines() {
    let changes = diff_changes("a\nb\nc\n", "a\nx\nc\n");
    assert_eq!(
        changes,
        vec![
            line(ChangeTag::Equal, "a\n"),
            line(ChangeTag::Delete, "b\n"),
            line(ChangeTag::Insert, "x\n"),
            line(ChangeTag::Equal, "c\n"),
        ]
    );
    assert_eq!(render_diff(&changes), " a\n-b\n+x\n c\n");
}

#[test]
fn diff_leads_from_the_old_text_to_the_new() {
    let cases = [
        ("", "a"),
        ("a", ""),
        ("foo\nbar", "foo\nbaz"),
        ("foo\r\nbar\r\n", "baz\r\nbar\r\n"),
        ("one\ntwo\nthree\n", "three\ntwo\none\n"),
    ];
    for (old, new) in cases {
        let changes = diff_changes(old, new);
        let before: String = changes
            .iter()
            .filter(|c| c.tag != ChangeTag::Insert)
            .map(|c| c.text.as_str())
            .collect();
        let after: String = changes
            .iter()
            .filter(|c| c.tag != ChangeTag::Delete)
            .map(|c| c.text.as_str())
            .collect();
        assert_eq!(before, old);
        assert_eq!(after, new);
    }
}

#[test]
fn rendered_diff_ends_each_line() {
    assert_eq!(generate_diff("foo\nbar", "foo\nbaz").as_deref(), Some(" foo\n-bar\n+baz\n"));
    assert_eq!(
        generate_diff("foo\r\nbar\r\n", "baz\r\nbar\r\n").as_deref(),
        Some("-foo\r\n+baz\r\n bar\r\n")
    );
    assert_eq!(generate_diff("same", "same"), None);
    assert_eq!(generate_diff("", ""), None);
}

#[test]
fn report_adds_up_its_outcomes() {
    let mut report = Report::new(true, false);
    assert_eq!(report.total, 0);
    assert!(report.dry_run);
    assert!(!report.validate_only);
    assert!(!report.committed);
    assert_eq!(report.duration_ms, 0);
    report.add_result(FileResult::processed("a".into(), true, 3, None, None, false));
    report.add_result(FileResult::processed("b".into(), false, 0, None, None, false));
    report.add_result(FileResult::skipped("c".into(), SkipReason::Binary));
    assert_eq!(report.total, 3);
    assert_eq!(report.modified, 1);
    assert_eq!(report.replacements, 3);
    assert!(!report.has_errors);
    assert_eq!(report.exit_code(), 0);
    report.add_result(FileResult::failed("d".into(), &Error::Io("gone".into()), false));
    assert_eq!(report.total, 4);
    assert!(report.has_errors);
    assert_eq!(report.exit_code(), 1);
    assert_eq!(report.files[3].error.as_deref(), Some("I/O error: gone"));
    assert_eq!(report.files[3].error_code, Some(ErrorCode::Io));
    assert_eq!(report.files.iter().map(|f| f.path.as_str()).collect::<Vec<_>>(), ["a", "b", "c", "d"]);
}

#[test]
fn replacement_total_stops_at_the_largest_number() {
    let mut report = Report::new(false, false);
    report.add_result(FileResult::processed("a".into(), true, usize::MAX - 1, None, None, false));
    report.add_result(FileResult::processed("b".into(), true, 5, None, None, false));
    assert_eq!(report.replacements, usize::MAX);
    assert_eq!(report.modified, 2);
}

#[test]
fn exit_code_ranks_partial_application_first() {
    let mut report = Report::new(false, false);
    assert_eq!(report.exit_code(), 0);
    report.has_errors = true;
    assert_eq!(report.exit_code(), 1);
    report.policy_violation = Some("v".into());
    assert_eq!(report.exit_code(), 2);
    report.partially_applied = true;
    assert_eq!(report.exit_code(), 3);
}

#[test]
fn outcomes_become_records() {
    let ok = FileResult::processed("a".into(), true, 2, Some("-a\n+b\n".into()), None, false);
    assert_eq!(
        file_event(&ok),
        FileEvent::Success {
            path: "a".into(),
            modified: true,
            replacements: 2,
            diff: Some("-a\n+b\n".into()),
            generated_content: None,
            diff_is_binary: false,
            is_virtual: false,
        }
    );
    let skipped = FileResult::skipped("b".into(), SkipReason::Symlink);
    assert_eq!(
        file_event(&skipped),
        FileEvent::Skipped { path: "b".into(), reason: SkipReason::Symlink }
    );
    let failed = FileResult::failed("c".into(), &Error::Regex("bad".into()), false);
    assert_eq!(
        file_event(&failed),
        FileEvent::Error {
            path: "c".into(),
            code: ErrorCode::Regex,
            message: "Invalid regex: bad".into()
        }
    );
    let mut uncoded = FileResult::refused("d".into(), "odd", ErrorCode::Io);
    uncoded.error_code = None;
    assert_eq!(
        file_event(&uncoded),
        FileEvent::Error { path: "d".into(), code: ErrorCode::Unknown, message: "odd".into() }
    );
}

#[test]
fn event_stream_frames_the_files() {
    let mut report = Report::new(true, false);
    report.add_result(FileResult::processed("a".into(), true, 1, None, None, false));
    report.add_result(FileResult::skipped("b".into(), SkipReason::GlobExclude));
    report.policy_violation = Some("No matches found (--require-match)".into());
    report.duration_ms = 12;
    let mut pipeline = Pipeline::default();
    pipeline.dry_run = true;
    pipeline.no_write = true;
    pipeline.transaction = Transaction::File;
    pipeline.expect = Some(4);
    pipeline.fail_on_change = true;
    let events = report_events(&report, &pipeline, "1.2.3", "cli", "args");
    assert_eq!(events.len(), 4);
    match &events[0] {
        Event::RunStart(start) => {
            assert_eq!(start.schema_version, "1");
            assert_eq!(start.tool_version, "1.2.3");
            assert_eq!(start.mode, "cli");
            assert_eq!(start.input_mode, "args");
            assert_eq!(start.transaction_mode, "file");
            assert!(start.dry_run);
            assert!(!start.validate_only);
            assert!(start.no_write);
            assert_eq!(
                start.policies,
                Policies { require_match: false, expect: Some(4), fail_on_change: true }
            );
        }
        other => panic!("expected the start record, got {:?}", other),
    }
    assert_eq!(events[1], Event::File(file_event(&report.files[0])));
    assert_eq!(events[2], Event::File(file_event(&report.files[1])));
    match &events[3] {
        Event::RunEnd(end) => {
            assert_eq!(end.total_files, 2);
            assert_eq!(end.total_processed, 2);
            assert_eq!(end.total_modified, 1);
            assert_eq!(end.total_replacements, 1);
            assert!(!end.has_errors);
            assert_eq!(
                end.policy_violation.as_deref(),
                Some("No matches found (--require-match)")
            );
            assert!(!end.committed);
            assert_eq!(end.duration_ms, 12);
            assert_eq!(end.exit_code, 2);
        }
        other => panic!("expected the end record, got {:?}", other),
    }
    let all = report_events(&Report::new(false, false), &Pipeline::default(), "v", "apply", "x");
    match &all[0] {
        Event::RunStart(start) => assert_eq!(start.transaction_mode, "all"),
        other => panic!("expected the start record, got {:?}", other),
    }
}

#[test]
fn codes_and_messages_are_stable() {
    let cases: Vec<(Error, &str, &str)> = vec![
        (Error::Regex("x".into()), "E_REGEX", "Invalid regex: x"),
        (Error::Io("x".into()), "E_IO", "I/O error: x"),
        (Error::NotFound("x".into()), "E_NOT_FOUND", "I/O error: x"),
        (Error::Persist("x".into()), "E_IO", "Failed to persist temporary file: x"),
        (Error::InvalidReplacement("x".into()), "E_VALIDATION", "Invalid replacement pattern: x"),
        (
            Error::AmbiguousReplacement("x".into()),
            "E_AMBIGUOUS_REPLACEMENT",
            "Ambiguous replacement pattern: x",
        ),
        (Error::Validation("x".into()), "E_VALIDATION", "Validation error: x"),
        (Error::InvalidUtf8("x".into()), "E_UTF8", "Validation error: x"),
        (Error::NoInputSources, "E_VALIDATION", "No input sources specified"),
        (Error::InputScopeConflict("x".into()), "E_VALIDATION", "Input scope conflict: x"),
        (Error::OutputModeConflict("x".into()), "E_VALIDATION", "Output mode conflict: x"),
        (Error::FeatureNotEnabled("x".into()), "E_UNKNOWN", "Feature not enabled: x"),
        (Error::InvalidPath("x".into()), "E_IO", "Invalid path: x"),
        (
            Error::TransactionFailure("x".into()),
            "E_TRANSACTION",
            "Transaction failed (partial application): x",
        ),
        (
            Error::FailedJobs(FailedJobs(vec![
                ("a".into(), "gone".into()),
                ("b".into(), "locked".into()),
            ])),
            "E_UNKNOWN",
            "Failed to process files: 2 files failed\n  a: gone\n  b: locked",
        ),
    ];
    for (error, code, message) in cases {
        assert_eq!(error.code().as_str(), code);
        assert_eq!(error.message(), message);
    }
    assert_eq!(FailedJobs(vec![]).message(), "0 files failed");
}

#[test]
fn report_for_a_reader_lists_the_files() {
    let mut report = Report::new(true, false);
    report.add_result(FileResult::processed(
        "a.txt".into(),
        true,
        12,
        Some("-a\n+b\n".into()),
        None,
        false,
    ));
    report.add_result(FileResult::processed("b.txt".into(), false, 0, None, None, false));
    report.add_result(FileResult::skipped("c.bin".into(), SkipReason::Binary));
    report.add_result(FileResult::failed("d.txt".into(), &Error::Io("gone".into()), false));
    report.policy_violation = Some("Changes detected in 1 files (--fail-on-change)".into());
    let human = report.render_human();
    assert_eq!(
        human.out,
        "DRY RUN - No files were written.\n\
         Processed 4 files, modified 1, 12 replacements.\n  \
         a.txt: modified (12 replacements)\n-a\n+b\n\n  \
         b.txt: no changes\n  \
         c.bin: skipped (binary file)\n"
    );
    assert_eq!(
        human.err,
        "Policy Error: Changes detected in 1 files (--fail-on-change)\n  d.txt: ERROR - I/O error: gone\n"
    );
    let summary = report.render_summary();
    assert_eq!(
        summary.out,
        "DRY RUN - No files were written.\n\
         Processed 4 files, modified 1, 12 replacements.\n  \
         a.txt: modified (12 replacements)\n  \
         b.txt: no changes\n  \
         c.bin: skipped (binary file)\n"
    );
    assert_eq!(summary.err, human.err);
    let quiet = report.render_errors_only();
    assert_eq!(quiet.out, "");
    assert_eq!(quiet.err, human.err);
    assert_eq!(
        report.render_agent(),
        "<file path=\"a.txt\">\n-a\n+b\n\n</file>\n\
         <file path=\"b.txt\">\n(no changes)\n</file>\n\
         <file path=\"c.bin\">\nSKIPPED: binary file\n</file>\n\
         <file path=\"d.txt\">\nERROR: I/O error: gone\n</file>\n"
    );
}

#[test]
fn generated_text_goes_to_standard_output_alone() {
    let mut report = Report::new(false, true);
    report.add_result(FileResult::processed(
        "<stdin>".into(),
        true,
        1,
        None,
        Some("hello there\n".into()),
        true,
    ));
    report.add_result(FileResult::failed("<stdin>".into(), &Error::Regex("bad".into()), true));
    let human = report.render_human();
    assert_eq!(human.out, "hello there\n");
    assert_eq!(
        human.err,
        "ERROR: Invalid regex: bad\n\
         VALIDATION RUN - No files were written.\n\
         Processed 2 files, modified 1, 1 replacements.\n"
    );
    let quiet = report.render_errors_only();
    assert_eq!(quiet.out, "hello there\n");
    assert_eq!(quiet.err, "  <stdin>: ERROR - Invalid regex: bad\n");
    let mut plain = Report::new(false, false);
    plain.add_result(FileResult::processed("a".into(), true, 1, None, None, false));
    assert_eq!(plain.render_human().out, "Processed 1 files, modified 1, 1 replacements.\n  a: modified (1 replacements)\n");
    assert_eq!(plain.render_agent(), "<file path=\"a\">\n(modified)\n</file>\n");
}

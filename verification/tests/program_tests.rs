use txed::error::{Error, ErrorCode};
use txed::events::{report_events, Event as Record, FileEvent};
use txed::input::InputItem;
use txed::model::{Operation, Pipeline, ValidationMode};
use txed::policy::enforce_pre_execution;
use txed::render::Rendered;
use txed::run::{Action, Event, Run};

/// What a run of the program leaves behind.
struct Outcome {
    code: i32,
    out: String,
    err: String,
    records: Vec<Record>,
}

/// The pipeline that the arguments `FIND REPLACE` stand for.
fn pipeline(find: &str, replace: &str, regex: bool) -> Pipeline {
    Pipeline {
        operations: vec![Operation::Replace {
            find: find.into(),
            with: replace.into(),
            literal: !regex,
            ignore_case: false,
            smart_case: false,
            word: false,
            multiline: false,
            dot_matches_newline: false,
            no_unicode: false,
            limit: 0,
            range: None,
            expand: false,
            validation_mode: ValidationMode::Strict,
        }],
        ..Default::default()
    }
}

/// Runs the pipeline as the program does; files do not exist.
fn run(pipeline: Pipeline, inputs: Vec<InputItem>, input_mode: &str) -> Outcome {
    let mut stated = pipeline.clone();
    enforce_pre_execution(&mut stated);
    let mut run = match Run::new(pipeline, inputs, "/work") {
        Ok(run) => run,
        Err(e) => {
            return Outcome {
                code: 1,
                out: String::new(),
                err: format!("Error: {}\n", e.message()),
                records: Vec::new(),
            }
        }
    };
    let mut action = run.step(Event::Start);
    loop {
        let event = match action {
            Action::Finish => break,
            Action::Probe { .. } => Event::Probed { is_symlink: false },
            Action::Read { path } => Event::Failed {
                error: Error::NotFound(format!("{}: No such file or directory", path)),
            },
            other => panic!("a run without files asked for {:?}", other),
        };
        action = run.step(event);
    }
    let report = run.finish().unwrap();
    let Rendered { out, err } = report.render_human();
    let records = report_events(&report, &stated, "0.1.0", "cli", input_mode);
    Outcome { code: report.exit_code(), out, err, records }
}

fn run_text(pipeline: Pipeline, stdin: &str) -> Outcome {
    run(pipeline, vec![InputItem::StdinText(stdin.to_string())], "stdin-text")
}

fn file_record(outcome: &Outcome) -> &FileEvent {
    match &outcome.records[1] {
        Record::File(file) => file,
        other => panic!("expected the record of a file, got {:?}", other),
    }
}

fn generated_content(outcome: &Outcome) -> Option<String> {
    match file_record(outcome) {
        FileEvent::Success { generated_content, .. } => generated_content.clone(),
        other => panic!("expected a success, got {:?}", other),
    }
}

#[test]
fn cli_args_test_validate_only_no_files() {
    let mut p = pipeline("foo", "bar", false);
    p.validate_only = true;
    let outcome = run(p, vec![], "args");
    assert_ne!(outcome.code, 0);
    assert!(outcome.err.contains("No input sources specified"));
}

#[test]
fn cli_tests_test_validate_only_no_files() {
    let mut p = pipeline("foo", "bar", false);
    p.validate_only = true;
    let outcome = run(p, vec![], "args");
    assert_ne!(outcome.code, 0);
    assert!(outcome.err.contains("No input sources specified"));
}

#[test]
fn cli_args_test_stdin_text() {
    let outcome = run_text(pipeline("foo", "bar", false), "hello foo world");
    assert_eq!(outcome.code, 0);
    assert!(outcome.out.contains("hello bar world"));
}

#[test]
fn cli_tests_test_stdin_text() {
    let outcome = run_text(pipeline("foo", "bar", false), "hello foo world");
    assert_eq!(outcome.code, 0);
    assert!(outcome.out.contains("hello bar world"));
}

#[test]
fn test_exit_code_success_replace() {
    assert_eq!(run_text(pipeline("foo", "bar", false), "foo").code, 0);
}

#[test]
fn test_exit_code_no_matches() {
    assert_eq!(run_text(pipeline("foo", "bar", false), "baz").code, 0);
}

#[test]
fn test_exit_code_policy_require_match() {
    let mut p = pipeline("foo", "bar", false);
    p.require_match = true;
    assert_eq!(run_text(p, "baz").code, 2);
}

#[test]
fn test_exit_code_policy_fail_on_change() {
    let mut p = pipeline("foo", "bar", false);
    p.fail_on_change = true;
    assert_eq!(run_text(p, "foo").code, 2);
}

#[test]
fn test_exit_code_error_invalid_regex() {
    let outcome = run_text(pipeline("p(", "bar", true), "foo");
    assert_eq!(outcome.code, 1);
    match file_record(&outcome) {
        FileEvent::Error { code, .. } => assert_eq!(*code, ErrorCode::Regex),
        other => panic!("expected an error, got {:?}", other),
    }
}

#[test]
fn test_exit_code_io_error() {
    let outcome = run(
        pipeline("foo", "bar", false),
        vec![InputItem::Path("/non/existent/file".into())],
        "args",
    );
    assert_eq!(outcome.code, 1);
}

#[test]
fn test_json_stdin_text() {
    let outcome = run_text(pipeline("hello", "goodbye", false), "hello world");
    match &outcome.records[0] {
        Record::RunStart(start) => assert_eq!(start.input_mode, "stdin-text"),
        other => panic!("expected the start record, got {:?}", other),
    }
    match file_record(&outcome) {
        FileEvent::Success { path, modified, .. } => {
            assert_eq!(path, "<stdin>");
            assert!(*modified);
        }
        other => panic!("expected a success, got {:?}", other),
    }
}

#[test]
fn test_json_v1_fields_file_is_virtual() {
    let outcome = run_text(pipeline("hello", "goodbye", false), "hello world");
    match file_record(&outcome) {
        FileEvent::Success { is_virtual, diff_is_binary, .. } => {
            assert!(*is_virtual);
            assert!(!*diff_is_binary);
        }
        other => panic!("expected a success, got {:?}", other),
    }
}

#[test]
fn test_json_v1_fields_error_code() {
    let outcome = run(
        pipeline("hello", "goodbye", false),
        vec![InputItem::Path("/tmp/missing/test.txt".into())],
        "args",
    );
    match file_record(&outcome) {
        FileEvent::Error { code, .. } => assert_eq!(code.as_str(), "E_NOT_FOUND"),
        other => panic!("expected an error, got {:?}", other),
    }
}

#[test]
fn test_output_streams_stdin_text_human() {
    let outcome = run_text(pipeline("foo", "bar", false), "foo");
    assert_eq!(outcome.code, 0);
    assert_eq!(outcome.out, "bar");
    assert!(outcome.err.contains("Processed 1 files"));
}

#[test]
fn test_output_streams_stdin_text_json() {
    let outcome = run_text(pipeline("foo", "bar", false), "foo");
    assert_eq!(outcome.code, 0);
    assert_eq!(generated_content(&outcome).as_deref(), Some("bar"));
}

#[test]
fn test_stdin_text_json_output() {
    let outcome = run_text(pipeline("foo", "bar", false), "hello foo world");
    assert_eq!(outcome.code, 0);
    assert_eq!(generated_content(&outcome).as_deref(), Some("hello bar world"));
}

#[test]
fn test_stdin_text_json_no_change() {
    let outcome = run_text(pipeline("zzz", "bar", false), "hello foo world");
    assert_eq!(outcome.code, 0);
    assert_eq!(generated_content(&outcome).as_deref(), Some("hello foo world"));
}

use txed::args::{parse_number, parse_range, resolve_permissions, PermissionsChoice};
use txed::error::{Error, ErrorCode};
use txed::input::{
    path_items, paths_from_lines, paths_from_nul_records, resolve_input_mode, InputItem, InputMode,
    InputSource,
};
use txed::model::{
    BinaryFileMode, LineRange, Operation, PermissionsMode, Pipeline, ReplacementRange, Symlinks,
    Transaction, ValidationMode,
};
use txed::rgjson::{
    match_ranges, ndjson_frames, order_of, stream_rg_json_ndjson, DeinterleavingSink, Order,
    RgData, RgKind, RgMessage, RgSink, RgSubmatch, RgTextOrBytes,
};
use txed::text::{decimal, digits_to_string};
use txed::write::{file_mode, resolve_symlink, WriteOptions};

#[test]
fn input_mode_follows_the_flags_in_their_rank() {
    let files = vec!["a".to_string(), "b".to_string()];
    assert_eq!(resolve_input_mode(true, true, true, true, true, &files), InputMode::StdinText);
    assert_eq!(resolve_input_mode(true, true, false, true, true, &files), InputMode::RipgrepJson);
    assert_eq!(resolve_input_mode(true, true, false, false, true, &files), InputMode::StdinPathsNul);
    assert_eq!(
        resolve_input_mode(true, false, false, false, true, &files),
        InputMode::StdinPathsNewline
    );
    assert_eq!(
        resolve_input_mode(false, false, false, false, true, &files),
        InputMode::Auto(files.clone())
    );
    assert_eq!(
        resolve_input_mode(false, false, false, false, false, &files),
        InputMode::Auto(files.clone())
    );
}

#[test]
fn inputs_fall_back_to_standard_input_when_it_is_a_pipe() {
    let files = vec!["a".to_string()];
    assert_eq!(InputMode::Auto(files.clone()).source(true), InputSource::Paths(files.clone()));
    assert_eq!(InputMode::Auto(files.clone()).source(false), InputSource::Paths(files));
    assert_eq!(InputMode::Auto(vec![]).source(true), InputSource::StdinLines);
    assert_eq!(InputMode::Auto(vec![]).source(false), InputSource::Nothing);
    assert_eq!(InputMode::StdinPathsNewline.source(false), InputSource::StdinLines);
    assert_eq!(InputMode::StdinPathsNul.source(false), InputSource::StdinRecords);
    assert_eq!(InputMode::StdinText.source(false), InputSource::StdinText);
    assert_eq!(InputMode::RipgrepJson.source(true), InputSource::StdinJson);
}

#[test]
fn paths_come_one_per_line() {
    assert_eq!(paths_from_lines(b"a.txt\nb.txt\n").unwrap(), ["a.txt", "b.txt"]);
    assert_eq!(paths_from_lines(b"a.txt\r\n\r\n\nb c.txt").unwrap(), ["a.txt", "b c.txt"]);
    assert_eq!(paths_from_lines(b"\n\n").unwrap(), Vec::<String>::new());
    assert_eq!(paths_from_lines(b"").unwrap(), Vec::<String>::new());
    assert_eq!(paths_from_lines(" \né\n".as_bytes()).unwrap(), [" ", "é"]);
    match paths_from_lines(b"ok\n\xff\n") {
        Err(e) => {
            assert_eq!(e.code(), ErrorCode::Utf8);
            assert_eq!(e.message(), "Validation error: Invalid UTF-8 in path");
        }
        Ok(paths) => panic!("invalid UTF-8 was read as {:?}", paths),
    }
}

#[test]
fn paths_come_ended_by_nul() {
    assert_eq!(paths_from_nul_records(b"a.txt\0b\nc.txt\0").unwrap(), ["a.txt", "b\nc.txt"]);
    assert_eq!(paths_from_nul_records(b"\0\0a\0\0b").unwrap(), ["a", "b"]);
    assert_eq!(paths_from_nul_records(b"").unwrap(), Vec::<String>::new());
    assert!(matches!(paths_from_nul_records(b"a\0\xc3\0"), Err(Error::InvalidUtf8(_))));
}

#[test]
fn paths_become_inputs_in_order() {
    assert_eq!(
        path_items(vec!["a".into(), "b".into()]),
        vec![InputItem::Path("a".into()), InputItem::Path("b".into())]
    );
}

#[test]
fn line_ranges_are_read() {
    assert_eq!(parse_range("40"), Some(LineRange { start: 40, end: Some(40) }));
    assert_eq!(parse_range("2:3"), Some(LineRange { start: 2, end: Some(3) }));
    assert_eq!(parse_range("3:"), Some(LineRange { start: 3, end: None }));
    assert_eq!(parse_range("+7:+9"), Some(LineRange { start: 7, end: Some(9) }));
    assert_eq!(parse_range("1:2:x"), Some(LineRange { start: 1, end: Some(2) }));
    assert_eq!(parse_range("1::"), Some(LineRange { start: 1, end: None }));
    assert_eq!(parse_range(""), None);
    assert_eq!(parse_range(":3"), None);
    assert_eq!(parse_range("a"), None);
    assert_eq!(parse_range("1:b"), None);
    assert_eq!(parse_range("-1"), None);
    assert_eq!(parse_range(" 1"), None);
    assert_eq!(parse_range("+"), None);
    assert_eq!(parse_range("99999999999999999999999999"), None);
    assert_eq!(
        parse_range("18446744073709551615"),
        Some(LineRange { start: usize::MAX, end: Some(usize::MAX) })
    );
    assert_eq!(parse_range("18446744073709551616"), None);
}

#[test]
fn numbers_are_read_in_their_radix() {
    assert_eq!(parse_number(b"755", 8, u32::MAX as u64), Some(0o755));
    assert_eq!(parse_number(b"0", 8, 10), Some(0));
    assert_eq!(parse_number(b"8", 8, 100), None);
    assert_eq!(parse_number(b"12", 10, 11), None);
    assert_eq!(parse_number(b"12", 10, 12), Some(12));
    assert_eq!(parse_number(b"", 10, 12), None);
    assert_eq!(parse_number(b"007", 10, 12), Some(7));
}

#[test]
fn permissions_follow_the_mode_argument() {
    assert_eq!(resolve_permissions(Some("644"), None), Ok(Some(PermissionsMode::Fixed(0o644))));
    assert_eq!(
        resolve_permissions(Some("755"), Some(PermissionsChoice::Preserve)),
        Ok(Some(PermissionsMode::Fixed(0o755)))
    );
    assert_eq!(resolve_permissions(None, None), Ok(None));
    assert_eq!(resolve_permissions(None, Some(PermissionsChoice::Preserve)), Ok(None));
    assert_eq!(
        resolve_permissions(None, Some(PermissionsChoice::Fixed)),
        Err(Error::Validation(
            "--mode <OCTAL> is required when --permissions fixed is used".into()
        ))
    );
    assert_eq!(
        resolve_permissions(Some("9"), None),
        Err(Error::Validation("Invalid octal mode".into()))
    );
    assert_eq!(
        resolve_permissions(Some("77777777777"), None),
        Err(Error::Validation("Invalid octal mode".into()))
    );
    assert_eq!(
        resolve_permissions(Some("37777777777"), None),
        Ok(Some(PermissionsMode::Fixed(u32::MAX)))
    );
}

#[test]
fn write_decisions_follow_the_options() {
    let follow = WriteOptions::default();
    assert!(!follow.no_follow_symlinks);
    assert_eq!(follow.permissions, PermissionsMode::Preserve);
    let stay = WriteOptions { no_follow_symlinks: true, permissions: PermissionsMode::Fixed(0o600) };
    assert_eq!(resolve_symlink("link", true, "/real/file", &follow), "/real/file");
    assert_eq!(resolve_symlink("link", true, "/real/file", &stay), "link");
    assert_eq!(resolve_symlink("file", false, "/real/file", &follow), "file");
    assert_eq!(file_mode(PermissionsMode::Preserve, Some(0o644)), Some(0o644));
    assert_eq!(file_mode(PermissionsMode::Preserve, None), None);
    assert_eq!(file_mode(PermissionsMode::Fixed(0o600), Some(0o644)), Some(0o600));
    assert_eq!(file_mode(PermissionsMode::Fixed(0o600), None), Some(0o600));
}

#[test]
fn defaults_are_the_safe_modes() {
    assert_eq!(Transaction::default(), Transaction::All);
    assert_eq!(Symlinks::default(), Symlinks::Follow);
    assert_eq!(BinaryFileMode::default(), BinaryFileMode::Skip);
    assert_eq!(PermissionsMode::default(), PermissionsMode::Preserve);
    assert_eq!(ValidationMode::default(), ValidationMode::Strict);
    let p = Pipeline::default();
    assert!(p.files.is_empty());
    assert!(p.operations.is_empty());
    assert!(!p.dry_run && !p.no_write && !p.require_match && !p.fail_on_change);
    assert!(!p.validate_only);
    assert_eq!(p.expect, None);
    assert_eq!(p.glob_include, None);
    assert_eq!(p.glob_exclude, None);
}

#[test]
fn replace_pipeline_holds_one_regex_operation() {
    let p = Pipeline::replace(vec!["a.txt".into()], "f(o+)".into(), "b".into());
    assert_eq!(p.files, ["a.txt"]);
    assert_eq!(
        p.operations,
        vec![Operation::Replace {
            find: "f(o+)".into(),
            with: "b".into(),
            literal: false,
            ignore_case: false,
            smart_case: false,
            word: false,
            multiline: false,
            dot_matches_newline: false,
            no_unicode: false,
            limit: 0,
            range: None,
            expand: false,
            validation_mode: ValidationMode::Strict,
        }]
    );
    assert_eq!(p.transaction, Transaction::All);
    assert!(!p.dry_run);
}

#[test]
fn numbers_are_spelled_in_decimal() {
    assert_eq!(decimal(0), "0");
    assert_eq!(decimal(7), "7");
    assert_eq!(decimal(10), "10");
    assert_eq!(decimal(120), "120");
    assert_eq!(decimal(usize::MAX), usize::MAX.to_string());
    assert_eq!(digits_to_string(b"0042"), "0042");
    assert_eq!(digits_to_string(b""), "");
}

fn text(t: &str) -> Option<RgTextOrBytes> {
    Some(RgTextOrBytes::Text { text: t.to_string() })
}

fn message(kind: RgKind, path: Option<RgTextOrBytes>, offset: Option<u64>, subs: &[(u64, u64)]) -> RgMessage {
    RgMessage {
        kind,
        data: Some(RgData {
            path,
            lines: None,
            line_number: None,
            absolute_offset: offset,
            submatches: subs.iter().map(|(s, e)| RgSubmatch { m: None, start: *s, end: *e }).collect(),
        }),
    }
}

#[test]
fn base64_paths_are_decoded() {
    let plain = RgTextOrBytes::Text { text: "é.txt".into() };
    assert_eq!(plain.as_bytes().unwrap(), "é.txt".as_bytes());
    assert_eq!(plain.as_string_lossy().unwrap(), "é.txt");
    let coded = RgTextOrBytes::Bytes { bytes: "Zm9v/2Jhcg==".into() };
    assert_eq!(coded.as_bytes().unwrap(), b"foo\xffbar");
    assert_eq!(coded.as_string_lossy().unwrap(), "foo\u{fffd}bar");
    let broken = RgTextOrBytes::Bytes { bytes: "!!".into() };
    match broken.as_bytes() {
        Err(e) => {
            assert_eq!(e.code(), ErrorCode::Validation);
            assert!(e.message().starts_with("Validation error: base64 decode failed: "));
        }
        Ok(bytes) => panic!("broken base64 was decoded to {:?}", bytes),
    }
    assert!(broken.as_string_lossy().is_err());
}

#[test]
fn byte_strings_are_ordered() {
    assert_eq!(order_of(b"a", b"b"), Order::Before);
    assert_eq!(order_of(b"b", b"a"), Order::After);
    assert_eq!(order_of(b"ab", b"ab"), Order::Same);
    assert_eq!(order_of(b"a", b"ab"), Order::Before);
    assert_eq!(order_of(b"ab", b"a"), Order::After);
    assert_eq!(order_of(b"", b""), Order::Same);
    assert_eq!(order_of(b"a\xff", b"b"), Order::Before);
}

#[test]
fn sink_groups_messages_by_path_in_byte_order() {
    let mut sink = DeinterleavingSink::new();
    let messages = vec![
        message(RgKind::Begin, text("b.txt"), None, &[]),
        message(RgKind::Match, text("b.txt"), Some(10), &[(1, 4)]),
        message(RgKind::Match, text("a.txt"), Some(0), &[(0, 3), (5, 8)]),
        message(RgKind::Context, text("b.txt"), Some(20), &[]),
        message(RgKind::Match, None, Some(5), &[(0, 1)]),
        RgMessage { kind: RgKind::Match, data: None },
        message(RgKind::Match, text("b.txt"), None, &[(7, 9)]),
        message(RgKind::Match, text("a.txt"), Some(100), &[(2, 3)]),
        message(RgKind::Summary, None, None, &[]),
    ];
    stream_rg_json_ndjson(messages, &mut sink).unwrap();
    assert!(sink.is_ordered());
    assert_eq!(sink.events.len(), 2);
    assert_eq!(sink.events[0].path, b"a.txt");
    assert_eq!(sink.events[0].events.len(), 2);
    assert_eq!(sink.events[1].path, b"b.txt");
    assert_eq!(sink.events[1].events.len(), 3);
    assert_eq!(sink.events[1].events[1].absolute_offset, Some(20));
    let items = sink.into_items();
    assert_eq!(
        items,
        vec![
            InputItem::RipgrepMatch {
                path: "a.txt".into(),
                matches: vec![
                    ReplacementRange { start: 0, end: 3 },
                    ReplacementRange { start: 5, end: 8 },
                    ReplacementRange { start: 102, end: 103 },
                ],
            },
            InputItem::RipgrepMatch {
                path: "b.txt".into(),
                matches: vec![ReplacementRange { start: 11, end: 14 }],
            },
        ]
    );
}

#[test]
fn sink_refuses_a_path_with_broken_base64_and_stays_as_it_is() {
    let mut sink = DeinterleavingSink::new();
    sink.handle(message(RgKind::Match, text("a"), Some(0), &[(0, 1)])).unwrap();
    let broken = Some(RgTextOrBytes::Bytes { bytes: "*".into() });
    let result = stream_rg_json_ndjson(
        vec![
            message(RgKind::Match, broken, Some(0), &[(0, 1)]),
            message(RgKind::Match, text("b"), Some(0), &[(0, 1)]),
        ],
        &mut sink,
    );
    assert!(matches!(result, Err(Error::Validation(_))));
    assert_eq!(sink.events.len(), 1);
    assert!(stream_rg_json_ndjson(vec![], &mut sink).is_ok());
    assert_eq!(sink.events.len(), 1);
}

#[test]
fn ranges_that_the_machine_cannot_address_are_left_out() {
    let events = vec![RgData {
        path: None,
        lines: None,
        line_number: None,
        absolute_offset: Some(u64::MAX - 1),
        submatches: vec![
            RgSubmatch { m: None, start: 0, end: 1 },
            RgSubmatch { m: None, start: 1, end: 2 },
        ],
    }];
    assert_eq!(
        match_ranges(&events),
        vec![ReplacementRange { start: usize::MAX - 1, end: usize::MAX }]
    );
    assert_eq!(match_ranges(&vec![]), vec![]);
}

#[test]
fn frames_are_the_lines_without_their_endings() {
    assert_eq!(
        ndjson_frames(b"{\"a\":1}\n\r\n{\"b\":2}\r\n\n{\"c\":3}"),
        vec![b"{\"a\":1}".to_vec(), b"{\"b\":2}".to_vec(), b"{\"c\":3}".to_vec()]
    );
    assert_eq!(ndjson_frames(b"x\r\r\n"), vec![b"x".to_vec()]);
    assert_eq!(ndjson_frames(b"\r\n\r\n"), Vec::<Vec<u8>>::new());
    assert_eq!(ndjson_frames(b""), Vec::<Vec<u8>>::new());
}

//! The event stream that describes a run to a consumer: one record for the
//! start of the run, one for each input, one for the end.

use vstd::prelude::*;
use crate::error::ErrorCode;
use crate::model::{Pipeline, Transaction};
use crate::reporter::{FileResult, Report};

verus! {

/// Why an input was passed over without being read.
#[derive(Debug, Clone, Copy, PartialEq, Eq, Structural)]
pub enum SkipReason {
    Binary,
    Symlink,
    GlobExclude,
    NotModified,
}

impl SkipReason {
    pub open spec fn text(self) -> Seq<char> {
        match self {
            SkipReason::Binary => "binary file"@,
            SkipReason::Symlink => "symlink"@,
            SkipReason::GlobExclude => "glob exclude"@,
            SkipReason::NotModified => "not modified"@,
        }
    }

    /// The reason as the human report words it.
    pub fn as_str(self) -> (s: &'static str)
        ensures
            s@ == self.text(),
    {
        match self {
            SkipReason::Binary => "binary file",
            SkipReason::Symlink => "symlink",
            SkipReason::GlobExclude => "glob exclude",
            SkipReason::NotModified => "not modified",
        }
    }
}

/// One record of the event stream.
#[derive(Debug, Clone, PartialEq, Eq)]
pub enum Event {
    RunStart(RunStart),
    File(FileEvent),
    RunEnd(RunEnd),
}

/// How the run was set up.
#[derive(Debug, Clone, PartialEq, Eq)]
pub struct RunStart {
    pub schema_version: String,
    pub tool_version: String,
    /// `cli` or `apply`.
    pub mode: String,
    pub input_mode: String,
    /// `all` or `file`.
    pub transaction_mode: String,
    pub dry_run: bool,
    pub validate_only: bool,
    pub no_write: bool,
    pub policies: Policies,
}

/// The policies of the run.
#[derive(Debug, Clone, Copy, PartialEq, Eq)]
pub struct Policies {
    pub require_match: bool,
    pub expect: Option<usize>,
    pub fail_on_change: bool,
}

/// The outcome of one input.
#[derive(Debug, Clone, PartialEq, Eq)]
pub enum FileEvent {
    Success {
        path: String,
        modified: bool,
        replacements: usize,
        diff: Option<String>,
        generated_content: Option<String>,
        diff_is_binary: bool,
        is_virtual: bool,
    },
    Skipped { path: String, reason: SkipReason },
    Error { path: String, code: ErrorCode, message: String },
}

/// The totals of the run.
#[derive(Debug, Clone, PartialEq, Eq)]
pub struct RunEnd {
    pub total_files: usize,
    pub total_processed: usize,
    pub total_modified: usize,
    pub total_replacements: usize,
    pub has_errors: bool,
    pub policy_violation: Option<String>,
    pub committed: bool,
    pub duration_ms: u64,
    pub exit_code: i32,
}

/// The record of an outcome: an error where it holds one, else a skip where
/// it was passed over, else a success. An error without a code is unknown.
pub open spec fn file_event_of(f: FileResult) -> FileEvent {
    if f.error is Some {
        FileEvent::Error {
            path: f.path,
            code: match f.error_code {
                Some(code) => code,
                None => ErrorCode::Unknown,
            },
            message: f.error->0,
        }
    } else if f.skipped is Some {
        FileEvent::Skipped { path: f.path, reason: f.skipped->0 }
    } else {
        FileEvent::Success {
            path: f.path,
            modified: f.modified,
            replacements: f.replacements,
            diff: f.diff,
            generated_content: f.generated_content,
            diff_is_binary: f.diff_is_binary,
            is_virtual: f.is_virtual,
        }
    }
}

/// The totals record of a report.
pub open spec fn run_end_of(report: Report) -> RunEnd {
    RunEnd {
        total_files: report.total,
        total_processed: report.total,
        total_modified: report.modified,
        total_replacements: report.replacements,
        has_errors: report.has_errors,
        policy_violation: report.policy_violation,
        committed: report.committed,
        duration_ms: report.duration_ms,
        exit_code: report.exit_code_of(),
    }
}

/// The name of a transaction mode in the event stream.
pub open spec fn transaction_name(t: Transaction) -> Seq<char> {
    match t {
        Transaction::All => "all"@,
        Transaction::File => "file"@,
    }
}

/// Whether `start` describes a run of `pipeline` under the given names.
pub open spec fn is_run_start_of(
    start: RunStart,
    pipeline: Pipeline,
    tool_version: Seq<char>,
    mode: Seq<char>,
    input_mode: Seq<char>,
) -> bool {
    &&& start.schema_version@ == "1"@
    &&& start.tool_version@ == tool_version
    &&& start.mode@ == mode
    &&& start.input_mode@ == input_mode
    &&& start.transaction_mode@ == transaction_name(pipeline.transaction)
    &&& start.dry_run == pipeline.dry_run
    &&& start.validate_only == pipeline.validate_only
    &&& start.no_write == pipeline.no_write
    &&& start.policies == (Policies {
        require_match: pipeline.require_match,
        expect: pipeline.expect,
        fail_on_change: pipeline.fail_on_change,
    })
}

/// A copy of an optional text.
pub fn clone_text(text: &Option<String>) -> (r: Option<String>)
    ensures
        r == *text,
{
    match text {
        Some(t) => Some(t.clone()),
        None => None,
    }
}

/// The record of one outcome.
pub fn file_event(f: &FileResult) -> (e: FileEvent)
    ensures
        e == file_event_of(*f),
{
    if let Some(message) = &f.error {
        FileEvent::Error {
            path: f.path.clone(),
            code: match f.error_code {
                Some(code) => code,
                None => ErrorCode::Unknown,
            },
            message: message.clone(),
        }
    } else if let Some(reason) = f.skipped {
        FileEvent::Skipped { path: f.path.clone(), reason }
    } else {
        FileEvent::Success {
            path: f.path.clone(),
            modified: f.modified,
            replacements: f.replacements,
            diff: clone_text(&f.diff),
            generated_content: clone_text(&f.generated_content),
            diff_is_binary: f.diff_is_binary,
            is_virtual: f.is_virtual,
        }
    }
}

/// The event stream of a finished run: the start record, the record of each
/// outcome in the order of the report, and the totals.
pub fn report_events(
    report: &Report,
    pipeline: &Pipeline,
    tool_version: &str,
    mode: &str,
    input_mode: &str,
) -> (events: Vec<Event>)
    ensures
        events@.len() == report.files@.len() + 2,
        events@[0] matches Event::RunStart(start) && is_run_start_of(
            start,
            *pipeline,
            tool_version@,
            mode@,
            input_mode@,
        ),
        forall|i: int|
            0 <= i < report.files@.len() ==> #[trigger] events@[i + 1] == Event::File(
                file_event_of(report.files@[i]),
            ),
        events@[report.files@.len() as int + 1] == Event::RunEnd(run_end_of(*report)),
{
    let start = RunStart {
        schema_version: String::from_str("1"),
        tool_version: String::from_str(tool_version),
        mode: String::from_str(mode),
        input_mode: String::from_str(input_mode),
        transaction_mode: String::from_str(
            match pipeline.transaction {
                Transaction::All => "all",
                Transaction::File => "file",
            },
        ),
        dry_run: pipeline.dry_run,
        validate_only: pipeline.validate_only,
        no_write: pipeline.no_write,
        policies: Policies {
            require_match: pipeline.require_match,
            expect: pipeline.expect,
            fail_on_change: pipeline.fail_on_change,
        },
    };
    let mut events: Vec<Event> = Vec::new();
    events.push(Event::RunStart(start));
    let mut i: usize = 0;
    while i < report.files.len()
        invariant
            i <= report.files@.len(),
            events@.len() == i + 1,
            events@[0] matches Event::RunStart(start) && is_run_start_of(
                start,
                *pipeline,
                tool_version@,
                mode@,
                input_mode@,
            ),
            forall|k: int|
                0 <= k < i ==> #[trigger] events@[k + 1] == Event::File(
                    file_event_of(report.files@[k]),
                ),
        decreases report.files.len() - i,
    {
        events.push(Event::File(file_event(&report.files[i])));
        i = i + 1;
    }
    let end = RunEnd {
        total_files: report.total,
        total_processed: report.total,
        total_modified: report.modified,
        total_replacements: report.replacements,
        has_errors: report.has_errors,
        policy_violation: clone_text(&report.policy_violation),
        committed: report.committed,
        duration_ms: report.duration_ms,
        exit_code: report.exit_code(),
    };
    events.push(Event::RunEnd(end));
    events
}

} // verus!

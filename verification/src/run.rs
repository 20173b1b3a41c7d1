//! A run of the engine, step by step.
//!
//! The engine decides; the caller acts. Each step takes what came of the
//! last action and answers with the next one: find out whether a path is a
//! symbolic link, read a file, stage or write new content, commit or
//! discard what was staged. Inputs that need none of this are dealt with
//! between the actions. When the run is finished its report is ready.

use vstd::prelude::*;
use crate::engine::{
    FileStep,
    check_symlink,
    content_to_write,
    is_file_outcome,
    is_step_for,
    is_symlink_outcome,
    is_text_outcome,
    process_file,
    process_text,
    write_options_of,
};
use crate::error::Error;
use crate::events::SkipReason;
use crate::glob::{GlobFilter, build_glob_sets, filter_failure};
use crate::input::InputItem;
use crate::model::{Pipeline, ReplacementRange, Symlinks, Transaction};
use crate::paths::{normalize_path, normalized};
use crate::policy::{PolicyEnforcer, enforce_pre_execution, violation_of};
use crate::reporter::{FileResult, Report};
use crate::write::WriteOptions;
use vstd::utf8::{decode_utf8, encode_utf8};

verus! {

/// What the caller is asked to do.
#[derive(Debug, Clone, PartialEq, Eq)]
pub enum Action {
    /// Find out whether the path is a symbolic link.
    Probe { path: String },
    /// Read the file.
    Read { path: String },
    /// Write the data to a temporary file beside the target, to be renamed
    /// over it when the transaction is committed.
    Stage { path: String, data: Vec<u8>, options: WriteOptions },
    /// Write the data to the target at once, through a temporary file
    /// beside it.
    Write { path: String, data: Vec<u8>, options: WriteOptions },
    /// Rename the staged files over their targets, in the order in which
    /// they were staged.
    Commit { entries: usize },
    /// Remove the staged files.
    Discard { entries: usize },
    /// Nothing more: the run is finished.
    Finish,
}

/// What came of the last action.
#[derive(Debug, Clone, PartialEq, Eq)]
pub enum Event {
    /// No action yet: the run starts.
    Start,
    /// The path was probed.
    Probed { is_symlink: bool },
    /// The file was read.
    Loaded { content: Vec<u8> },
    /// The write, the commit or the discard was done.
    Done,
    /// The read, the write or the discard failed.
    Failed { error: Error },
    /// The commit failed after the first `committed` files had been renamed.
    CommitFailed { committed: usize, error: Error },
}

/// What a run waits for.
#[derive(Debug, Clone, Copy, PartialEq, Eq, Structural)]
pub enum Phase {
    Start,
    Probe,
    Read,
    Stage,
    Write,
    Commit,
    Discard,
    Finished,
}

/// The path of an input that is a file.
pub open spec fn path_of(item: InputItem) -> Option<String> {
    match item {
        InputItem::Path(path) => Some(path),
        InputItem::RipgrepMatch { path, .. } => Some(path),
        InputItem::StdinText(_) => None,
    }
}

/// The allowlist that an input brings with it.
pub open spec fn allowlist_of(item: InputItem) -> Option<Seq<ReplacementRange>> {
    match item {
        InputItem::RipgrepMatch { matches, .. } => Some(matches@),
        _ => None,
    }
}

/// A run of a pipeline over its inputs.
pub struct Run {
    pipeline: Pipeline,
    inputs: Vec<InputItem>,
    cwd: String,
    filter: GlobFilter,
    report: Report,
    /// The number of inputs whose outcome is recorded.
    position: usize,
    phase: Phase,
    /// The paths of the files staged for the commit, in order.
    staged: Vec<String>,
    /// The number of files written through.
    written: usize,
    /// The outcome of the file that is being written, if the write succeeds.
    pending: Option<FileResult>,
    /// The error that ended the run, if one did.
    failure: Option<Error>,
}

/// What is known of a list whose head is another list with one more item.
pub proof fn lemma_take_push(files: Seq<FileResult>, before: Seq<FileResult>, result: FileResult)
    requires
        files.len() > before.len(),
        files.take(before.len() as int + 1) == before.push(result),
    ensures
        files.take(before.len() as int) == before,
        files[before.len() as int] == result,
{
    let head = files.take(before.len() as int + 1);
    assert(head[before.len() as int] == result);
    assert(files.take(before.len() as int) =~= head.take(before.len() as int));
    assert(before.push(result).take(before.len() as int) =~= before);
}

/// The paths in a row, with commas between them; `none` where there are none.
pub open spec fn listed(paths: Seq<String>) -> Seq<char>
    decreases paths.len(),
{
    if paths.len() == 0 {
        "none"@
    } else if paths.len() == 1 {
        paths[0]@
    } else {
        listed(paths.drop_last()) + ", "@ + paths.last()@
    }
}

/// The first `count` paths in a row, with commas between them.
pub fn list_paths(paths: &Vec<String>, count: usize) -> (text: String)
    requires
        count <= paths@.len(),
    ensures
        text@ == listed(paths@.take(count as int)),
{
    if count == 0 {
        return String::from_str("none");
    }
    let mut text = paths[0].clone();
    let mut i: usize = 1;
    proof {
        assert(paths@.take(1).len() == 1);
        assert(paths@.take(1)[0] == paths@[0]);
    }
    while i < count
        invariant
            1 <= i <= count <= paths@.len(),
            text@ == listed(paths@.take(i as int)),
        decreases count - i,
    {
        proof {
            assert(paths@.take(i + 1).drop_last() == paths@.take(i as int));
            assert(paths@.take(i + 1).last() == paths@[i as int]);
        }
        text.append(", ");
        text.append(paths[i].as_str());
        i = i + 1;
    }
    text
}

/// Whether the outcome is that of a path that the glob filter leaves out.
pub open spec fn is_glob_skip(result: FileResult, path: Seq<char>) -> bool {
    &&& result.well_formed()
    &&& result.path@ == path
    &&& result.skipped == Some(SkipReason::GlobExclude)
    &&& result.error is None
}

/// Whether the outcome is that of a file on which an action failed.
pub open spec fn is_failure_of(result: FileResult, path: Seq<char>, error: Error) -> bool {
    &&& result.well_formed()
    &&& result.path@ == path
    &&& result.skipped is None
    &&& result.error matches Some(m) && m@ == error.message_text()
    &&& result.error_code == Some(error.code_of())
}

impl Run {
    pub closed spec fn pipeline(self) -> Pipeline {
        self.pipeline
    }

    pub closed spec fn inputs(self) -> Seq<InputItem> {
        self.inputs@
    }

    pub closed spec fn cwd(self) -> Seq<char> {
        self.cwd@
    }

    pub closed spec fn filter(self) -> GlobFilter {
        self.filter
    }

    pub closed spec fn report(self) -> Report {
        self.report
    }

    /// The number of inputs whose outcome is recorded.
    pub closed spec fn position(self) -> int {
        self.position as int
    }

    pub closed spec fn phase(self) -> Phase {
        self.phase
    }

    /// The number of files staged for the commit.
    pub closed spec fn staged(self) -> int {
        self.staged@.len() as int
    }

    /// The paths of the files staged for the commit, in order.
    pub closed spec fn staged_paths(self) -> Seq<String> {
        self.staged@
    }

    /// The number of files written through.
    pub closed spec fn written(self) -> int {
        self.written as int
    }

    /// The outcome of the file that is being written, if the write succeeds.
    pub closed spec fn pending(self) -> Option<FileResult> {
        self.pending
    }

    /// The error that ended the run, if one did.
    pub closed spec fn failure(self) -> Option<Error> {
        self.failure
    }

    /// Whether the glob filter takes the path.
    pub open spec fn takes(self, path: Seq<char>) -> bool {
        self.filter().selects(
            decode_utf8(normalized(encode_utf8(path), encode_utf8(self.cwd()))),
        )
    }

    /// What holds of a run between its steps.
    pub open spec fn wf(self) -> bool {
        let p = self.pipeline();
        let r = self.report();
        &&& r.consistent()
        &&& r.dry_run == p.dry_run
        &&& r.validate_only == p.validate_only
        &&& r.duration_ms == 0
        &&& p.validate_only ==> p.dry_run
        &&& p.operations@.len() > 0
        &&& self.inputs().len() > 0
        &&& self.filter().built_from(p.glob_include, p.glob_exclude)
        &&& 0 <= self.position() <= self.inputs().len()
        &&& r.files@.len() == self.position()
        &&& 0 <= self.staged() <= self.position()
        &&& 0 <= self.written() <= self.position()
        &&& p.dry_run || p.no_write ==> self.staged() == 0 && self.written() == 0
        &&& p.transaction == Transaction::All ==> self.written() == 0
        &&& p.transaction == Transaction::File ==> self.staged() == 0
        &&& match self.phase() {
            Phase::Start => self.position() == 0 && self.staged() == 0 && self.written() == 0,
            Phase::Probe | Phase::Read => self.position() < self.inputs().len() && path_of(
                self.inputs()[self.position()],
            ) is Some,
            Phase::Stage => self.position() < self.inputs().len() && path_of(
                self.inputs()[self.position()],
            ) is Some && p.transaction == Transaction::All && !p.dry_run && !p.no_write,
            Phase::Write => self.position() < self.inputs().len() && path_of(
                self.inputs()[self.position()],
            ) is Some && p.transaction == Transaction::File && !p.dry_run && !p.no_write,
            Phase::Commit => self.staged() > 0 && !r.has_errors && r.policy_violation is None
                && !p.dry_run,
            Phase::Discard => self.staged() > 0 && (r.has_errors || r.policy_violation is Some),
            Phase::Finished => true,
        }
        &&& (self.phase() is Stage || self.phase() is Write) <==> self.pending() is Some
        &&& self.pending() matches Some(result) ==> result.well_formed() && result.error is None
            && result.path@ == path_of(self.inputs()[self.position()])->0@
        &&& self.phase() != Phase::Finished ==> !r.committed && !r.partially_applied
            && self.failure() is None
        &&& self.phase() != Phase::Finished && self.phase() != Phase::Discard
            ==> r.policy_violation is None
        &&& r.committed ==> p.transaction == Transaction::All && !p.dry_run && !r.has_errors
            && r.policy_violation is None && self.failure() is None
        &&& r.partially_applied ==> !p.dry_run && !p.no_write
    }

    /// Whether the event answers the action that the run waits for.
    pub open spec fn expects(self, event: Event) -> bool {
        match self.phase() {
            Phase::Start => event is Start,
            Phase::Probe => event is Probed,
            Phase::Read => event is Loaded || event is Failed,
            Phase::Stage | Phase::Write => event is Done || event is Failed,
            Phase::Commit => event is Done || (event matches Event::CommitFailed { committed, .. }
                && committed < self.staged()),
            Phase::Discard => event is Done || event is Failed,
            Phase::Finished => false,
        }
    }

    /// Whether the action is the one that a run in this state asks for.
    pub open spec fn asks(self, action: Action) -> bool {
        match self.phase() {
            Phase::Start => false,
            Phase::Probe => action matches Action::Probe { path } && path@ == path_of(
                self.inputs()[self.position()],
            )->0@,
            Phase::Read => action matches Action::Read { path } && path@ == path_of(
                self.inputs()[self.position()],
            )->0@,
            Phase::Stage => action matches Action::Stage { path, .. } && path@ == path_of(
                self.inputs()[self.position()],
            )->0@,
            Phase::Write => action matches Action::Write { path, .. } && path@ == path_of(
                self.inputs()[self.position()],
            )->0@,
            Phase::Commit => action matches Action::Commit { entries } && entries == self.staged(),
            Phase::Discard => action matches Action::Discard { entries } && entries
                == self.staged(),
            Phase::Finished => action is Finish,
        }
    }

    /// Whether `result` is the outcome of an input that needs no action:
    /// a text, or a path that the glob filter leaves out.
    pub open spec fn settles_at_once(self, item: InputItem, result: FileResult) -> bool {
        match item {
            InputItem::StdinText(text) => is_text_outcome(
                result,
                text@,
                self.pipeline().operations@,
                self.pipeline(),
            ),
            _ => !self.takes(path_of(item)->0@) && is_glob_skip(result, path_of(item)->0@),
        }
    }

    /// Whether the run goes no further with its inputs: all of them are
    /// dealt with, or one failed and all changes commit together.
    pub open spec fn is_through(self) -> bool {
        self.position() == self.inputs().len() || (self.pipeline().transaction
            == Transaction::All && self.report().has_errors)
    }

    /// Whether the transaction may be committed: nothing failed, no policy
    /// is violated, and the run is no dry run.
    pub open spec fn may_commit(self) -> bool {
        !self.report().has_errors && self.report().policy_violation is None
            && !self.pipeline().dry_run
    }

    /// Whether the run has drawn its conclusion: the first violated policy
    /// stands in the report, and what was staged is committed or discarded.
    /// Without a transaction the run is finished, and counts as partially
    /// applied where it failed after files had been written.
    pub open spec fn is_concluded(self) -> bool {
        let p = self.pipeline();
        let r = self.report();
        &&& self.is_through()
        &&& match violation_of(p, r.replacements as nat, r.modified as nat) {
            Some(message) => r.policy_violation matches Some(m) && m@ == message,
            None => r.policy_violation is None,
        }
        &&& match p.transaction {
            Transaction::All => if self.staged() > 0 {
                &&& !r.committed
                &&& !r.partially_applied
                &&& self.failure() is None
                &&& self.phase() == if self.may_commit() {
                    Phase::Commit
                } else {
                    Phase::Discard
                }
            } else {
                &&& self.phase() == Phase::Finished
                &&& r.committed == self.may_commit()
                &&& !r.partially_applied
                &&& self.failure() is None
            },
            Transaction::File => {
                &&& self.phase() == Phase::Finished
                &&& !r.committed
                &&& r.partially_applied == (self.written() > 0 && (r.has_errors
                    || r.policy_violation is Some))
                &&& self.failure() is None
            },
        }
    }

    /// Whether `next` is where the run stands after going on from input
    /// `from`, with `staged` files staged and `written` written so far: the
    /// inputs up to where it stands needed no action, and it asks to probe
    /// the next path that the glob filter takes, or has drawn its conclusion.
    pub open spec fn goes_on(self, next: Run, from: int, staged: int, written: int) -> bool {
        let files = next.report().files@;
        &&& from <= next.position()
        &&& next.staged() == staged
        &&& next.written() == written
        &&& forall|k: int|
            from <= k < next.position() ==> self.settles_at_once(
                #[trigger] self.inputs()[k],
                files[k],
            )
        &&& match next.phase() {
            Phase::Probe => !next.is_through() && next.takes(
                path_of(next.inputs()[next.position()])->0@,
            ),
            Phase::Commit | Phase::Discard | Phase::Finished => next.is_concluded(),
            _ => false,
        }
    }

    /// Going on depends on the pipeline, the inputs and the filter alone.
    pub proof fn lemma_goes_on_alike(
        self,
        other: Run,
        next: Run,
        from: int,
        staged: int,
        written: int,
    )
        requires
            self.pipeline() == other.pipeline(),
            self.inputs() == other.inputs(),
            self.cwd() == other.cwd(),
            self.filter() == other.filter(),
            other.goes_on(next, from, staged, written),
        ensures
            self.goes_on(next, from, staged, written),
    {
        let files = next.report().files@;
        assert forall|k: int| from <= k < next.position() implies self.settles_at_once(
            #[trigger] self.inputs()[k],
            files[k],
        ) by {
            assert(other.settles_at_once(other.inputs()[k], files[k]));
        }
    }

    /// Whether `next` and `action` are what the run answers to `event`.
    pub open spec fn follows(self, event: Event, next: Run, action: Action) -> bool {
        let p = self.pipeline();
        let at = self.position();
        let files = next.report().files@;
        &&& next.pipeline() == p
        &&& next.inputs() == self.inputs()
        &&& next.cwd() == self.cwd()
        &&& next.filter() == self.filter()
        &&& files.len() >= at
        &&& files.take(at) == self.report().files@
        &&& match self.phase() {
            Phase::Start => self.goes_on(next, at, 0, 0),
            Phase::Probe => {
                let path = path_of(self.inputs()[at])->0@;
                if event->is_symlink && p.symlinks != Symlinks::Follow {
                    &&& files.len() > at
                    &&& is_symlink_outcome(files[at], path, p.symlinks)
                    &&& self.goes_on(next, at + 1, self.staged(), self.written())
                } else {
                    &&& next.phase() == Phase::Read
                    &&& next.position() == at
                    &&& next.staged() == self.staged()
                    &&& next.written() == self.written()
                }
            },
            Phase::Read => {
                let item = self.inputs()[at];
                let path = path_of(item)->0@;
                match event {
                    Event::Loaded { content } => match content_to_write(
                        content@,
                        p.operations@,
                        p,
                        allowlist_of(item),
                    ) {
                        None => {
                            &&& files.len() > at
                            &&& is_file_outcome(
                                files[at],
                                path,
                                content@,
                                p.operations@,
                                p,
                                allowlist_of(item),
                            )
                            &&& self.goes_on(next, at + 1, self.staged(), self.written())
                        },
                        Some(text) => {
                            &&& next.position() == at
                            &&& next.staged() == self.staged()
                            &&& next.written() == self.written()
                            &&& next.phase() == match p.transaction {
                                Transaction::All => Phase::Stage,
                                Transaction::File => Phase::Write,
                            }
                            &&& next.pending() matches Some(result) && is_file_outcome(
                                result,
                                path,
                                content@,
                                p.operations@,
                                p,
                                allowlist_of(item),
                            )
                            &&& match action {
                                Action::Stage { data, options, .. } => data@ == text && options
                                    == write_options_of(p),
                                Action::Write { data, options, .. } => data@ == text && options
                                    == write_options_of(p),
                                _ => false,
                            }
                        },
                    },
                    Event::Failed { error } => {
                        &&& files.len() > at
                        &&& is_failure_of(files[at], path, error)
                        &&& self.goes_on(next, at + 1, self.staged(), self.written())
                    },
                    _ => false,
                }
            },
            Phase::Stage | Phase::Write => {
                let path = path_of(self.inputs()[at])->0@;
                match event {
                    Event::Done => {
                        &&& files.len() > at
                        &&& files[at] == self.pending()->0
                        &&& self.goes_on(
                            next,
                            at + 1,
                            self.staged() + if self.phase() is Stage {
                                1int
                            } else {
                                0int
                            },
                            self.written() + if self.phase() is Write {
                                1int
                            } else {
                                0int
                            },
                        )
                    },
                    Event::Failed { error } => {
                        &&& files.len() > at
                        &&& is_failure_of(files[at], path, error)
                        &&& self.goes_on(next, at + 1, self.staged(), self.written())
                    },
                    _ => false,
                }
            },
            Phase::Commit => {
                &&& next.phase() == Phase::Finished
                &&& next.report().files == self.report().files
                &&& next.report().policy_violation == self.report().policy_violation
                &&& next.staged() == self.staged()
                &&& match event {
                    Event::Done => next.report().committed && !next.report().partially_applied
                        && next.failure() is None,
                    Event::CommitFailed { committed, error } => {
                        &&& !next.report().committed
                        &&& next.report().partially_applied == (committed > 0)
                        &&& next.failure() matches Some(Error::TransactionFailure(m)) && m@
                            == error.message_text() + "; committed before the failure: "@
                            + listed(self.staged_paths().take(committed as int))
                    },
                    _ => false,
                }
            },
            Phase::Discard => {
                &&& next.phase() == Phase::Finished
                &&& next.report().files == self.report().files
                &&& next.report().policy_violation == self.report().policy_violation
                &&& next.staged() == self.staged()
                &&& !next.report().committed
                &&& !next.report().partially_applied
                &&& next.failure() is None
            },
            Phase::Finished => false,
        }
    }

    /// With what message a run is refused before it starts, if it is: there
    /// are no inputs, no operations, or a glob pattern is refused.
    pub open spec fn refusal(pipeline: Pipeline, inputs: Seq<InputItem>) -> Option<Seq<char>> {
        if inputs.len() == 0 {
            Some("No input sources specified"@)
        } else if pipeline.operations@.len() == 0 {
            Some("No operations specified"@)
        } else {
            filter_failure(pipeline.glob_include, pipeline.glob_exclude)
        }
    }

    /// A run of `pipeline` over `inputs`, with paths taken relative to `cwd`
    /// for the glob filter. A run that only validates is a dry run.
    pub fn new(pipeline: Pipeline, inputs: Vec<InputItem>, cwd: &str) -> (r: Result<Run, Error>)
        ensures
            match Self::refusal(pipeline, inputs@) {
                Some(message) => r matches Err(Error::Validation(m)) && m@ == message,
                None => r matches Ok(run) && {
                    &&& run.wf()
                    &&& run.phase() == Phase::Start
                    &&& run.inputs() == inputs@
                    &&& run.cwd() == cwd@
                    &&& run.pipeline().dry_run == (pipeline.dry_run || pipeline.validate_only)
                    &&& run.pipeline().operations == pipeline.operations
                    &&& run.pipeline().no_write == pipeline.no_write
                    &&& run.pipeline().require_match == pipeline.require_match
                    &&& run.pipeline().expect == pipeline.expect
                    &&& run.pipeline().fail_on_change == pipeline.fail_on_change
                    &&& run.pipeline().transaction == pipeline.transaction
                    &&& run.pipeline().symlinks == pipeline.symlinks
                    &&& run.pipeline().binary == pipeline.binary
                    &&& run.pipeline().permissions == pipeline.permissions
                    &&& run.pipeline().validate_only == pipeline.validate_only
                    &&& run.pipeline().files == pipeline.files
                    &&& run.pipeline().glob_include == pipeline.glob_include
                    &&& run.pipeline().glob_exclude == pipeline.glob_exclude
                    &&& run.report().files@.len() == 0
                },
            },
    {
        if inputs.len() == 0 {
            return Err(Error::Validation(String::from_str("No input sources specified")));
        }
        if pipeline.operations.len() == 0 {
            return Err(Error::Validation(String::from_str("No operations specified")));
        }
        let filter = match build_glob_sets(&pipeline.glob_include, &pipeline.glob_exclude) {
            Ok(filter) => filter,
            Err(e) => {
                return Err(e);
            },
        };
        let mut pipeline = pipeline;
        enforce_pre_execution(&mut pipeline);
        let report = Report::new(pipeline.dry_run, pipeline.validate_only);
        Ok(
            Run {
                pipeline,
                inputs,
                cwd: String::from_str(cwd),
                filter,
                report,
                position: 0,
                phase: Phase::Start,
                staged: Vec::new(),
                written: 0,
                pending: None,
                failure: None,
            },
        )
    }

    /// What holds of a run while it deals with its inputs.
    pub closed spec fn underway(self) -> bool {
        let p = self.pipeline;
        let r = self.report;
        &&& r.consistent()
        &&& r.dry_run == p.dry_run
        &&& r.validate_only == p.validate_only
        &&& r.duration_ms == 0
        &&& p.validate_only ==> p.dry_run
        &&& p.operations@.len() > 0
        &&& self.inputs@.len() > 0
        &&& self.filter.built_from(p.glob_include, p.glob_exclude)
        &&& self.position <= self.inputs@.len()
        &&& r.files@.len() == self.position
        &&& self.staged@.len() <= self.position
        &&& self.written <= self.position
        &&& p.dry_run || p.no_write ==> self.staged@.len() == 0 && self.written == 0
        &&& p.transaction == Transaction::All ==> self.written == 0
        &&& p.transaction == Transaction::File ==> self.staged@.len() == 0
        &&& !r.committed
        &&& !r.partially_applied
        &&& r.policy_violation is None
        &&& self.failure is None
    }

    /// Records the outcome of the input in work and turns to the next one.
    fn settle(&mut self, result: FileResult, staged: Option<String>, written: usize)
        requires
            old(self).underway(),
            old(self).position < old(self).inputs@.len(),
            old(self).written + written <= old(self).position + 1,
            staged is Some ==> !old(self).pipeline.dry_run && !old(self).pipeline.no_write && old(
                self,
            ).pipeline.transaction == Transaction::All,
            written > 0 ==> !old(self).pipeline.dry_run && !old(self).pipeline.no_write && old(
                self,
            ).pipeline.transaction == Transaction::File,
        ensures
            final(self).underway(),
            final(self).pipeline == old(self).pipeline,
            final(self).inputs == old(self).inputs,
            final(self).cwd == old(self).cwd,
            final(self).filter == old(self).filter,
            final(self).position == old(self).position + 1,
            final(self).report.files@ == old(self).report.files@.push(result),
            final(self).staged@ == match staged {
                Some(path) => old(self).staged@.push(path),
                None => old(self).staged@,
            },
            final(self).written == old(self).written + written,
            final(self).pending is None,
    {
        self.report.add_result(result);
        self.position = self.position + 1;
        match staged {
            Some(path) => {
                self.staged.push(path);
            },
            None => {},
        }
        self.written = self.written + written;
        self.pending = None;
    }

    /// The outcome of the input in work where it needs no action; else the
    /// path that is to be probed.
    fn look(&self) -> (r: Result<FileResult, String>)
        requires
            self.underway(),
            self.position < self.inputs@.len(),
        ensures
            match r {
                Ok(result) => self.settles_at_once(self.inputs()[self.position()], result),
                Err(path) => path_of(self.inputs()[self.position()]) matches Some(p) && p@ == path@
                    && self.takes(path@),
            },
    {
        let path: &String = match &self.inputs[self.position] {
            InputItem::StdinText(text) => {
                return Ok(process_text(text.as_str(), &self.pipeline.operations, &self.pipeline));
            },
            InputItem::Path(path) => path,
            InputItem::RipgrepMatch { path, .. } => path,
        };
        let normal = normalize_path(path.as_str(), self.cwd.as_str());
        if self.filter.is_selected(normal.as_str()) {
            Err(path.clone())
        } else {
            Ok(FileResult::skipped(path.clone(), SkipReason::GlobExclude))
        }
    }

    /// Draws the conclusion of the run: policies, then commit or discard.
    fn conclude(&mut self) -> (action: Action)
        requires
            old(self).underway(),
            old(self).is_through(),
            old(self).pending is None,
        ensures
            final(self).wf(),
            final(self).is_concluded(),
            final(self).asks(action),
            final(self).pipeline == old(self).pipeline,
            final(self).inputs == old(self).inputs,
            final(self).cwd == old(self).cwd,
            final(self).filter == old(self).filter,
            final(self).position == old(self).position,
            final(self).report.files == old(self).report.files,
            final(self).staged == old(self).staged,
            final(self).written == old(self).written,
    {
        let enforcer = PolicyEnforcer::new(&self.pipeline);
        enforcer.enforce_post_run(&mut self.report);
        let may_commit = !self.report.has_errors && self.report.policy_violation.is_none()
            && !self.pipeline.dry_run;
        match self.pipeline.transaction {
            Transaction::All => {
                if self.staged.len() > 0 {
                    if may_commit {
                        self.phase = Phase::Commit;
                        Action::Commit { entries: self.staged.len() }
                    } else {
                        self.phase = Phase::Discard;
                        Action::Discard { entries: self.staged.len() }
                    }
                } else {
                    self.report.committed = may_commit;
                    self.phase = Phase::Finished;
                    Action::Finish
                }
            },
            Transaction::File => {
                self.report.partially_applied = self.written > 0 && (self.report.has_errors
                    || self.report.policy_violation.is_some());
                self.phase = Phase::Finished;
                Action::Finish
            },
        }
    }

    /// Deals with the inputs that need no action, up to the next path that
    /// is to be probed or to the conclusion of the run.
    fn proceed(&mut self) -> (action: Action)
        requires
            old(self).underway(),
            old(self).pending is None,
        ensures
            final(self).wf(),
            final(self).asks(action),
            old(self).goes_on(*final(self), old(self).position(), old(self).staged(), old(self).written()),
            final(self).pipeline == old(self).pipeline,
            final(self).inputs == old(self).inputs,
            final(self).cwd == old(self).cwd,
            final(self).filter == old(self).filter,
            final(self).report.files@.len() >= old(self).position,
            final(self).report.files@.take(old(self).position()) == old(self).report.files@,
    {
        let ghost start = *self;
        while self.position < self.inputs.len() && !(self.pipeline.transaction == Transaction::All
            && self.report.has_errors)
            invariant
                start == *old(self),
                self.underway(),
                self.pending is None,
                self.pipeline == start.pipeline,
                self.inputs == start.inputs,
                self.cwd == start.cwd,
                self.filter == start.filter,
                self.staged@ == start.staged@,
                self.written == start.written,
                start.position <= self.position,
                self.report.files@.take(start.position as int) == start.report.files@,
                start.report.files@.len() == start.position,
                forall|k: int|
                    start.position <= k < self.position ==> start.settles_at_once(
                        #[trigger] start.inputs()[k],
                        self.report.files@[k],
                    ),
            decreases self.inputs@.len() - self.position,
        {
            match self.look() {
                Ok(result) => {
                    let ghost before = self.report.files@;
                    self.settle(result, None, 0);
                    proof {
                        assert(self.report.files@.take(start.position as int) =~= before.take(
                            start.position as int,
                        ));
                        assert forall|k: int|
                            start.position <= k < self.position implies start.settles_at_once(
                            #[trigger] start.inputs()[k],
                            self.report.files@[k],
                        ) by {
                            if k < self.position - 1 {
                                assert(self.report.files@[k] == before[k]);
                            }
                        }
                    }
                },
                Err(path) => {
                    self.phase = Phase::Probe;
                    return Action::Probe { path };
                },
            }
        }
        self.conclude()
    }

    /// The path of the input in work.
    fn current_path(&self) -> (path: String)
        requires
            self.position < self.inputs@.len(),
            path_of(self.inputs@[self.position()]) is Some,
        ensures
            path == path_of(self.inputs@[self.position()])->0,
    {
        match &self.inputs[self.position] {
            InputItem::Path(path) => path.clone(),
            InputItem::RipgrepMatch { path, .. } => path.clone(),
            InputItem::StdinText(text) => text.clone(),
        }
    }

    /// What becomes of the file in work, now that it is read.
    fn load(&self, content: &[u8]) -> (step: FileStep)
        requires
            self.wf(),
            self.phase == Phase::Read,
        ensures
            is_step_for(
                step,
                path_of(self.inputs()[self.position()])->0@,
                content@,
                self.pipeline().operations@,
                self.pipeline(),
                allowlist_of(self.inputs()[self.position()]),
                self.pipeline().transaction == Transaction::All,
            ),
    {
        let should_stage = match self.pipeline.transaction {
            Transaction::All => true,
            Transaction::File => false,
        };
        match &self.inputs[self.position] {
            InputItem::Path(path) => process_file(
                path.as_str(),
                content,
                &self.pipeline.operations,
                &self.pipeline,
                None,
                should_stage,
            ),
            InputItem::RipgrepMatch { path, matches } => process_file(
                path.as_str(),
                content,
                &self.pipeline.operations,
                &self.pipeline,
                Some(matches),
                should_stage,
            ),
            InputItem::StdinText(text) => FileStep::Done(
                process_text(text.as_str(), &self.pipeline.operations, &self.pipeline),
            ),
        }
    }

    /// Takes what came of the last action and answers with the next one.
    ///
    /// The first event is `Start`. After `Finish` the report is ready.
    pub fn step(&mut self, event: Event) -> (action: Action)
        requires
            old(self).wf(),
            old(self).expects(event),
        ensures
            final(self).wf(),
            final(self).asks(action),
            old(self).follows(event, *final(self), action),
    {
        let ghost before = self.report.files@;
        proof {
            assert(before.take(before.len() as int) =~= before);
        }
        match self.phase {
            Phase::Start => self.proceed(),
            Phase::Probe => {
                let is_symlink = match event {
                    Event::Probed { is_symlink } => is_symlink,
                    _ => false,
                };
                let path = self.current_path();
                match check_symlink(path.as_str(), self.pipeline.symlinks, is_symlink) {
                    Some(result) => {
                        self.settle(result, None, 0);
                        let ghost mid = *self;
                        let action = self.proceed();
                        proof {
                            lemma_take_push(self.report.files@, before, result);
                            old(self).lemma_goes_on_alike(
                                mid,
                                *self,
                                mid.position(),
                                mid.staged(),
                                mid.written(),
                            );
                        }
                        action
                    },
                    None => {
                        self.phase = Phase::Read;
                        Action::Read { path }
                    },
                }
            },
            Phase::Read => {
                let path = self.current_path();
                match event {
                    Event::Loaded { content } => {
                        match self.load(content.as_slice()) {
                            FileStep::Done(result) => {
                                self.settle(result, None, 0);
                                let ghost mid = *self;
                                let action = self.proceed();
                                proof {
                                    lemma_take_push(self.report.files@, before, result);
                                    old(self).lemma_goes_on_alike(
                                        mid,
                                        *self,
                                        mid.position(),
                                        mid.staged(),
                                        mid.written(),
                                    );
                                }
                                action
                            },
                            FileStep::Write { staged, content: data, options, result } => {
                                self.pending = Some(result);
                                if staged {
                                    self.phase = Phase::Stage;
                                    Action::Stage { path, data, options }
                                } else {
                                    self.phase = Phase::Write;
                                    Action::Write { path, data, options }
                                }
                            },
                        }
                    },
                    Event::Failed { error } => {
                        let result = FileResult::failed(path, &error, false);
                        self.settle(result, None, 0);
                        let ghost mid = *self;
                        let action = self.proceed();
                        proof {
                            lemma_take_push(self.report.files@, before, result);
                            old(self).lemma_goes_on_alike(
                                mid,
                                *self,
                                mid.position(),
                                mid.staged(),
                                mid.written(),
                            );
                        }
                        action
                    },
                    _ => {
                        assert(false);
                        Action::Finish
                    },
                }
            },
            Phase::Stage | Phase::Write => {
                let path = self.current_path();
                let staging = match self.phase {
                    Phase::Stage => true,
                    _ => false,
                };
                let done = match &event {
                    Event::Done => true,
                    _ => false,
                };
                let result = match event {
                    Event::Done => {
                        match self.pending.take() {
                            Some(result) => result,
                            None => {
                                assert(false);
                                FileResult::skipped(path, SkipReason::NotModified)
                            },
                        }
                    },
                    Event::Failed { error } => FileResult::failed(path, &error, false),
                    _ => {
                        assert(false);
                        FileResult::skipped(path, SkipReason::NotModified)
                    },
                };
                let staged: Option<String> = if done && staging {
                    Some(self.current_path())
                } else {
                    None
                };
                let written: usize = if done && !staging {
                    1
                } else {
                    0
                };
                self.settle(result, staged, written);
                let ghost mid = *self;
                let action = self.proceed();
                proof {
                    lemma_take_push(self.report.files@, before, result);
                    old(self).lemma_goes_on_alike(
                        mid,
                        *self,
                        mid.position(),
                        mid.staged(),
                        mid.written(),
                    );
                }
                action
            },
            Phase::Commit => {
                match event {
                    Event::CommitFailed { committed, error } => {
                        self.report.partially_applied = committed > 0;
                        let mut message = error.message();
                        message.append("; committed before the failure: ");
                        let list = list_paths(&self.staged, committed);
                        message.append(list.as_str());
                        self.failure = Some(Error::TransactionFailure(message));
                    },
                    _ => {
                        self.report.committed = true;
                    },
                }
                self.phase = Phase::Finished;
                Action::Finish
            },
            Phase::Discard => {
                self.phase = Phase::Finished;
                Action::Finish
            },
            Phase::Finished => {
                assert(false);
                Action::Finish
            },
        }
    }

    /// Whether the event answers the action that the run waits for.
    pub fn accepts(&self, event: &Event) -> (r: bool)
        ensures
            r == self.expects(*event),
    {
        match self.phase {
            Phase::Start => match event {
                Event::Start => true,
                _ => false,
            },
            Phase::Probe => match event {
                Event::Probed { .. } => true,
                _ => false,
            },
            Phase::Read => match event {
                Event::Loaded { .. } => true,
                Event::Failed { .. } => true,
                _ => false,
            },
            Phase::Stage | Phase::Write | Phase::Discard => match event {
                Event::Done => true,
                Event::Failed { .. } => true,
                _ => false,
            },
            Phase::Commit => match event {
                Event::Done => true,
                Event::CommitFailed { committed, .. } => *committed < self.staged.len(),
                _ => false,
            },
            Phase::Finished => false,
        }
    }

    /// The report of the run, as far as it has come.
    pub fn report_so_far(&self) -> (r: &Report)
        ensures
            *r == self.report(),
    {
        &self.report
    }

    /// Whether the run is finished.
    pub fn is_finished(&self) -> (r: bool)
        ensures
            r == (self.phase() == Phase::Finished),
    {
        match self.phase {
            Phase::Finished => true,
            _ => false,
        }
    }

    /// The report of a finished run, or the error that ended it.
    pub fn finish(self) -> (r: Result<Report, Error>)
        requires
            self.phase() == Phase::Finished,
        ensures
            match self.failure() {
                Some(e) => r == Err::<Report, Error>(e),
                None => r == Ok::<Report, Error>(self.report()),
            },
    {
        match self.failure {
            Some(e) => Err(e),
            None => Ok(self.report),
        }
    }
}

/// No-write strictness: a run that forbids writes never asks to stage, to
/// write or to commit, and has nothing staged that could be discarded.
pub proof fn law_no_write_asks_for_no_write(run: Run, action: Action)
    requires
        run.wf(),
        run.asks(action),
        run.pipeline().no_write,
    ensures
        !(action is Stage),
        !(action is Write),
        !(action is Commit),
        !(action is Discard),
        run.staged() == 0,
        run.written() == 0,
{
}

/// Validation forces a dry run: a run that only validates is a dry run,
/// never asks to stage, to write or to commit, and its report does not
/// count as committed.
pub proof fn law_validation_writes_nothing(run: Run, action: Action)
    requires
        run.wf(),
        run.asks(action),
        run.pipeline().validate_only,
    ensures
        run.pipeline().dry_run,
        !(action is Stage),
        !(action is Write),
        !(action is Commit),
        !run.report().committed,
{
}

/// Atomicity: where all changes commit together, nothing is written
/// through to a target, and the commit is asked for only when no input
/// failed and no policy is violated. A report with an error or a violation
/// does not count as committed.
pub proof fn law_all_or_nothing(run: Run, action: Action)
    requires
        run.wf(),
        run.asks(action),
        run.pipeline().transaction == Transaction::All,
    ensures
        !(action is Write),
        run.written() == 0,
        action is Commit ==> !run.report().has_errors && run.report().policy_violation is None,
        run.report().has_errors || run.report().policy_violation is Some
            ==> !run.report().committed,
{
}

/// Partial application: where each file commits on its own, a run that
/// ends with an error or a violation after files were written counts as
/// partially applied, and its exit code is 3.
pub proof fn law_partial_application(run: Run)
    requires
        run.wf(),
        run.is_concluded(),
        run.pipeline().transaction == Transaction::File,
        run.written() > 0,
        run.report().has_errors || run.report().policy_violation is Some,
    ensures
        run.report().partially_applied,
        run.report().exit_code_of() == crate::reporter::TRANSACTION_FAILURE,
{
}

} // verus!

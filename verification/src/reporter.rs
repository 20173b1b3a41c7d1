//! Per-file outcomes and the report that aggregates them.

use vstd::prelude::*;
use crate::error::{Error, ErrorCode};
use crate::events::SkipReason;

verus! {

/// The outcome of one input.
#[derive(Debug, Clone, PartialEq, Eq)]
pub struct FileResult {
    /// The path of the input; `<stdin>` for text from standard input.
    pub path: String,
    pub modified: bool,
    /// The number of replacements made, over all operations.
    pub replacements: usize,
    /// The message of the error, if the input failed.
    pub error: Option<String>,
    pub error_code: Option<ErrorCode>,
    pub skipped: Option<SkipReason>,
    /// The diff between the old and the new text, in a dry run.
    pub diff: Option<String>,
    pub diff_is_binary: bool,
    /// The new text of an input that is no file.
    pub generated_content: Option<String>,
    /// The input is no file on disk.
    pub is_virtual: bool,
}

impl FileResult {
    /// An outcome is an error, a skip or a result, never two of them; an
    /// error or a skip changes nothing and counts nothing.
    pub open spec fn well_formed(self) -> bool {
        &&& !(self.error is Some && self.skipped is Some)
        &&& self.error is Some <==> self.error_code is Some
        &&& self.error is Some || self.skipped is Some ==> !self.modified && self.replacements == 0
            && self.diff is None && self.generated_content is None
    }

    /// The outcome of an input that was passed over.
    pub fn skipped(path: String, reason: SkipReason) -> (r: Self)
        ensures
            r.well_formed(),
            r.path == path,
            r.skipped == Some(reason),
            r.error is None,
            !r.modified,
            r.replacements == 0,
            !r.is_virtual,
            !r.diff_is_binary,
    {
        FileResult {
            path,
            modified: false,
            replacements: 0,
            error: None,
            error_code: None,
            skipped: Some(reason),
            diff: None,
            diff_is_binary: false,
            generated_content: None,
            is_virtual: false,
        }
    }

    /// The outcome of an input that failed with `error`.
    pub fn failed(path: String, error: &Error, is_virtual: bool) -> (r: Self)
        ensures
            r.well_formed(),
            r.path == path,
            r.skipped is None,
            r.error matches Some(m) && m@ == error.message_text(),
            r.error_code == Some(error.code_of()),
            !r.modified,
            r.replacements == 0,
            r.is_virtual == is_virtual,
            !r.diff_is_binary,
    {
        FileResult {
            path,
            modified: false,
            replacements: 0,
            error: Some(error.message()),
            error_code: Some(error.code()),
            skipped: None,
            diff: None,
            diff_is_binary: false,
            generated_content: None,
            is_virtual,
        }
    }

    /// The outcome of an input that is refused with the given message and code.
    pub fn refused(path: String, message: &str, code: ErrorCode) -> (r: Self)
        ensures
            r.well_formed(),
            r.path == path,
            r.skipped is None,
            r.error matches Some(m) && m@ == message@,
            r.error_code == Some(code),
            !r.modified,
            r.replacements == 0,
            !r.is_virtual,
            !r.diff_is_binary,
    {
        FileResult {
            path,
            modified: false,
            replacements: 0,
            error: Some(String::from_str(message)),
            error_code: Some(code),
            skipped: None,
            diff: None,
            diff_is_binary: false,
            generated_content: None,
            is_virtual: false,
        }
    }

    /// The outcome of an input whose operations were all applied.
    pub fn processed(
        path: String,
        modified: bool,
        replacements: usize,
        diff: Option<String>,
        generated_content: Option<String>,
        is_virtual: bool,
    ) -> (r: Self)
        ensures
            r.well_formed(),
            r == (FileResult {
                path,
                modified,
                replacements,
                error: None,
                error_code: None,
                skipped: None,
                diff,
                diff_is_binary: false,
                generated_content,
                is_virtual,
            }),
    {
        FileResult {
            path,
            modified,
            replacements,
            error: None,
            error_code: None,
            skipped: None,
            diff,
            diff_is_binary: false,
            generated_content,
            is_virtual,
        }
    }
}

/// The number of modified files among `files`.
pub open spec fn modified_count(files: Seq<FileResult>) -> nat
    decreases files.len(),
{
    if files.len() == 0 {
        0
    } else {
        modified_count(files.drop_last()) + if files.last().modified {
            1nat
        } else {
            0nat
        }
    }
}

/// The number of replacements over `files`.
pub open spec fn replacement_sum(files: Seq<FileResult>) -> nat
    decreases files.len(),
{
    if files.len() == 0 {
        0
    } else {
        replacement_sum(files.drop_last()) + files.last().replacements as nat
    }
}

/// The number as far as the machine counts: the largest number it has for
/// all that are larger.
pub open spec fn saturated(n: nat) -> usize {
    if n > usize::MAX {
        usize::MAX
    } else {
        n as usize
    }
}

/// Whether some outcome among `files` is an error.
pub open spec fn any_error(files: Seq<FileResult>) -> bool {
    exists|i: int| 0 <= i < files.len() && (#[trigger] files[i]).error is Some
}

pub proof fn lemma_modified_count_bound(files: Seq<FileResult>)
    ensures
        modified_count(files) <= files.len(),
    decreases files.len(),
{
    if files.len() > 0 {
        lemma_modified_count_bound(files.drop_last());
    }
}

/// The report of a run.
#[derive(Debug, Clone, PartialEq, Eq)]
pub struct Report {
    /// The outcome of each input, in input order.
    pub files: Vec<FileResult>,
    pub total: usize,
    pub modified: usize,
    pub replacements: usize,
    pub dry_run: bool,
    pub validate_only: bool,
    pub has_errors: bool,
    pub policy_violation: Option<String>,
    /// Whether the transaction was committed.
    pub committed: bool,
    pub duration_ms: u64,
    /// Whether the run failed after some files had been written.
    pub partially_applied: bool,
}

/// The exit code of a run without errors and violations.
pub const SUCCESS: i32 = 0;

/// The exit code of a run with an error.
pub const ERROR: i32 = 1;

/// The exit code of a run that violates a policy.
pub const POLICY_VIOLATION: i32 = 2;

/// The exit code of a run that failed after some files had been written.
pub const TRANSACTION_FAILURE: i32 = 3;

impl Report {
    /// The totals are those of the outcomes listed.
    pub open spec fn consistent(self) -> bool {
        &&& self.total == self.files@.len()
        &&& self.modified == modified_count(self.files@)
        &&& self.replacements == saturated(replacement_sum(self.files@))
        &&& self.has_errors == any_error(self.files@)
    }

    /// The exit code that the report stands for: 3 for a run that failed
    /// after some files had been written, else 2 for a policy violation,
    /// else 1 for an error, else 0.
    pub open spec fn exit_code_of(self) -> i32 {
        if self.partially_applied {
            TRANSACTION_FAILURE
        } else if self.policy_violation is Some {
            POLICY_VIOLATION
        } else if self.has_errors {
            ERROR
        } else {
            SUCCESS
        }
    }

    /// An empty report.
    pub fn new(dry_run: bool, validate_only: bool) -> (r: Self)
        ensures
            r.consistent(),
            r.files@.len() == 0,
            r.total == 0,
            r.modified == 0,
            r.replacements == 0,
            r.dry_run == dry_run,
            r.validate_only == validate_only,
            !r.has_errors,
            r.policy_violation is None,
            !r.committed,
            r.duration_ms == 0,
            !r.partially_applied,
    {
        Report {
            files: Vec::new(),
            total: 0,
            modified: 0,
            replacements: 0,
            dry_run,
            validate_only,
            has_errors: false,
            policy_violation: None,
            committed: false,
            duration_ms: 0,
            partially_applied: false,
        }
    }

    /// Appends an outcome and adds it to the totals. The number of
    /// replacements stops at the largest number the machine has.
    pub fn add_result(&mut self, result: FileResult)
        requires
            old(self).consistent(),
        ensures
            final(self).consistent(),
            final(self).files@ == old(self).files@.push(result),
            final(self).total == old(self).total + 1,
            final(self).modified == old(self).modified + if result.modified {
                1int
            } else {
                0int
            },
            final(self).replacements == saturated(
                (old(self).replacements + result.replacements) as nat,
            ),
            final(self).has_errors == (old(self).has_errors || result.error is Some),
            final(self).dry_run == old(self).dry_run,
            final(self).validate_only == old(self).validate_only,
            final(self).policy_violation == old(self).policy_violation,
            final(self).committed == old(self).committed,
            final(self).duration_ms == old(self).duration_ms,
            final(self).partially_applied == old(self).partially_applied,
    {
        let modified = result.modified;
        let replacements = result.replacements;
        let failed = result.error.is_some();
        let ghost before = self.files@;
        self.files.push(result);
        proof {
            assert(self.files@.drop_last() == before);
            lemma_modified_count_bound(before);
            if any_error(before) {
                let i = choose|i: int| 0 <= i < before.len() && (#[trigger] before[i]).error is Some;
                assert(self.files@[i].error is Some);
            }
            if failed {
                assert(self.files@[before.len() as int].error is Some);
            }
            if any_error(self.files@) {
                let i = choose|i: int|
                    0 <= i < self.files@.len() && (#[trigger] self.files@[i]).error is Some;
                if i < before.len() {
                    assert(before[i].error is Some);
                }
            }
        }
        self.total = self.files.len();
        if modified {
            self.modified = self.modified + 1;
        }
        self.replacements = if replacements > usize::MAX - self.replacements {
            usize::MAX
        } else {
            self.replacements + replacements
        };
        if failed {
            self.has_errors = true;
        }
    }

    /// The exit code that the report stands for.
    pub fn exit_code(&self) -> (code: i32)
        ensures
            code == self.exit_code_of(),
    {
        if self.partially_applied {
            TRANSACTION_FAILURE
        } else if self.policy_violation.is_some() {
            POLICY_VIOLATION
        } else if self.has_errors {
            ERROR
        } else {
            SUCCESS
        }
    }
}

} // verus!

//! The policies of a run: what counts as a violation, and when writing and
//! committing are allowed.

use vstd::prelude::*;
use crate::model::{Pipeline, Transaction};
use crate::reporter::Report;
use crate::text::{concat, decimal, decimal_chars};

verus! {

/// The message of the first policy that the totals violate, if any.
///
/// The policies are tried in this order: a match is required and there is
/// none; the number of replacements is not the expected one; changes are
/// forbidden and some file is modified.
pub open spec fn violation_of(pipeline: Pipeline, replacements: nat, modified: nat) -> Option<
    Seq<char>,
> {
    if pipeline.require_match && replacements == 0 {
        Some("No matches found (--require-match)"@)
    } else if pipeline.expect is Some && pipeline.expect->0 != replacements {
        Some(
            "Expected "@ + decimal_chars(pipeline.expect->0 as nat) + " replacements, found "@
                + decimal_chars(replacements) + " (--expect)"@,
        )
    } else if pipeline.fail_on_change && modified > 0 {
        Some("Changes detected in "@ + decimal_chars(modified) + " files (--fail-on-change)"@)
    } else {
        None
    }
}

/// Validation alone forces a dry run.
pub fn enforce_pre_execution(pipeline: &mut Pipeline)
    ensures
        final(pipeline).dry_run == (old(pipeline).dry_run || old(pipeline).validate_only),
        final(pipeline).files == old(pipeline).files,
        final(pipeline).operations == old(pipeline).operations,
        final(pipeline).no_write == old(pipeline).no_write,
        final(pipeline).require_match == old(pipeline).require_match,
        final(pipeline).expect == old(pipeline).expect,
        final(pipeline).fail_on_change == old(pipeline).fail_on_change,
        final(pipeline).transaction == old(pipeline).transaction,
        final(pipeline).symlinks == old(pipeline).symlinks,
        final(pipeline).binary == old(pipeline).binary,
        final(pipeline).permissions == old(pipeline).permissions,
        final(pipeline).validate_only == old(pipeline).validate_only,
        final(pipeline).glob_include == old(pipeline).glob_include,
        final(pipeline).glob_exclude == old(pipeline).glob_exclude,
{
    if pipeline.validate_only {
        pipeline.dry_run = true;
    }
}

/// Answers the policy questions of a run for one pipeline.
pub struct PolicyEnforcer<'a> {
    pipeline: &'a Pipeline,
}

impl<'a> PolicyEnforcer<'a> {
    /// The pipeline whose policies are enforced.
    pub closed spec fn pipeline(self) -> Pipeline {
        *self.pipeline
    }

    pub fn new(pipeline: &'a Pipeline) -> (e: Self)
        ensures
            e.pipeline() == *pipeline,
    {
        PolicyEnforcer { pipeline }
    }

    /// Whether writes are staged for one commit: in transaction mode `All`,
    /// unless the run only validates.
    pub fn should_stage(&self) -> (r: bool)
        ensures
            r == (!self.pipeline().validate_only && self.pipeline().transaction
                == Transaction::All),
    {
        if self.pipeline.validate_only {
            return false;
        }
        match self.pipeline.transaction {
            Transaction::All => true,
            Transaction::File => false,
        }
    }

    /// Whether a file may be written or staged: it is modified, and the run
    /// is no dry run and does not forbid writes.
    pub fn can_write(&self, modified: bool) -> (r: bool)
        ensures
            r == (modified && !self.pipeline().dry_run && !self.pipeline().no_write),
    {
        if !modified {
            return false;
        }
        if self.pipeline.dry_run {
            return false;
        }
        if self.pipeline.no_write {
            return false;
        }
        true
    }

    /// Records in the report the first policy that its totals violate.
    /// Where none is violated the report stays as it is.
    pub fn enforce_post_run(&self, report: &mut Report)
        ensures
            match violation_of(
                self.pipeline(),
                old(report).replacements as nat,
                old(report).modified as nat,
            ) {
                Some(message) => final(report).policy_violation matches Some(m) && m@ == message,
                None => final(report).policy_violation == old(report).policy_violation,
            },
            final(report).files == old(report).files,
            final(report).total == old(report).total,
            final(report).modified == old(report).modified,
            final(report).replacements == old(report).replacements,
            final(report).dry_run == old(report).dry_run,
            final(report).validate_only == old(report).validate_only,
            final(report).has_errors == old(report).has_errors,
            final(report).committed == old(report).committed,
            final(report).duration_ms == old(report).duration_ms,
            final(report).partially_applied == old(report).partially_applied,
    {
        if self.pipeline.require_match && report.replacements == 0 {
            report.policy_violation = Some(String::from_str("No matches found (--require-match)"));
            return ;
        }
        if let Some(expected) = self.pipeline.expect {
            if report.replacements != expected {
                let mut message = concat("Expected ", decimal(expected).as_str());
                message.append(" replacements, found ");
                message.append(decimal(report.replacements).as_str());
                message.append(" (--expect)");
                report.policy_violation = Some(message);
                return ;
            }
        }
        if self.pipeline.fail_on_change && report.modified > 0 {
            let mut message = concat("Changes detected in ", decimal(report.modified).as_str());
            message.append(" files (--fail-on-change)");
            report.policy_violation = Some(message);
        }
    }

    /// Whether the transaction may be committed: the run is no dry run and
    /// no validation run, and the report holds no error and no violation.
    pub fn should_commit(&self, report: &Report) -> (r: bool)
        ensures
            r == (!self.pipeline().validate_only && !self.pipeline().dry_run
                && report.exit_code_of() == crate::reporter::SUCCESS),
            r ==> report.policy_violation is None && !report.has_errors,
    {
        if self.pipeline.validate_only {
            return false;
        }
        if self.pipeline.dry_run {
            return false;
        }
        report.exit_code() == crate::reporter::SUCCESS
    }
}

} // verus!

//! The report as text: what goes to standard output and what to standard
//! error, for a reader, for a reader in a hurry, for an agent.

use vstd::prelude::*;
use crate::reporter::{FileResult, Report};
use crate::text::{decimal, decimal_chars};

verus! {

/// What is printed: to standard output and to standard error.
#[derive(Debug, Clone, PartialEq, Eq)]
pub struct Rendered {
    pub out: String,
    pub err: String,
}

/// The line that names a violated policy; nothing where none is violated.
pub open spec fn policy_line(report: Report) -> Seq<char> {
    match report.policy_violation {
        Some(message) => "Policy Error: "@ + message@ + "\n"@,
        None => Seq::empty(),
    }
}

/// The line that says that nothing was written; nothing outside a dry run.
pub open spec fn mode_line(report: Report) -> Seq<char> {
    if report.validate_only {
        "VALIDATION RUN - No files were written.\n"@
    } else if report.dry_run {
        "DRY RUN - No files were written.\n"@
    } else {
        Seq::empty()
    }
}

/// The line with the totals of the run.
pub open spec fn totals_line(report: Report) -> Seq<char> {
    "Processed "@ + decimal_chars(report.total as nat) + " files, modified "@ + decimal_chars(
        report.modified as nat,
    ) + ", "@ + decimal_chars(report.replacements as nat) + " replacements.\n"@
}

/// Whether some outcome holds a generated text.
pub open spec fn any_generated(files: Seq<FileResult>) -> bool {
    exists|i: int| 0 <= i < files.len() && (#[trigger] files[i]).generated_content is Some
}

/// What one outcome adds to the listing on standard output: nothing for an
/// error, else a line that says what became of the file, and its diff
/// where diffs are shown.
pub open spec fn listing_out(file: FileResult, with_diffs: bool) -> Seq<char> {
    if file.error is Some {
        Seq::empty()
    } else if file.skipped is Some {
        "  "@ + file.path@ + ": skipped ("@ + file.skipped->0.text() + ")\n"@
    } else if file.modified {
        "  "@ + file.path@ + ": modified ("@ + decimal_chars(file.replacements as nat)
            + " replacements)\n"@ + if with_diffs && file.diff is Some {
            file.diff->0@ + "\n"@
        } else {
            Seq::empty()
        }
    } else {
        "  "@ + file.path@ + ": no changes\n"@
    }
}

/// What one outcome adds to the listing on standard error: its error.
pub open spec fn listing_err(file: FileResult) -> Seq<char> {
    match file.error {
        Some(message) => "  "@ + file.path@ + ": ERROR - "@ + message@ + "\n"@,
        None => Seq::empty(),
    }
}

/// The generated text of an outcome, as it is.
pub open spec fn generated_out(file: FileResult) -> Seq<char> {
    match file.generated_content {
        Some(content) => content@,
        None => Seq::empty(),
    }
}

/// The error of an outcome beside generated text.
pub open spec fn generated_err(file: FileResult) -> Seq<char> {
    match file.error {
        Some(message) => "ERROR: "@ + message@ + "\n"@,
        None => Seq::empty(),
    }
}

/// What an outcome adds to the report for agents.
pub open spec fn agent_block(file: FileResult) -> Seq<char> {
    "<file path=\""@ + file.path@ + "\">\n"@ + (if file.error is Some {
        "ERROR: "@ + file.error->0@ + "\n"@
    } else if file.skipped is Some {
        "SKIPPED: "@ + file.skipped->0.text() + "\n"@
    } else if file.diff is Some {
        file.diff->0@ + "\n"@
    } else if file.modified {
        "(modified)\n"@
    } else {
        "(no changes)\n"@
    }) + "</file>\n"@
}

/// Which part of an outcome is rendered.
#[derive(Debug, Clone, Copy, PartialEq, Eq, Structural)]
pub enum Part {
    ListingOut,
    ListingOutWithDiffs,
    ListingErr,
    GeneratedOut,
    GeneratedErr,
    AgentBlock,
}

/// The given part of an outcome.
pub open spec fn part_of(file: FileResult, part: Part) -> Seq<char> {
    match part {
        Part::ListingOut => listing_out(file, false),
        Part::ListingOutWithDiffs => listing_out(file, true),
        Part::ListingErr => listing_err(file),
        Part::GeneratedOut => generated_out(file),
        Part::GeneratedErr => generated_err(file),
        Part::AgentBlock => agent_block(file),
    }
}

/// The given part of each outcome, in a row.
pub open spec fn parts_of(files: Seq<FileResult>, part: Part) -> Seq<char>
    decreases files.len(),
{
    if files.len() == 0 {
        Seq::empty()
    } else {
        parts_of(files.drop_last(), part) + part_of(files.last(), part)
    }
}

/// What is printed for a reader: the generated texts where there are any,
/// with everything else on standard error; else the totals and a line for
/// each file, with the errors on standard error.
pub open spec fn human_text(report: Report, with_diffs: bool) -> (Seq<char>, Seq<char>) {
    if any_generated(report.files@) {
        (
            parts_of(report.files@, Part::GeneratedOut),
            policy_line(report) + parts_of(report.files@, Part::GeneratedErr) + mode_line(report)
                + totals_line(report),
        )
    } else {
        (
            mode_line(report) + totals_line(report) + parts_of(
                report.files@,
                if with_diffs {
                    Part::ListingOutWithDiffs
                } else {
                    Part::ListingOut
                },
            ),
            policy_line(report) + parts_of(report.files@, Part::ListingErr),
        )
    }
}

/// What is printed where only errors are wanted: the generated texts, and
/// on standard error the violated policy and the errors.
pub open spec fn errors_text(report: Report) -> (Seq<char>, Seq<char>) {
    (
        parts_of(report.files@, Part::GeneratedOut),
        policy_line(report) + parts_of(report.files@, Part::ListingErr),
    )
}

/// Appends the given part of one outcome.
fn push_part(text: &mut String, file: &FileResult, part: Part)
    ensures
        final(text)@ == old(text)@ + part_of(*file, part),
{
    let ghost start = text@;
    match part {
        Part::ListingOut | Part::ListingOutWithDiffs => {
            if file.error.is_some() {
            } else if let Some(reason) = file.skipped {
                text.append("  ");
                text.append(file.path.as_str());
                text.append(": skipped (");
                text.append(reason.as_str());
                text.append(")\n");
                assert(text@ =~= start + part_of(*file, part));
            } else if file.modified {
                text.append("  ");
                text.append(file.path.as_str());
                text.append(": modified (");
                text.append(decimal(file.replacements).as_str());
                text.append(" replacements)\n");
                let with_diffs = match part {
                    Part::ListingOutWithDiffs => true,
                    _ => false,
                };
                if with_diffs {
                    if let Some(diff) = &file.diff {
                        text.append(diff.as_str());
                        text.append("\n");
                    }
                }
                assert(text@ =~= start + part_of(*file, part));
            } else {
                text.append("  ");
                text.append(file.path.as_str());
                text.append(": no changes\n");
                assert(text@ =~= start + part_of(*file, part));
            }
        },
        Part::ListingErr => {
            if let Some(message) = &file.error {
                text.append("  ");
                text.append(file.path.as_str());
                text.append(": ERROR - ");
                text.append(message.as_str());
                text.append("\n");
                assert(text@ =~= start + part_of(*file, part));
            }
        },
        Part::GeneratedOut => {
            if let Some(content) = &file.generated_content {
                text.append(content.as_str());
            }
        },
        Part::GeneratedErr => {
            if let Some(message) = &file.error {
                text.append("ERROR: ");
                text.append(message.as_str());
                text.append("\n");
                assert(text@ =~= start + part_of(*file, part));
            }
        },
        Part::AgentBlock => {
            text.append("<file path=\"");
            text.append(file.path.as_str());
            text.append("\">\n");
            if let Some(message) = &file.error {
                text.append("ERROR: ");
                text.append(message.as_str());
                text.append("\n");
            } else if let Some(reason) = file.skipped {
                text.append("SKIPPED: ");
                text.append(reason.as_str());
                text.append("\n");
            } else if let Some(diff) = &file.diff {
                text.append(diff.as_str());
                text.append("\n");
            } else if file.modified {
                text.append("(modified)\n");
            } else {
                text.append("(no changes)\n");
            }
            text.append("</file>\n");
            assert(text@ =~= start + part_of(*file, part));
        },
    }
    assert(text@ =~= start + part_of(*file, part));
}

/// Appends the given part of each outcome, in order.
fn push_parts(text: &mut String, files: &Vec<FileResult>, part: Part)
    ensures
        final(text)@ == old(text)@ + parts_of(files@, part),
{
    let ghost start = text@;
    let mut i: usize = 0;
    while i < files.len()
        invariant
            i <= files@.len(),
            text@ == start + parts_of(files@.take(i as int), part),
        decreases files.len() - i,
    {
        proof {
            assert(files@.take(i + 1).drop_last() == files@.take(i as int));
            assert(files@.take(i + 1).last() == files@[i as int]);
        }
        push_part(text, &files[i], part);
        i = i + 1;
        assert(text@ =~= start + parts_of(files@.take(i as int), part));
    }
    proof {
        assert(files@.take(files@.len() as int) == files@);
    }
}

/// Whether some outcome holds a generated text.
pub fn has_generated(files: &Vec<FileResult>) -> (r: bool)
    ensures
        r == any_generated(files@),
{
    let mut i: usize = 0;
    while i < files.len()
        invariant
            i <= files@.len(),
            forall|k: int| 0 <= k < i ==> (#[trigger] files@[k]).generated_content is None,
        decreases files.len() - i,
    {
        if files[i].generated_content.is_some() {
            return true;
        }
        i = i + 1;
    }
    false
}

fn push_policy_line(text: &mut String, report: &Report)
    ensures
        final(text)@ == old(text)@ + policy_line(*report),
{
    let ghost start = text@;
    if let Some(message) = &report.policy_violation {
        text.append("Policy Error: ");
        text.append(message.as_str());
        text.append("\n");
    }
    assert(text@ =~= start + policy_line(*report));
}

fn push_mode_line(text: &mut String, report: &Report)
    ensures
        final(text)@ == old(text)@ + mode_line(*report),
{
    let ghost start = text@;
    if report.validate_only {
        text.append("VALIDATION RUN - No files were written.\n");
    } else if report.dry_run {
        text.append("DRY RUN - No files were written.\n");
    }
    assert(text@ =~= start + mode_line(*report));
}

fn push_totals_line(text: &mut String, report: &Report)
    ensures
        final(text)@ == old(text)@ + totals_line(*report),
{
    let ghost start = text@;
    text.append("Processed ");
    text.append(decimal(report.total).as_str());
    text.append(" files, modified ");
    text.append(decimal(report.modified).as_str());
    text.append(", ");
    text.append(decimal(report.replacements).as_str());
    text.append(" replacements.\n");
    assert(text@ =~= start + totals_line(*report));
}

impl Report {
    /// The report for a reader, with or without the diffs.
    pub fn render_listing(&self, with_diffs: bool) -> (r: Rendered)
        ensures
            r.out@ == human_text(*self, with_diffs).0,
            r.err@ == human_text(*self, with_diffs).1,
    {
        let mut out = String::new();
        let mut err = String::new();
        push_policy_line(&mut err, self);
        if has_generated(&self.files) {
            push_parts(&mut out, &self.files, Part::GeneratedOut);
            push_parts(&mut err, &self.files, Part::GeneratedErr);
            push_mode_line(&mut err, self);
            push_totals_line(&mut err, self);
        } else {
            push_mode_line(&mut out, self);
            push_totals_line(&mut out, self);
            if with_diffs {
                push_parts(&mut out, &self.files, Part::ListingOutWithDiffs);
            } else {
                push_parts(&mut out, &self.files, Part::ListingOut);
            }
            push_parts(&mut err, &self.files, Part::ListingErr);
        }
        proof {
            assert(out@ =~= human_text(*self, with_diffs).0);
            assert(err@ =~= human_text(*self, with_diffs).1);
        }
        Rendered { out, err }
    }

    /// The report for a reader: the totals, a line for each file, the diffs.
    pub fn render_human(&self) -> (r: Rendered)
        ensures
            r.out@ == human_text(*self, true).0,
            r.err@ == human_text(*self, true).1,
    {
        self.render_listing(true)
    }

    /// The report for a reader, without the diffs.
    pub fn render_summary(&self) -> (r: Rendered)
        ensures
            r.out@ == human_text(*self, false).0,
            r.err@ == human_text(*self, false).1,
    {
        self.render_listing(false)
    }

    /// The errors of the report, and its generated texts.
    pub fn render_errors_only(&self) -> (r: Rendered)
        ensures
            r.out@ == errors_text(*self).0,
            r.err@ == errors_text(*self).1,
    {
        let mut out = String::new();
        let mut err = String::new();
        push_policy_line(&mut err, self);
        push_parts(&mut out, &self.files, Part::GeneratedOut);
        push_parts(&mut err, &self.files, Part::ListingErr);
        proof {
            assert(out@ =~= errors_text(*self).0);
            assert(err@ =~= errors_text(*self).1);
        }
        Rendered { out, err }
    }

    /// The report for an agent: a block for each file.
    pub fn render_agent(&self) -> (text: String)
        ensures
            text@ == parts_of(self.files@, Part::AgentBlock),
    {
        let mut text = String::new();
        push_parts(&mut text, &self.files, Part::AgentBlock);
        assert(text@ =~= parts_of(self.files@, Part::AgentBlock));
        text
    }
}

} // verus!

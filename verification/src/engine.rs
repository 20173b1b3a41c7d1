//! The execution pipeline: what the operations make of one input.

use vstd::prelude::*;
use vstd::slice::slice_to_vec;
use vstd::utf8::{encode_utf8, valid_utf8};
use crate::diff::{diff_text, generate_diff};
use crate::error::{Error, ErrorCode, Failure};
use crate::events::SkipReason;
use crate::model::{
    BinaryFileMode,
    LineRange,
    Operation,
    Pipeline,
    ReplacementRange,
    Symlinks,
    ValidationMode,
};
use crate::replacer::{
    Plan,
    Refusal,
    Replacer,
    effective_replacement,
    plan_for,
    validated_text,
};
use crate::replacer::laws::lemma_same_plans;
use crate::reporter::FileResult;
use crate::text::{bytes_equal, is_utf8, lossy_text, string_from_utf8, utf8_lossy};
use crate::write::WriteOptions;

verus! {

/// What the replacer of an operation does, or why none is built.
pub open spec fn operation_plan(op: Operation, allowed: Option<Seq<ReplacementRange>>) -> Result<
    Plan,
    Refusal,
> {
    match op {
        Operation::Replace {
            find,
            with,
            literal,
            ignore_case,
            smart_case,
            word,
            multiline,
            dot_matches_newline,
            no_unicode,
            limit,
            range,
            expand,
            validation_mode,
        } => plan_for(
            find@,
            encode_utf8(with@),
            literal,
            ignore_case,
            smart_case,
            word,
            multiline,
            false,
            dot_matches_newline,
            no_unicode,
            limit,
            range,
            allowed,
            expand,
            validation_mode,
        ),
        Operation::Delete {
            find,
            literal,
            ignore_case,
            smart_case,
            word,
            multiline,
            dot_matches_newline,
            no_unicode,
            limit,
            range,
        } => plan_for(
            find@,
            Seq::empty(),
            literal,
            ignore_case,
            smart_case,
            word,
            multiline,
            false,
            dot_matches_newline,
            no_unicode,
            limit,
            range,
            allowed,
            false,
            ValidationMode::Strict,
        ),
    }
}

/// The error that a refusal is reported as.
pub open spec fn refusal_failure(refusal: Refusal) -> Failure {
    match refusal {
        Refusal::Ambiguous(message) => Failure {
            code: ErrorCode::AmbiguousReplacement,
            message: "Ambiguous replacement pattern: "@ + message,
        },
        Refusal::Pattern(message) => Failure {
            code: ErrorCode::Regex,
            message: "Invalid regex: "@ + message,
        },
    }
}

/// The error for replaced bytes that must be UTF-8 and are not.
pub open spec fn utf8_failure() -> Failure {
    Failure {
        code: ErrorCode::Utf8,
        message: "Validation error: "@ + "Invalid UTF-8 after replacement"@,
    }
}

/// The error for a number of replacements beyond the machine's range.
pub open spec fn overflow_failure() -> Failure {
    Failure {
        code: ErrorCode::Validation,
        message: "Validation error: "@ + "Too many replacements to count"@,
    }
}

/// What one operation makes of `text`: the new text and the number of
/// replacements, or the error. Where UTF-8 is required, a new text that is
/// none is an error.
pub open spec fn operation_outcome(
    op: Operation,
    allowed: Option<Seq<ReplacementRange>>,
    text: Seq<u8>,
    require_utf8: bool,
) -> Result<(Seq<u8>, nat), Failure> {
    replace_outcome(operation_plan(op, allowed), text, require_utf8)
}

/// What the operations make of `text`, applied in order, each to the
/// output of the one before: the final text and the total number of
/// replacements, or the first error.
pub open spec fn operations_outcome(
    ops: Seq<Operation>,
    allowed: Option<Seq<ReplacementRange>>,
    text: Seq<u8>,
    require_utf8: bool,
) -> Result<(Seq<u8>, nat), Failure>
    decreases ops.len(),
{
    if ops.len() == 0 {
        Ok((text, 0))
    } else {
        match operations_outcome(ops.drop_last(), allowed, text, require_utf8) {
            Err(failure) => Err(failure),
            Ok((so_far, count)) => match operation_outcome(
                ops.last(),
                allowed,
                so_far,
                require_utf8,
            ) {
                Err(failure) => Err(failure),
                Ok((next, more)) => if count + more > usize::MAX {
                    Err(overflow_failure())
                } else {
                    Ok((next, count + more))
                },
            },
        }
    }
}

/// The ranges, if any, as a sequence.
pub open spec fn matches_view(matches: Option<&Vec<ReplacementRange>>) -> Option<
    Seq<ReplacementRange>,
> {
    match matches {
        Some(m) => Some(m@),
        None => None,
    }
}

/// What a replacer for the given arguments makes of `text`: the new text
/// and the number of replacements, or the error. Where UTF-8 is required,
/// a new text that is none is an error.
pub open spec fn replace_outcome(
    plan: Result<Plan, Refusal>,
    text: Seq<u8>,
    require_utf8: bool,
) -> Result<(Seq<u8>, nat), Failure> {
    match plan {
        Err(refusal) => Err(refusal_failure(refusal)),
        Ok(plan) => if require_utf8 && !valid_utf8(plan.replaced(text)) {
            Err(utf8_failure())
        } else {
            Ok((plan.replaced(text), plan.replaced_count(text)))
        },
    }
}

/// Builds the replacer for the given arguments and applies it to `text`.
fn apply_replace(
    find: &str,
    with: &str,
    literal: bool,
    ignore_case: bool,
    smart_case: bool,
    word: bool,
    multiline: bool,
    dot_matches_newline: bool,
    no_unicode: bool,
    limit: usize,
    range: Option<LineRange>,
    expand: bool,
    validation_mode: ValidationMode,
    matches: Option<&Vec<ReplacementRange>>,
    text: &[u8],
    require_utf8: bool,
) -> (r: Result<(Vec<u8>, usize), Error>)
    ensures
        match replace_outcome(
            plan_for(
                find@,
                encode_utf8(with@),
                literal,
                ignore_case,
                smart_case,
                word,
                multiline,
                false,
                dot_matches_newline,
                no_unicode,
                limit,
                range,
                matches_view(matches),
                expand,
                validation_mode,
            ),
            text@,
            require_utf8,
        ) {
            Err(failure) => r matches Err(e) && e.failure() == failure,
            Ok((next, count)) => r matches Ok(done) && done.0@ == next && done.1 == count,
        },
{
    let allowed: Option<Vec<ReplacementRange>> = match matches {
        Some(m) => Some(m.clone()),
        None => None,
    };
    let built = Replacer::with_validation(
        find,
        with,
        literal,
        ignore_case,
        smart_case,
        !(ignore_case || smart_case),
        word,
        multiline,
        false,
        dot_matches_newline,
        no_unicode,
        false,
        limit,
        range,
        allowed,
        expand,
        validation_mode,
    );
    let replacer = match built {
        Ok(replacer) => replacer,
        Err(e) => {
            return Err(e);
        },
    };
    let (next, count) = replacer.replace_with_count(text);
    proof {
        let plan = plan_for(
            find@,
            encode_utf8(with@),
            literal,
            ignore_case,
            smart_case,
            word,
            multiline,
            false,
            dot_matches_newline,
            no_unicode,
            limit,
            range,
            matches_view(matches),
            expand,
            validation_mode,
        )->Ok_0;
        lemma_same_plans(replacer.plan(), plan, text@);
    }
    if require_utf8 && !is_utf8(next.as_slice()) {
        return Err(Error::InvalidUtf8(String::from_str("Invalid UTF-8 after replacement")));
    }
    Ok((next, count))
}

/// Applies one operation to `text`.
pub fn apply_operation(
    op: &Operation,
    matches: Option<&Vec<ReplacementRange>>,
    text: &[u8],
    require_utf8: bool,
) -> (r: Result<(Vec<u8>, usize), Error>)
    ensures
        match operation_outcome(*op, matches_view(matches), text@, require_utf8) {
            Err(failure) => r matches Err(e) && e.failure() == failure,
            Ok((next, count)) => r matches Ok(done) && done.0@ == next && done.1 == count,
        },
{
    match op {
        Operation::Replace {
            find,
            with,
            literal,
            ignore_case,
            smart_case,
            word,
            multiline,
            dot_matches_newline,
            no_unicode,
            limit,
            range,
            expand,
            validation_mode,
        } => apply_replace(
            find.as_str(),
            with.as_str(),
            *literal,
            *ignore_case,
            *smart_case,
            *word,
            *multiline,
            *dot_matches_newline,
            *no_unicode,
            *limit,
            *range,
            *expand,
            *validation_mode,
            matches,
            text,
            require_utf8,
        ),
        Operation::Delete {
            find,
            literal,
            ignore_case,
            smart_case,
            word,
            multiline,
            dot_matches_newline,
            no_unicode,
            limit,
            range,
        } => {
            proof {
                reveal_strlit("");
                assert(""@ =~= Seq::<char>::empty());
                assert(encode_utf8(""@) =~= Seq::<u8>::empty());
            }
            apply_replace(
                find.as_str(),
                "",
                *literal,
                *ignore_case,
                *smart_case,
                *word,
                *multiline,
                *dot_matches_newline,
                *no_unicode,
                *limit,
                *range,
                false,
                ValidationMode::Strict,
                matches,
                text,
                require_utf8,
            )
        },
    }
}

/// Applies the operations to `content`, each to the output of the one
/// before, and compares the result with what it started from.
///
/// The result is whether the text changed, the number of replacements, the
/// diff between the two texts in a dry run, and the new text.
pub fn process_content_inner(
    content: &[u8],
    operations: &Vec<Operation>,
    pipeline: &Pipeline,
    matches: Option<&Vec<ReplacementRange>>,
    require_utf8: bool,
) -> (r: Result<(bool, usize, Option<String>, Vec<u8>), Error>)
    ensures
        match operations_outcome(operations@, matches_view(matches), content@, require_utf8) {
            Err(failure) => r matches Err(e) && e.failure() == failure,
            Ok((text, count)) => r matches Ok(done) && {
                &&& done.0 == (text != content@)
                &&& done.1 == count
                &&& match done.2 {
                    Some(d) => pipeline.dry_run && Some(d@) == diff_text(
                        utf8_lossy(content@),
                        utf8_lossy(text),
                    ),
                    None => !pipeline.dry_run || diff_text(utf8_lossy(content@), utf8_lossy(text))
                        is None,
                }
                &&& done.3@ == text
            },
        },
{
    let mut current: Vec<u8> = slice_to_vec(content);
    let mut total: usize = 0;
    let mut i: usize = 0;
    while i < operations.len()
        invariant
            i <= operations@.len(),
            operations_outcome(
                operations@.take(i as int),
                matches_view(matches),
                content@,
                require_utf8,
            ) == Ok::<(Seq<u8>, nat), Failure>((current@, total as nat)),
        decreases operations.len() - i,
    {
        proof {
            assert(operations@.take(i + 1).drop_last() == operations@.take(i as int));
            assert(operations@.take(i + 1).last() == operations@[i as int]);
            if i + 1 == operations@.len() {
                assert(operations@.take(i + 1) == operations@);
            }
        }
        let (next, count) = match apply_operation(
            &operations[i],
            matches,
            current.as_slice(),
            require_utf8,
        ) {
            Ok(done) => done,
            Err(e) => {
                proof {
                    lemma_failure_stays(
                        operations@,
                        matches_view(matches),
                        content@,
                        require_utf8,
                        i + 1,
                    );
                }
                return Err(e);
            },
        };
        if count > usize::MAX - total {
            proof {
                lemma_failure_stays(
                    operations@,
                    matches_view(matches),
                    content@,
                    require_utf8,
                    i + 1,
                );
            }
            return Err(Error::Validation(String::from_str("Too many replacements to count")));
        }
        current = next;
        total = total + count;
        i = i + 1;
    }
    proof {
        assert(operations@.take(operations@.len() as int) == operations@);
    }
    let modified = !bytes_equal(current.as_slice(), content);
    let diff = if pipeline.dry_run {
        let old_text = lossy_text(content);
        let new_text = lossy_text(current.as_slice());
        generate_diff(old_text.as_str(), new_text.as_str())
    } else {
        None
    };
    Ok((modified, total, diff, current))
}

/// Once the first `n` operations fail, all of them do, with the same error.
pub proof fn lemma_failure_stays(
    ops: Seq<Operation>,
    allowed: Option<Seq<ReplacementRange>>,
    text: Seq<u8>,
    require_utf8: bool,
    n: int,
)
    requires
        0 <= n <= ops.len(),
        operations_outcome(ops.take(n), allowed, text, require_utf8) is Err,
    ensures
        operations_outcome(ops, allowed, text, require_utf8) == operations_outcome(
            ops.take(n),
            allowed,
            text,
            require_utf8,
        ),
    decreases ops.len() - n,
{
    if n < ops.len() {
        assert(ops.take(n + 1).drop_last() == ops.take(n));
        lemma_failure_stays(ops, allowed, text, require_utf8, n + 1);
    } else {
        assert(ops.take(n) == ops);
    }
}

/// The path under which text from standard input is reported.
pub open spec fn stdin_path() -> Seq<char> {
    "<stdin>"@
}

/// Whether `r` is the outcome of a text that is no file.
///
/// The operations are applied to the text, whose result must be UTF-8.
/// Outside a dry run the outcome holds the new text; in a dry run the diff.
pub open spec fn is_text_outcome(
    r: FileResult,
    input: Seq<char>,
    operations: Seq<Operation>,
    pipeline: Pipeline,
) -> bool {
    &&& r.well_formed()
    &&& r.path@ == stdin_path()
    &&& r.is_virtual
    &&& r.skipped is None
    &&& match operations_outcome(operations, None, encode_utf8(input), true) {
        Err(failure) => {
            &&& r.error matches Some(m) && m@ == failure.message
            &&& r.error_code == Some(failure.code)
        },
        Ok((text, count)) => {
            &&& r.error is None
            &&& r.modified == (text != encode_utf8(input))
            &&& r.replacements == count
            &&& match r.generated_content {
                Some(content) => !pipeline.dry_run && encode_utf8(content@) == text,
                None => pipeline.dry_run,
            }
            &&& match r.diff {
                Some(d) => pipeline.dry_run && Some(d@) == diff_text(
                    utf8_lossy(encode_utf8(input)),
                    utf8_lossy(text),
                ),
                None => !pipeline.dry_run || diff_text(
                    utf8_lossy(encode_utf8(input)),
                    utf8_lossy(text),
                ) is None,
            }
        },
    }
}

/// The outcome of a text that is no file.
pub fn process_text(input: &str, operations: &Vec<Operation>, pipeline: &Pipeline) -> (r:
    FileResult)
    ensures
        is_text_outcome(r, input@, operations@, *pipeline),
{
    let path = String::from_str("<stdin>");
    let processed = process_content_inner(
        input.as_bytes(),
        operations,
        pipeline,
        None,
        true,
    );
    match processed {
        Ok((modified, replacements, diff, content)) => {
            proof {
                vstd::utf8::encode_utf8_valid_utf8(input@);
                lemma_outcome_is_utf8(operations@, None, encode_utf8(input@));
            }
            let generated_content = if !pipeline.dry_run {
                string_from_utf8(content)
            } else {
                None
            };
            FileResult::processed(path, modified, replacements, diff, generated_content, true)
        },
        Err(e) => FileResult::failed(path, &e, true),
    }
}

/// Where UTF-8 is required, what the operations make of a UTF-8 text is UTF-8.
pub proof fn lemma_outcome_is_utf8(
    ops: Seq<Operation>,
    allowed: Option<Seq<ReplacementRange>>,
    text: Seq<u8>,
)
    requires
        valid_utf8(text),
    ensures
        operations_outcome(ops, allowed, text, true) matches Ok((out, _)) ==> valid_utf8(out),
    decreases ops.len(),
{
    if ops.len() > 0 {
        lemma_outcome_is_utf8(ops.drop_last(), allowed, text);
    }
}

/// What is to be done with a file once its outcome is known.
pub enum FileStep {
    /// Nothing is written; the outcome stands.
    Done(FileResult),
    /// The new content is written: staged for the commit of the
    /// transaction, or written through at once. `result` is the outcome if
    /// the write succeeds.
    Write { staged: bool, content: Vec<u8>, options: WriteOptions, result: FileResult },
}

/// Whether the outcome is that of a symbolic link that is not followed: a
/// skip or an error, as the mode for links says.
pub open spec fn is_symlink_outcome(result: FileResult, path: Seq<char>, symlinks: Symlinks) -> bool {
    &&& result.well_formed()
    &&& result.path@ == path
    &&& match symlinks {
        Symlinks::Follow => false,
        Symlinks::Skip => result.skipped == Some(SkipReason::Symlink) && result.error is None,
        Symlinks::Error => result.skipped is None && result.error_code == Some(
            ErrorCode::Validation,
        ) && (result.error matches Some(m) && m@ == "Encountered symlink with --symlinks error"@),
    }
}

/// The outcome of a path that is a symbolic link, where links are not
/// followed. None means that the file is read.
pub fn check_symlink(path: &str, symlinks: Symlinks, is_symlink: bool) -> (r: Option<FileResult>)
    ensures
        r is Some == (is_symlink && symlinks != Symlinks::Follow),
        r matches Some(result) ==> is_symlink_outcome(result, path@, symlinks),
{
    if !is_symlink {
        return None;
    }
    match symlinks {
        Symlinks::Follow => None,
        Symlinks::Skip => Some(FileResult::skipped(String::from_str(path), SkipReason::Symlink)),
        Symlinks::Error => Some(
            FileResult::refused(
                String::from_str(path),
                "Encountered symlink with --symlinks error",
                ErrorCode::Validation,
            ),
        ),
    }
}

/// Whether the bytes hold a NUL byte, which marks a file as binary.
pub fn is_binary(content: &[u8]) -> (r: bool)
    ensures
        r == content@.contains(0u8),
{
    crate::replacer::contains_byte(content, 0)
}

/// The options with which the files of a run are written.
pub open spec fn write_options_of(pipeline: Pipeline) -> WriteOptions {
    WriteOptions {
        no_follow_symlinks: pipeline.symlinks != Symlinks::Follow,
        permissions: pipeline.permissions,
    }
}

/// The new content that is written for a file with the given content, if
/// any is: the file is no binary, the operations succeed and change it,
/// and the run is no dry run and does not forbid writes.
pub open spec fn content_to_write(
    content: Seq<u8>,
    operations: Seq<Operation>,
    pipeline: Pipeline,
    allowed: Option<Seq<ReplacementRange>>,
) -> Option<Seq<u8>> {
    if content.contains(0u8) {
        None
    } else {
        match operations_outcome(operations, allowed, content, false) {
            Err(_) => None,
            Ok((text, _)) => if text != content && !pipeline.dry_run && !pipeline.no_write {
                Some(text)
            } else {
                None
            },
        }
    }
}

/// Whether `result` is the outcome of a file with the given content, if
/// no write fails.
///
/// A binary file is skipped or refused. Else the operations are applied;
/// their error is the outcome, or the file counts as processed.
pub open spec fn is_file_outcome(
    result: FileResult,
    path: Seq<char>,
    content: Seq<u8>,
    operations: Seq<Operation>,
    pipeline: Pipeline,
    allowed: Option<Seq<ReplacementRange>>,
) -> bool {
    &&& result.well_formed()
    &&& result.path@ == path
    &&& !result.is_virtual
    &&& if content.contains(0u8) {
        match pipeline.binary {
            BinaryFileMode::Skip => result.skipped == Some(SkipReason::Binary) && result.error
                is None,
            BinaryFileMode::Error => result.skipped is None && result.error_code == Some(
                ErrorCode::Validation,
            ) && (result.error matches Some(m) && m@ == "Binary file detected"@),
        }
    } else {
        match operations_outcome(operations, allowed, content, false) {
            Err(failure) => result.skipped is None && result.error_code == Some(failure.code) && (
            result.error matches Some(m) && m@ == failure.message),
            Ok((text, count)) => {
                &&& result.error is None
                &&& result.skipped is None
                &&& result.modified == (text != content)
                &&& result.replacements == count
                &&& result.generated_content is None
                &&& match result.diff {
                    Some(d) => pipeline.dry_run && Some(d@) == diff_text(
                        utf8_lossy(content),
                        utf8_lossy(text),
                    ),
                    None => !pipeline.dry_run || diff_text(utf8_lossy(content), utf8_lossy(text))
                        is None,
                }
            },
        }
    }
}

/// Whether a step is what becomes of a file with the given content: its
/// outcome, with the write of the new content where there is one.
pub open spec fn is_step_for(
    step: FileStep,
    path: Seq<char>,
    content: Seq<u8>,
    operations: Seq<Operation>,
    pipeline: Pipeline,
    allowed: Option<Seq<ReplacementRange>>,
    should_stage: bool,
) -> bool {
    match step {
        FileStep::Done(result) => is_file_outcome(
            result,
            path,
            content,
            operations,
            pipeline,
            allowed,
        ) && content_to_write(content, operations, pipeline, allowed) is None,
        FileStep::Write { staged, content: data, options, result } => is_file_outcome(
            result,
            path,
            content,
            operations,
            pipeline,
            allowed,
        ) && content_to_write(content, operations, pipeline, allowed) == Some(data@) && staged
            == should_stage && options == write_options_of(pipeline) && result.error is None,
    }
}

/// What becomes of a file that was read: its outcome, and whether and how
/// its new content is written.
pub fn process_file(
    path: &str,
    content: &[u8],
    operations: &Vec<Operation>,
    pipeline: &Pipeline,
    matches: Option<&Vec<ReplacementRange>>,
    should_stage: bool,
) -> (step: FileStep)
    ensures
        is_step_for(
            step,
            path@,
            content@,
            operations@,
            *pipeline,
            matches_view(matches),
            should_stage,
        ),
{
    let path_text = String::from_str(path);
    if is_binary(content) {
        return match pipeline.binary {
            BinaryFileMode::Skip => FileStep::Done(
                FileResult::skipped(path_text, SkipReason::Binary),
            ),
            BinaryFileMode::Error => FileStep::Done(
                FileResult::refused(path_text, "Binary file detected", ErrorCode::Validation),
            ),
        };
    }
    match process_content_inner(content, operations, pipeline, matches, false) {
        Ok((modified, replacements, diff, new_content)) => {
            let result = FileResult::processed(
                path_text,
                modified,
                replacements,
                diff,
                None,
                false,
            );
            if modified && !pipeline.dry_run && !pipeline.no_write {
                let options = WriteOptions {
                    no_follow_symlinks: match pipeline.symlinks {
                        Symlinks::Follow => false,
                        _ => true,
                    },
                    permissions: pipeline.permissions,
                };
                FileStep::Write { staged: should_stage, content: new_content, options, result }
            } else {
                FileStep::Done(result)
            }
        },
        Err(e) => FileStep::Done(FileResult::failed(path_text, &e, false)),
    }
}

/// The diagnostics of the validation of the replacement text of an
/// operation: one line for each reference that is rewritten.
pub open spec fn operation_warnings(op: Operation) -> Seq<Seq<char>> {
    match op {
        Operation::Replace { with, expand, validation_mode, .. } => match effective_replacement(
            encode_utf8(with@),
            expand,
            validation_mode,
        ) {
            Ok((_, warnings)) => warnings,
            Err(_) => Seq::empty(),
        },
        Operation::Delete { .. } => Seq::empty(),
    }
}

/// The diagnostics of the operations, in order.
pub open spec fn warnings_of(ops: Seq<Operation>) -> Seq<Seq<char>>
    decreases ops.len(),
{
    if ops.len() == 0 {
        Seq::empty()
    } else {
        warnings_of(ops.drop_last()) + operation_warnings(ops.last())
    }
}

/// The diagnostics of the operations, in order: what the caller reports
/// once for the run.
pub fn collect_warnings(operations: &Vec<Operation>) -> (warnings: Vec<String>)
    ensures
        warnings@.len() == warnings_of(operations@).len(),
        forall|i: int|
            0 <= i < warnings@.len() ==> (#[trigger] warnings@[i])@ == warnings_of(operations@)[i],
{
    let mut warnings: Vec<String> = Vec::new();
    let mut i: usize = 0;
    while i < operations.len()
        invariant
            i <= operations@.len(),
            warnings@.len() == warnings_of(operations@.take(i as int)).len(),
            forall|k: int|
                0 <= k < warnings@.len() ==> (#[trigger] warnings@[k])@ == warnings_of(
                    operations@.take(i as int),
                )[k],
        decreases operations.len() - i,
    {
        proof {
            assert(operations@.take(i + 1).drop_last() == operations@.take(i as int));
            assert(operations@.take(i + 1).last() == operations@[i as int]);
        }
        let ghost sofar = warnings_of(operations@.take(i as int));
        match &operations[i] {
            Operation::Replace { with, expand, validation_mode, .. } => {
                match validated_text(with.as_str().as_bytes(), *expand, *validation_mode) {
                    Ok(v) => {
                        let found = v.warnings;
                        let ghost more = operation_warnings(operations@[i as int]);
                        assert(more.len() == found@.len());
                        let mut k: usize = 0;
                        while k < found.len()
                            invariant
                                k <= found@.len(),
                                more.len() == found@.len(),
                                forall|j: int| 0 <= j < found@.len() ==> found@[j]@ == more[j],
                                warnings@.len() == sofar.len() + k,
                                forall|j: int|
                                    0 <= j < warnings@.len() ==> (#[trigger] warnings@[j])@ == (
                                    sofar + more)[j],
                            decreases found.len() - k,
                        {
                            warnings.push(found[k].clone());
                            k = k + 1;
                        }
                    },
                    Err(_) => {},
                }
            },
            Operation::Delete { .. } => {},
        }
        i = i + 1;
    }
    proof {
        assert(operations@.take(operations@.len() as int) == operations@);
    }
    warnings
}

} // verus!

//! The data model of a transformation run.

use vstd::prelude::*;

verus! {

/// A 1-based inclusive range of line numbers; an absent `end` is unbounded.
#[derive(Debug, Clone, Copy, PartialEq, Eq)]
pub struct LineRange {
    pub start: usize,
    pub end: Option<usize>,
}

impl LineRange {
    /// Whether the 1-based line number `line` lies in the range.
    pub open spec fn contains(self, line: int) -> bool {
        self.start <= line && (self.end matches Some(e) ==> line <= e)
    }
}

/// A half-open byte interval `[start, end)` in which replacements are allowed.
#[derive(Debug, Clone, Copy, PartialEq, Eq, PartialOrd, Ord)]
pub struct ReplacementRange {
    pub start: usize,
    pub end: usize,
}

impl ReplacementRange {
    /// Whether the interval shares a position with the match `[start, end)`.
    /// A zero-width match counts when it lies strictly inside the interval.
    pub open spec fn intersects(self, start: int, end: int) -> bool {
        self.start < end && start < self.end
    }
}

/// Whether all changes commit together or each file on its own.
#[derive(Debug, Clone, Copy, PartialEq, Eq, Structural)]
pub enum Transaction {
    All,
    File,
}

impl Default for Transaction {
    fn default() -> (r: Self)
        ensures
            r == Transaction::All,
    {
        Transaction::All
    }
}

/// What to do with an input path that is a symbolic link.
#[derive(Debug, Clone, Copy, PartialEq, Eq, Structural)]
pub enum Symlinks {
    Follow,
    Skip,
    Error,
}

impl Default for Symlinks {
    fn default() -> (r: Self)
        ensures
            r == Symlinks::Follow,
    {
        Symlinks::Follow
    }
}

/// What to do with a file that holds a NUL byte.
#[derive(Debug, Clone, Copy, PartialEq, Eq, Structural)]
pub enum BinaryFileMode {
    Skip,
    Error,
}

impl Default for BinaryFileMode {
    fn default() -> (r: Self)
        ensures
            r == BinaryFileMode::Skip,
    {
        BinaryFileMode::Skip
    }
}

/// Which permissions a written file gets.
#[derive(Debug, Clone, Copy, PartialEq, Eq, Structural)]
pub enum PermissionsMode {
    Preserve,
    Fixed(u32),
}

impl Default for PermissionsMode {
    fn default() -> (r: Self)
        ensures
            r == PermissionsMode::Preserve,
    {
        PermissionsMode::Preserve
    }
}

/// How ambiguous capture references in a replacement text are treated.
#[derive(Debug, Clone, Copy, PartialEq, Eq, Structural)]
pub enum ValidationMode {
    /// An ambiguous reference is an error.
    Strict,
    /// An ambiguous reference is rewritten to its braced form.
    Warn,
    /// The replacement text is passed through unchanged.
    Off,
}

impl Default for ValidationMode {
    fn default() -> (r: Self)
        ensures
            r == ValidationMode::Strict,
    {
        ValidationMode::Strict
    }
}

/// A single text transformation.
#[derive(Debug, Clone, PartialEq, Eq)]
pub enum Operation {
    /// Replace occurrences of a pattern with a replacement text.
    Replace {
        /// Pattern to find (literal bytes or regex source).
        find: String,
        /// Replacement text; may reference captures when `expand` is set.
        with: String,
        /// Treat `find` as raw bytes, not as a regex.
        literal: bool,
        ignore_case: bool,
        /// Case-insensitive when `find` holds no uppercase character.
        smart_case: bool,
        /// Match only at word boundaries.
        word: bool,
        /// `^` and `$` match at line edges.
        multiline: bool,
        dot_matches_newline: bool,
        no_unicode: bool,
        /// Maximum number of replacements per input; 0 is unbounded.
        limit: usize,
        /// Only replace matches that start on a line of this range.
        range: Option<LineRange>,
        /// Interpret `$n` and `${name}` in `with`.
        expand: bool,
        /// Treatment of ambiguous capture references when `expand` is set.
        validation_mode: ValidationMode,
    },
    /// Delete occurrences of a pattern: replace them with nothing.
    Delete {
        /// Pattern to find (literal bytes or regex source).
        find: String,
        /// Treat `find` as raw bytes, not as a regex.
        literal: bool,
        ignore_case: bool,
        /// Case-insensitive when `find` holds no uppercase character.
        smart_case: bool,
        /// Match only at word boundaries.
        word: bool,
        /// `^` and `$` match at line edges.
        multiline: bool,
        dot_matches_newline: bool,
        no_unicode: bool,
        /// Maximum number of deletions per input; 0 is unbounded.
        limit: usize,
        /// Only delete matches that start on a line of this range.
        range: Option<LineRange>,
    },
}

/// A replace program over a set of inputs.
#[derive(Debug, Clone, PartialEq, Eq)]
pub struct Pipeline {
    /// Files to process when the caller supplies no inputs of its own.
    pub files: Vec<String>,
    /// Operations applied to each input, in order.
    pub operations: Vec<Operation>,
    /// Compute changes and diffs but write nothing.
    pub dry_run: bool,
    /// Forbid every write, whatever the other flags say.
    pub no_write: bool,
    /// Violation when no replacement was made over all inputs.
    pub require_match: bool,
    /// Violation when the total number of replacements differs.
    pub expect: Option<usize>,
    /// Violation when any input would change.
    pub fail_on_change: bool,
    pub transaction: Transaction,
    pub symlinks: Symlinks,
    pub binary: BinaryFileMode,
    pub permissions: PermissionsMode,
    /// Run every check and compute diffs; forces `dry_run`.
    pub validate_only: bool,
    pub glob_include: Option<Vec<String>>,
    pub glob_exclude: Option<Vec<String>>,
}

impl Pipeline {
    /// The flags of a pipeline that are all off, with the default modes.
    pub open spec fn has_default_flags(self) -> bool {
        &&& !self.dry_run
        &&& !self.no_write
        &&& !self.require_match
        &&& self.expect is None
        &&& !self.fail_on_change
        &&& self.transaction == Transaction::All
        &&& self.symlinks == Symlinks::Follow
        &&& self.binary == BinaryFileMode::Skip
        &&& self.permissions == PermissionsMode::Preserve
        &&& !self.validate_only
        &&& self.glob_include is None
        &&& self.glob_exclude is None
    }

    /// A pipeline with one regex replace operation and default flags.
    pub fn replace(files: Vec<String>, find: String, with_: String) -> (p: Self)
        ensures
            p.files == files,
            p.has_default_flags(),
            p.operations@.len() == 1,
            p.operations@[0] == (Operation::Replace {
                find,
                with: with_,
                literal: false,
                ignore_case: false,
                smart_case: false,
                word: false,
                multiline: false,
                dot_matches_newline: false,
                no_unicode: false,
                limit: 0,
                range: None,
                expand: false,
                validation_mode: ValidationMode::Strict,
            }),
    {
        let mut operations: Vec<Operation> = Vec::new();
        operations.push(
            Operation::Replace {
                find,
                with: with_,
                literal: false,
                ignore_case: false,
                smart_case: false,
                word: false,
                multiline: false,
                dot_matches_newline: false,
                no_unicode: false,
                limit: 0,
                range: None,
                expand: false,
                validation_mode: ValidationMode::Strict,
            },
        );
        Pipeline {
            files,
            operations,
            dry_run: false,
            no_write: false,
            require_match: false,
            expect: None,
            fail_on_change: false,
            transaction: Transaction::All,
            symlinks: Symlinks::Follow,
            binary: BinaryFileMode::Skip,
            permissions: PermissionsMode::Preserve,
            validate_only: false,
            glob_include: None,
            glob_exclude: None,
        }
    }
}

impl Default for Pipeline {
    fn default() -> (p: Self)
        ensures
            p.files@.len() == 0,
            p.operations@.len() == 0,
            p.has_default_flags(),
    {
        Pipeline {
            files: Vec::new(),
            operations: Vec::new(),
            dry_run: false,
            no_write: false,
            require_match: false,
            expect: None,
            fail_on_change: false,
            transaction: Transaction::All,
            symlinks: Symlinks::Follow,
            binary: BinaryFileMode::Skip,
            permissions: PermissionsMode::Preserve,
            validate_only: false,
            glob_include: None,
            glob_exclude: None,
        }
    }
}

} // verus!

//! The errors of the engine, each with a message and a stable code.

use vstd::prelude::*;
use crate::text::{concat, decimal, decimal_chars};

verus! {

/// What can go wrong in a run.
#[derive(Debug, Clone, PartialEq, Eq)]
pub enum Error {
    /// The pattern is not a regex that the engine accepts.
    Regex(String),
    /// A read or a write failed.
    Io(String),
    /// A file to read does not exist.
    NotFound(String),
    /// A temporary file could not be renamed over its target.
    Persist(String),
    InvalidReplacement(String),
    /// The replacement text holds an ambiguous capture reference.
    AmbiguousReplacement(String),
    Validation(String),
    /// A validation failure of its own code: replaced bytes that must be
    /// UTF-8 and are not.
    InvalidUtf8(String),
    NoInputSources,
    InputScopeConflict(String),
    OutputModeConflict(String),
    FeatureNotEnabled(String),
    /// Some files could not be processed.
    FailedJobs(FailedJobs),
    InvalidPath(String),
    /// A commit failed after some files had been renamed.
    TransactionFailure(String),
}

/// The files that could not be processed, each with the message of its error.
#[derive(Debug, Clone, PartialEq, Eq)]
pub struct FailedJobs(pub Vec<(String, String)>);

/// The lines that name the failed files, each with its error.
pub open spec fn job_lines(jobs: Seq<(String, String)>) -> Seq<char>
    decreases jobs.len(),
{
    if jobs.len() == 0 {
        Seq::empty()
    } else {
        job_lines(jobs.drop_last()) + "\n  "@ + jobs.last().0@ + ": "@ + jobs.last().1@
    }
}

impl FailedJobs {
    /// How many files failed, and a line for each of them.
    pub open spec fn text(self) -> Seq<char> {
        decimal_chars(self.0@.len()) + " files failed"@ + job_lines(self.0@)
    }

    /// How many files failed, and a line for each of them.
    pub fn message(&self) -> (s: String)
        ensures
            s@ == self.text(),
    {
        let mut s = decimal(self.0.len());
        s.append(" files failed");
        let ghost head = s@;
        let mut i: usize = 0;
        while i < self.0.len()
            invariant
                i <= self.0@.len(),
                s@ == head + job_lines(self.0@.take(i as int)),
            decreases self.0.len() - i,
        {
            proof {
                assert(self.0@.take(i + 1).drop_last() == self.0@.take(i as int));
                assert(self.0@.take(i + 1).last() == self.0@[i as int]);
            }
            s.append("\n  ");
            s.append(self.0[i].0.as_str());
            s.append(": ");
            s.append(self.0[i].1.as_str());
            i = i + 1;
            assert(s@ =~= head + job_lines(self.0@.take(i as int)));
        }
        proof {
            assert(self.0@.take(self.0@.len() as int) == self.0@);
        }
        s
    }
}

/// The stable code of an error, for consumers of the event stream.
#[derive(Debug, Clone, Copy, PartialEq, Eq, Structural)]
pub enum ErrorCode {
    NotFound,
    Io,
    Utf8,
    Regex,
    Validation,
    AmbiguousReplacement,
    Transaction,
    Unknown,
}

impl ErrorCode {
    /// The code as it appears in the event stream.
    pub open spec fn text(self) -> Seq<char> {
        match self {
            ErrorCode::NotFound => "E_NOT_FOUND"@,
            ErrorCode::Io => "E_IO"@,
            ErrorCode::Utf8 => "E_UTF8"@,
            ErrorCode::Regex => "E_REGEX"@,
            ErrorCode::Validation => "E_VALIDATION"@,
            ErrorCode::AmbiguousReplacement => "E_AMBIGUOUS_REPLACEMENT"@,
            ErrorCode::Transaction => "E_TRANSACTION"@,
            ErrorCode::Unknown => "E_UNKNOWN"@,
        }
    }

    /// The code as it appears in the event stream.
    pub fn as_str(self) -> (s: &'static str)
        ensures
            s@ == self.text(),
    {
        match self {
            ErrorCode::NotFound => "E_NOT_FOUND",
            ErrorCode::Io => "E_IO",
            ErrorCode::Utf8 => "E_UTF8",
            ErrorCode::Regex => "E_REGEX",
            ErrorCode::Validation => "E_VALIDATION",
            ErrorCode::AmbiguousReplacement => "E_AMBIGUOUS_REPLACEMENT",
            ErrorCode::Transaction => "E_TRANSACTION",
            ErrorCode::Unknown => "E_UNKNOWN",
        }
    }
}

/// An error as plain values: its code and its message.
pub struct Failure {
    pub code: ErrorCode,
    pub message: Seq<char>,
}

impl Error {
    /// The error as plain values.
    pub open spec fn failure(self) -> Failure {
        Failure { code: self.code_of(), message: self.message_text() }
    }

    /// The message of the error: what kind it is, then its detail.
    pub open spec fn message_text(self) -> Seq<char> {
        match self {
            Error::Regex(d) => "Invalid regex: "@ + d@,
            Error::Io(d) => "I/O error: "@ + d@,
            Error::NotFound(d) => "I/O error: "@ + d@,
            Error::Persist(d) => "Failed to persist temporary file: "@ + d@,
            Error::InvalidReplacement(d) => "Invalid replacement pattern: "@ + d@,
            Error::AmbiguousReplacement(d) => "Ambiguous replacement pattern: "@ + d@,
            Error::Validation(d) => "Validation error: "@ + d@,
            Error::InvalidUtf8(d) => "Validation error: "@ + d@,
            Error::NoInputSources => "No input sources specified"@,
            Error::InputScopeConflict(d) => "Input scope conflict: "@ + d@,
            Error::OutputModeConflict(d) => "Output mode conflict: "@ + d@,
            Error::FeatureNotEnabled(d) => "Feature not enabled: "@ + d@,
            Error::FailedJobs(jobs) => "Failed to process files: "@ + jobs.text(),
            Error::InvalidPath(d) => "Invalid path: "@ + d@,
            Error::TransactionFailure(d) => "Transaction failed (partial application): "@ + d@,
        }
    }

    /// The code of the error.
    pub open spec fn code_of(self) -> ErrorCode {
        match self {
            Error::Regex(_) => ErrorCode::Regex,
            Error::Io(_) => ErrorCode::Io,
            Error::NotFound(_) => ErrorCode::NotFound,
            Error::Persist(_) => ErrorCode::Io,
            Error::InvalidReplacement(_) => ErrorCode::Validation,
            Error::AmbiguousReplacement(_) => ErrorCode::AmbiguousReplacement,
            Error::Validation(_) => ErrorCode::Validation,
            Error::InvalidUtf8(_) => ErrorCode::Utf8,
            Error::NoInputSources => ErrorCode::Validation,
            Error::InputScopeConflict(_) => ErrorCode::Validation,
            Error::OutputModeConflict(_) => ErrorCode::Validation,
            Error::FeatureNotEnabled(_) => ErrorCode::Unknown,
            Error::FailedJobs(_) => ErrorCode::Unknown,
            Error::InvalidPath(_) => ErrorCode::Io,
            Error::TransactionFailure(_) => ErrorCode::Transaction,
        }
    }

    /// The message of the error.
    pub fn message(&self) -> (s: String)
        ensures
            s@ == self.message_text(),
    {
        match self {
            Error::Regex(d) => concat("Invalid regex: ", d.as_str()),
            Error::Io(d) => concat("I/O error: ", d.as_str()),
            Error::NotFound(d) => concat("I/O error: ", d.as_str()),
            Error::Persist(d) => concat("Failed to persist temporary file: ", d.as_str()),
            Error::InvalidReplacement(d) => concat("Invalid replacement pattern: ", d.as_str()),
            Error::AmbiguousReplacement(d) => concat(
                "Ambiguous replacement pattern: ",
                d.as_str(),
            ),
            Error::Validation(d) => concat("Validation error: ", d.as_str()),
            Error::InvalidUtf8(d) => concat("Validation error: ", d.as_str()),
            Error::NoInputSources => String::from_str("No input sources specified"),
            Error::InputScopeConflict(d) => concat("Input scope conflict: ", d.as_str()),
            Error::OutputModeConflict(d) => concat("Output mode conflict: ", d.as_str()),
            Error::FeatureNotEnabled(d) => concat("Feature not enabled: ", d.as_str()),
            Error::FailedJobs(jobs) => concat("Failed to process files: ", jobs.message().as_str()),
            Error::InvalidPath(d) => concat("Invalid path: ", d.as_str()),
            Error::TransactionFailure(d) => concat(
                "Transaction failed (partial application): ",
                d.as_str(),
            ),
        }
    }

    /// The code of the error.
    pub fn code(&self) -> (c: ErrorCode)
        ensures
            c == self.code_of(),
    {
        match self {
            Error::Regex(_) => ErrorCode::Regex,
            Error::Io(_) => ErrorCode::Io,
            Error::NotFound(_) => ErrorCode::NotFound,
            Error::Persist(_) => ErrorCode::Io,
            Error::InvalidReplacement(_) => ErrorCode::Validation,
            Error::AmbiguousReplacement(_) => ErrorCode::AmbiguousReplacement,
            Error::Validation(_) => ErrorCode::Validation,
            Error::InvalidUtf8(_) => ErrorCode::Utf8,
            Error::NoInputSources => ErrorCode::Validation,
            Error::InputScopeConflict(_) => ErrorCode::Validation,
            Error::OutputModeConflict(_) => ErrorCode::Validation,
            Error::FeatureNotEnabled(_) => ErrorCode::Unknown,
            Error::FailedJobs(_) => ErrorCode::Unknown,
            Error::InvalidPath(_) => ErrorCode::Io,
            Error::TransactionFailure(_) => ErrorCode::Transaction,
        }
    }
}

} // verus!

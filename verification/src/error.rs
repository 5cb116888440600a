//! What can go wrong in the repository, and what the session does about it.

use vstd::prelude::*;
use vstd::string::*;

verus! {

/// The operations that are asked of the repository.
#[derive(Clone, Copy, Debug, PartialEq, Eq, Structural)]
pub enum Operation {
    OpenRepository,
    QueryStatus,
    ComputeDiff,
    Stage,
    Commit,
}

/// The kinds of failure.
#[derive(Clone, Copy, Debug, PartialEq, Eq, Structural)]
pub enum ErrorKind {
    /// The repository cannot be opened or queried.
    RepositoryUnavailable,
    /// The repository cannot report status.
    StatusQueryFailed,
    /// A diff cannot be computed.
    DiffComputationFailed,
    /// A path cannot be added to the index.
    StagingFailed,
    /// The commit cannot be created.
    CommitFailed,
}

/// The one kind of failure that each operation has.
pub open spec fn kind_of(operation: Operation) -> ErrorKind {
    match operation {
        Operation::OpenRepository => ErrorKind::RepositoryUnavailable,
        Operation::QueryStatus => ErrorKind::StatusQueryFailed,
        Operation::ComputeDiff => ErrorKind::DiffComputationFailed,
        Operation::Stage => ErrorKind::StagingFailed,
        Operation::Commit => ErrorKind::CommitFailed,
    }
}

/// Whether the session goes on after a failure of this kind with tree and
/// selection intact.
pub open spec fn recoverable(kind: ErrorKind) -> bool {
    kind == ErrorKind::DiffComputationFailed || kind == ErrorKind::StagingFailed || kind
        == ErrorKind::CommitFailed
}

/// The words that stand before the message of a failure.
pub open spec fn label(kind: ErrorKind) -> Seq<char> {
    match kind {
        ErrorKind::RepositoryUnavailable => "repository unavailable"@,
        ErrorKind::StatusQueryFailed => "status query failed"@,
        ErrorKind::DiffComputationFailed => "diff computation failed"@,
        ErrorKind::StagingFailed => "staging failed"@,
        ErrorKind::CommitFailed => "commit failed"@,
    }
}

/// The text shown for a failure: its label, a colon, and the message.
pub open spec fn description(kind: ErrorKind, message: Seq<char>) -> Seq<char> {
    label(kind) + ": "@ + message
}

impl ErrorKind {
    /// The kind of failure of an operation.
    pub fn of(operation: Operation) -> (kind: ErrorKind)
        ensures
            kind == kind_of(operation),
    {
        match operation {
            Operation::OpenRepository => ErrorKind::RepositoryUnavailable,
            Operation::QueryStatus => ErrorKind::StatusQueryFailed,
            Operation::ComputeDiff => ErrorKind::DiffComputationFailed,
            Operation::Stage => ErrorKind::StagingFailed,
            Operation::Commit => ErrorKind::CommitFailed,
        }
    }

    /// Whether the session goes on after a failure of this kind.
    pub fn is_recoverable(self) -> (yes: bool)
        ensures
            yes == recoverable(self),
    {
        match self {
            ErrorKind::DiffComputationFailed | ErrorKind::StagingFailed | ErrorKind::CommitFailed => true,
            _ => false,
        }
    }
}

/// A failure of one operation, with the text that the repository gave.
#[derive(Clone, Debug)]
pub struct AppError {
    pub kind: ErrorKind,
    pub message: String,
}

impl AppError {
    /// The failure of `operation` with the given text.
    pub fn new(operation: Operation, message: &str) -> (error: AppError)
        ensures
            error.kind == kind_of(operation),
            error.message@ == message@,
    {
        AppError { kind: ErrorKind::of(operation), message: String::from_str(message) }
    }

    /// The text shown for the failure.
    pub fn describe(&self) -> (text: String)
        ensures
            text@ == description(self.kind, self.message@),
    {
        let mut text = match self.kind {
            ErrorKind::RepositoryUnavailable => String::from_str("repository unavailable"),
            ErrorKind::StatusQueryFailed => String::from_str("status query failed"),
            ErrorKind::DiffComputationFailed => String::from_str("diff computation failed"),
            ErrorKind::StagingFailed => String::from_str("staging failed"),
            ErrorKind::CommitFailed => String::from_str("commit failed"),
        };
        text.append(": ");
        text.append(self.message.as_str());
        text
    }
}

} // verus!

//! Errors of the storage layer.
//!
//! A storage error is fatal to a node. It is either a failure of the
//! underlying I/O, or a violation of an invariant that a defensive store
//! found at its boundary, which shows a bug in the caller or a corrupted
//! store.

use vstd::prelude::*;

use crate::log_id::LogId;
use crate::storage::snapshot_meta::SnapshotSignature;
use crate::vote::Vote;

verus! {

/// What a storage operation was about when it failed.
#[derive(Debug, Clone, PartialEq, Eq)]
pub enum ErrorSubject {
    /// The store as a whole.
    Store,
    /// The vote.
    Vote,
    /// Several log entries.
    Logs,
    /// The log entry with the given id.
    Log(LogId),
    /// The log entry at the given index.
    LogIndex(u64),
    /// The application of the log entry with the given id.
    Apply(LogId),
    /// The state machine.
    StateMachine,
    /// The snapshot with the given signature.
    Snapshot(SnapshotSignature),
}

impl ErrorSubject {
    /// Whether the subject is the vote.
    pub fn is_vote(&self) -> (r: bool)
        ensures
            r == (*self is Vote),
    {
        matches!(self, ErrorSubject::Vote)
    }

    /// Whether the subject is several log entries.
    pub fn is_logs(&self) -> (r: bool)
        ensures
            r == (*self is Logs),
    {
        matches!(self, ErrorSubject::Logs)
    }

    /// Whether the subject is the log entry with the id `log_id`.
    pub fn is_log(&self, log_id: LogId) -> (r: bool)
        ensures
            r == (*self == ErrorSubject::Log(log_id)),
    {
        match self {
            ErrorSubject::Log(id) => *id == log_id,
            _ => false,
        }
    }

    /// Whether the subject is the log entry at `index`.
    pub fn is_log_index(&self, index: u64) -> (r: bool)
        ensures
            r == (*self == ErrorSubject::LogIndex(index)),
    {
        match self {
            ErrorSubject::LogIndex(i) => *i == index,
            _ => false,
        }
    }

    /// Whether the subject is the application of the log entry with the id
    /// `log_id`.
    pub fn is_apply(&self, log_id: LogId) -> (r: bool)
        ensures
            r == (*self == ErrorSubject::Apply(log_id)),
    {
        match self {
            ErrorSubject::Apply(id) => *id == log_id,
            _ => false,
        }
    }
}

/// What a storage operation was doing when it failed.
#[derive(Debug, Clone, Copy, PartialEq, Eq, Structural)]
pub enum ErrorVerb {
    Read,
    Write,
    Seek,
    Delete,
    Flush,
}

/// An invariant that a caller of the store has violated.
#[derive(Debug, Clone, Copy, PartialEq, Eq, Structural)]
pub enum Violation {
    /// The vote to save is below the saved one.
    VoteNotAscending { curr: Vote, to: Vote },
    /// The vote to save changes the leader within a term.
    NonIncrementalVote { curr: Vote, to: Vote },
    /// A log entry at a greater index has a smaller log id.
    DirtyLog { higher_index_log_id: LogId, lower_index_log_id: LogId },
    /// The entry at index `want` is absent; `got` is the nearest index that
    /// was found.
    LogIndexNotFound { want: u64, got: Option<u64> },
    /// The range of indices holds no index: `end` is the last index,
    /// inclusive.
    RangeEmpty { start: Option<u64>, end: Option<u64> },
    /// No entries were given.
    LogsEmpty,
    /// The store holds no entries.
    StoreLogsEmpty,
    /// The entries to append do not follow one another, or do not follow the
    /// last one in the store.
    LogsNonConsecutive { prev: Option<LogId>, next: LogId },
    /// The entries to apply do not follow one another, or do not follow the
    /// last applied one.
    ApplyNonConsecutive { prev: Option<LogId>, next: LogId },
    /// An applied entry is committed, and never conflicts.
    AppliedWontConflict { last_applied: Option<LogId>, first_conflict_log_id: LogId },
    /// Only applied entries may be purged.
    PurgeNonApplied { last_applied: Option<LogId>, purge_upto: LogId },
}

/// An error that a defensive store reports: the caller violated an
/// invariant of the storage contract.
#[derive(Debug, Clone, PartialEq, Eq)]
pub struct DefensiveError {
    pub subject: ErrorSubject,
    pub violation: Violation,
}

impl DefensiveError {
    pub fn new(subject: ErrorSubject, violation: Violation) -> (r: Self)
        ensures
            r.subject == subject,
            r.violation == violation,
    {
        DefensiveError { subject, violation }
    }
}

/// An error of the underlying I/O.
#[derive(Debug, Clone, PartialEq, Eq)]
pub struct StorageIOError {
    pub subject: ErrorSubject,
    pub verb: ErrorVerb,
    /// What the I/O layer said.
    pub cause: String,
}

impl StorageIOError {
    pub fn new(subject: ErrorSubject, verb: ErrorVerb, cause: String) -> (r: Self)
        ensures
            r.subject == subject,
            r.verb == verb,
            r.cause == cause,
    {
        StorageIOError { subject, verb, cause }
    }
}

/// An error of the storage layer.
#[derive(Debug, Clone, PartialEq, Eq)]
pub enum StorageError {
    /// A violation that a defensive store found.
    Defensive { source: DefensiveError },
    /// A failure of the underlying I/O.
    IO { source: StorageIOError },
}

impl StorageError {
    /// The defensive error, if this is one.
    pub fn into_defensive(self) -> (r: Option<DefensiveError>)
        ensures
            r == match self {
                StorageError::Defensive { source } => Some(source),
                StorageError::IO { .. } => None::<DefensiveError>,
            },
    {
        match self {
            StorageError::Defensive { source } => Some(source),
            StorageError::IO { .. } => None,
        }
    }

    /// The storage error for a failure of the underlying I/O.
    pub fn from_io_error(subject: ErrorSubject, verb: ErrorVerb, cause: String) -> (r: Self)
        ensures
            r == (StorageError::IO { source: StorageIOError { subject, verb, cause } }),
    {
        StorageError::IO { source: StorageIOError { subject, verb, cause } }
    }

    /// The storage error for a violation of the storage contract.
    pub fn defensive(subject: ErrorSubject, violation: Violation) -> (r: Self)
        ensures
            r == (StorageError::Defensive { source: DefensiveError { subject, violation } }),
    {
        StorageError::Defensive { source: DefensiveError { subject, violation } }
    }
}

} // verus!

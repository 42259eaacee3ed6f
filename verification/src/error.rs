//! What can go wrong, and how each failure is classified for the peer.
use vstd::prelude::*;

use crate::frame::{BatchFailureReason, CommitStatus, RetryClassification};
use crate::notation::NotaDecodeError;
use crate::path::UnixPath;
use crate::records::RecordKey;

verus! {

/// Why the record engine refused or failed an operation.
#[derive(Debug, PartialEq, Eq)]
pub enum EngineError {
    /// A change or a retraction named a key under which nothing is stored.
    RecordNotFound { key: RecordKey },
    /// An assertion named a key under which a record is stored already.
    RecordExists { key: RecordKey },
    /// The engine failed for a reason of its own.
    Failed { detail: String },
}

/// Why a command-line argument does not name what the program needs.
#[derive(Debug, PartialEq, Eq)]
pub enum ArgumentError {
    /// The daemon takes a signal-encoded file, not NOTA.
    ExpectedSignalFile,
    /// The argument was refused for another reason.
    Refused { detail: String },
}

/// Every failure of the ledger.
#[derive(Debug, PartialEq, Eq)]
pub enum Error {
    Engine(EngineError),
    Io { detail: String },
    Frame { detail: String },
    RuntimeFrame { detail: String },
    CommandLineRoute { detail: String },
    Nota(NotaDecodeError),
    Argument(ArgumentError),
    ActorCall { detail: String },
    DaemonRuntime { detail: String },
    ConfigurationArchiveDecode,
    ConfigurationArchiveEncode,
    ConfigurationRead { path: UnixPath, detail: String },
    ConfigurationWrite { path: UnixPath, detail: String },
    ExpectedSingleArgument,
    FlagArgument(String),
    UnexpectedFrame,
    HandshakeRejected,
    SignalRequestRejected,
    SignalRequestFailed,
    UnsupportedAtomicBatch { operation_count: usize },
    NexusReplyTierMismatch,
}

pub type Result<T> = core::result::Result<T, Error>;

/// Whether the failure lies in the machinery around the ledger: in input and
/// output, in the connection, or in the running daemon.
pub open spec fn is_runtime_failure(error: Error) -> bool {
    ||| error is Io
    ||| error is RuntimeFrame
    ||| error is ActorCall
    ||| error is DaemonRuntime
}

/// Why a batch that met `error` failed: the engine cannot be reached where the
/// machinery around it failed, and refused the batch otherwise.
pub open spec fn failure_reason(error: Error) -> BatchFailureReason {
    if is_runtime_failure(error) {
        BatchFailureReason::EngineUnavailable
    } else {
        BatchFailureReason::EngineRejected
    }
}

/// Whether to try a batch that met `error` again: unknown where the engine or
/// the machinery around it failed, and no otherwise.
pub open spec fn retry_advice(error: Error) -> RetryClassification {
    if is_runtime_failure(error) || error is Engine {
        RetryClassification::Unknown
    } else {
        RetryClassification::NotRetryable
    }
}

/// Whether a batch that met `error` may have left something in the store: unknown
/// where the engine or the machinery around it failed, and no otherwise.
pub open spec fn commit_state(error: Error) -> CommitStatus {
    if is_runtime_failure(error) || error is Engine {
        CommitStatus::Unknown
    } else {
        CommitStatus::NotCommitted
    }
}

/// A failure of the machinery is told apart from a refusal: a batch can be known not
/// to have been stored, and is not to be sent again, exactly where neither the
/// engine nor the machinery around it failed.
pub proof fn lemma_classified(error: Error)
    ensures
        failure_reason(error) == BatchFailureReason::EngineUnavailable <==> (error is Io
            || error is RuntimeFrame || error is ActorCall || error is DaemonRuntime),
        retry_advice(error) == RetryClassification::NotRetryable <==> !(error is Io
            || error is RuntimeFrame || error is ActorCall || error is DaemonRuntime
            || error is Engine),
        commit_state(error) == CommitStatus::NotCommitted <==> !(error is Io
            || error is RuntimeFrame || error is ActorCall || error is DaemonRuntime
            || error is Engine),
{
}

impl Error {
    pub fn batch_failure_reason(&self) -> (reason: BatchFailureReason)
        ensures
            reason == failure_reason(*self),
            reason == BatchFailureReason::EngineUnavailable <==> (self is Io || self is RuntimeFrame
                || self is ActorCall || self is DaemonRuntime),
            reason == BatchFailureReason::EngineRejected <==> !(self is Io || self is RuntimeFrame
                || self is ActorCall || self is DaemonRuntime),
    {
        match self {
            Error::Io { .. }
            | Error::RuntimeFrame { .. }
            | Error::ActorCall { .. }
            | Error::DaemonRuntime { .. } => BatchFailureReason::EngineUnavailable,
            _ => BatchFailureReason::EngineRejected,
        }
    }

    pub fn retry_classification(&self) -> (retry: RetryClassification)
        ensures
            retry == retry_advice(*self),
            retry == RetryClassification::Unknown <==> (self is Io || self is RuntimeFrame
                || self is ActorCall || self is DaemonRuntime || self is Engine),
    {
        match self {
            Error::Io { .. }
            | Error::RuntimeFrame { .. }
            | Error::ActorCall { .. }
            | Error::DaemonRuntime { .. }
            | Error::Engine(_) => RetryClassification::Unknown,
            _ => RetryClassification::NotRetryable,
        }
    }

    pub fn commit_status(&self) -> (status: CommitStatus)
        ensures
            status == commit_state(*self),
            status == CommitStatus::Unknown <==> (self is Io || self is RuntimeFrame
                || self is ActorCall || self is DaemonRuntime || self is Engine),
    {
        match self {
            Error::Engine(_)
            | Error::Io { .. }
            | Error::RuntimeFrame { .. }
            | Error::ActorCall { .. }
            | Error::DaemonRuntime { .. } => CommitStatus::Unknown,
            _ => CommitStatus::NotCommitted,
        }
    }

    /// The failure of a command line that names no known route.
    pub fn command_line_route(detail: String) -> (error: Self)
        ensures
            error == (Error::CommandLineRoute { detail }),
    {
        Error::CommandLineRoute { detail }
    }
}

/// The classification that a peer is given is that of the failure.
pub proof fn lemma_failures_classified(
    error: &Error,
    reason: BatchFailureReason,
    retry: RetryClassification,
    status: CommitStatus,
)
    requires
        call_ensures(Error::batch_failure_reason, (error,), reason),
        call_ensures(Error::retry_classification, (error,), retry),
        call_ensures(Error::commit_status, (error,), status),
    ensures
        reason == BatchFailureReason::EngineUnavailable <==> (error is Io || error is RuntimeFrame
            || error is ActorCall || error is DaemonRuntime),
        retry == RetryClassification::NotRetryable <==> !(error is Io || error is RuntimeFrame
            || error is ActorCall || error is DaemonRuntime || error is Engine),
        status == CommitStatus::NotCommitted <==> !(error is Io || error is RuntimeFrame
            || error is ActorCall || error is DaemonRuntime || error is Engine),
{
}

} // verus!

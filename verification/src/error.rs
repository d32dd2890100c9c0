//! Errors of the queue.

use vstd::prelude::*;

verus! {

/// Why a request was refused.
#[derive(Debug)]
pub enum Error {
    /// A value for the caller's key space is over the size limit.
    KvValueTooLarge { size: usize, max: usize },
    /// The queue name cannot be encoded in a key.
    InvalidQueueName { queue: String, reason: &'static str },
    /// The supplied job id is not acceptable.
    InvalidId { id: String, reason: &'static str },
    /// A job with the supplied id is still indexed.
    DuplicateJobId { id: String },
    /// A key is both written and deleted by one settlement.
    ConflictingKvEffect { key: Vec<u8> },
    /// The claim has ended: the lease ran out, or another settlement came
    /// first.
    ClaimLost,
    /// Cancellation of the claimed job was requested.
    CancelRequested,
    /// Stored state or an argument is not in the state the operation needs.
    InvalidState,
    /// No record of the job is stored.
    JobNotFound(String),
    /// The payload object of the job is gone.
    PayloadMissing { id: String },
    /// No writer ever created a store at the path.
    StoreNotInitialized { path: String },
}

/// The contents of an [`Error`].
pub enum ErrorView {
    KvValueTooLarge { size: nat, max: nat },
    InvalidQueueName { queue: Seq<char>, reason: Seq<char> },
    InvalidId { id: Seq<char>, reason: Seq<char> },
    DuplicateJobId { id: Seq<char> },
    ConflictingKvEffect { key: Seq<u8> },
    ClaimLost,
    CancelRequested,
    InvalidState,
    JobNotFound { id: Seq<char> },
    PayloadMissing { id: Seq<char> },
    StoreNotInitialized { path: Seq<char> },
}

impl View for Error {
    type V = ErrorView;

    open spec fn view(&self) -> ErrorView {
        match self {
            Error::KvValueTooLarge { size, max } => ErrorView::KvValueTooLarge {
                size: *size as nat,
                max: *max as nat,
            },
            Error::InvalidQueueName { queue, reason } => ErrorView::InvalidQueueName {
                queue: queue@,
                reason: reason@,
            },
            Error::InvalidId { id, reason } => ErrorView::InvalidId { id: id@, reason: reason@ },
            Error::DuplicateJobId { id } => ErrorView::DuplicateJobId { id: id@ },
            Error::ConflictingKvEffect { key } => ErrorView::ConflictingKvEffect { key: key@ },
            Error::ClaimLost => ErrorView::ClaimLost,
            Error::CancelRequested => ErrorView::CancelRequested,
            Error::InvalidState => ErrorView::InvalidState,
            Error::JobNotFound(id) => ErrorView::JobNotFound { id: id@ },
            Error::PayloadMissing { id } => ErrorView::PayloadMissing { id: id@ },
            Error::StoreNotInitialized { path } => ErrorView::StoreNotInitialized { path: path@ },
        }
    }
}

} // verus!

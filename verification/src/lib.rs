//! The decision core of a durable task queue kept in an ordered key-value
//! store.
//!
//! Jobs live in key spaces of the store that say what state they are in:
//! pending, scheduled, claimed, done or dead. Every operation of the queue is a
//! transition that moves jobs between them in one transaction, together with
//! the job index, the deduplication keys, the counters, the attempt histories
//! and the caller's own entries.
//!
//! The crate performs no I/O. A transition takes what has been read so far and
//! either names the next entry to read or returns the operations to commit;
//! what it does to the store is stated over [`store::StoreView`]. The state that
//! an open queue keeps in memory is [`queue_core::QueueCore`].
//!
//! What each operation promises of the job it is about is proved in [`promises`],
//! what holds across transitions in [`laws`], what whole passes over the store come
//! to in [`passes`], and what operations are built from in [`parts`].

pub mod assoc;
pub mod bytes;
pub mod claim;
pub mod claim_cursor;
pub mod enqueue;
pub mod error;
pub mod ids;
pub mod job;
pub mod keys;
pub mod laws;
pub mod lease_registry;
pub mod options;
pub mod parts;
pub mod passes;
pub mod payload;
pub mod promises;
pub mod queue_core;
pub mod range;
pub mod read;
pub mod reader;
pub mod reaper;
pub mod scheduler;
pub mod settle;
pub mod stats;
pub mod store;
pub mod time;
pub mod time_bound;
pub mod txn;
pub mod worker;

pub use enqueue::EnqueueResult;
pub use error::Error;
pub use job::{AttemptOutcome, Claim, JobAttempt, JobRecord, JobStatus};
pub use options::{
    EnqueueOptions, EnqueueRequest, QueueConfig, SettlementEffects, DEFAULT_PAYLOAD_OFFLOAD_THRESHOLD,
    MAX_KV_VALUE_SIZE, PRIORITY_HIGH, PRIORITY_LOW, PRIORITY_NORMAL,
};
pub use queue_core::{QueueCore, WaitOutcome};
pub use read::{JobPage, KvPage};
pub use reader::ReaderMode;
pub use settle::{CancelOutcome, NackOutcome, WakeOutcome};
pub use stats::{QueueMergeOperator, QueueStats};
pub use time::{Duration, UnixTime};
pub use worker::{FailWith, LeaseHandle, PermanentFailure, Worker, WorkerError};

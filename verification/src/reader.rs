//! Readers of a store that another process writes.

use crate::error::{Error, ErrorView};
use vstd::prelude::*;

verus! {

/// How a reader follows the writer.
#[derive(Clone, Copy, Debug, PartialEq, Eq, Structural)]
pub enum ReaderMode {
    /// The reader holds a checkpoint that it refreshes, so that the objects it
    /// reads are not collected.
    ManagedCheckpoint,
    /// The reader follows the latest state without a checkpoint.
    FollowLatest,
}

impl Default for ReaderMode {
    fn default() -> (r: ReaderMode)
        ensures
            r == ReaderMode::ManagedCheckpoint,
    {
        ReaderMode::ManagedCheckpoint
    }
}

/// The error of an open that failed because the store could not be read. A
/// missing manifest and a corrupt one look alike; a path without objects tells
/// that no writer ever created the store. `None` leaves the error as it is.
pub fn open_refusal(unreadable: bool, path_is_empty: bool, path: &str) -> (r: Option<Error>)
    ensures
        match r {
            Some(e) => unreadable && path_is_empty && e@ == (ErrorView::StoreNotInitialized {
                path: path@,
            }),
            None => !(unreadable && path_is_empty),
        },
{
    if unreadable && path_is_empty {
        Some(Error::StoreNotInitialized { path: path.to_owned() })
    } else {
        None
    }
}

/// A sign of life of the writer.
#[derive(Clone, Copy, Debug, PartialEq, Eq, Structural)]
pub struct WriterHeartbeat {
    /// Counts the beats of all writers of the store.
    pub counter: u64,
    /// When the beat was written, in milliseconds since the epoch.
    pub at_ms: u64,
    /// The interval at which the writer promises beats, in milliseconds.
    pub interval_ms: u64,
    /// The epoch of the writer.
    pub writer_epoch: u64,
    /// Whether the writer closed the store with this beat.
    pub closed: bool,
}

/// The beat that follows the stored one: counters continue across writers and
/// start at one.
pub fn next_beat(
    stored: Option<WriterHeartbeat>,
    at_ms: u64,
    interval_ms: u64,
    writer_epoch: u64,
    closed: bool,
) -> (r: WriterHeartbeat)
    requires
        stored matches Some(beat) ==> beat.counter < u64::MAX,
    ensures
        r == (WriterHeartbeat {
            counter: match stored {
                Some(beat) => (beat.counter + 1) as u64,
                None => 1,
            },
            at_ms,
            interval_ms,
            writer_epoch,
            closed,
        }),
{
    let counter: u64 = match stored {
        Some(beat) => beat.counter + 1,
        None => 1,
    };
    WriterHeartbeat { counter, at_ms, interval_ms, writer_epoch, closed }
}

} // verus!

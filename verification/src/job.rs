//! Jobs: their lifecycle states, their stored records, the claims held on
//! them and the history of their attempts.

use crate::bytes::copy_bytes;
use vstd::prelude::*;

verus! {

/// The lifecycle state of a job.
#[derive(Clone, Copy, Debug, PartialEq, Eq, Hash, Structural)]
pub enum JobStatus {
    /// Waiting to be claimed.
    Pending,
    /// Held by a worker under a lease.
    Claimed,
    /// Acknowledged and kept.
    Done,
    /// Dead-lettered.
    Dead,
    /// Waiting for its `run_at` before it becomes pending.
    Scheduled,
}

/// How one attempt at a job ended.
#[derive(Clone, Copy, Debug, PartialEq, Eq, Hash, Structural)]
pub enum AttemptOutcome {
    /// The worker acknowledged the job.
    Completed,
    /// The worker failed the job and attempts remained.
    Retried,
    /// The job was dead-lettered.
    DeadLettered,
    /// The lease ran out and attempts remained.
    LeaseExpired,
    /// The process that held the claim exited and attempts remained.
    Interrupted,
    /// The dead job was put back to pending with its attempts reset.
    Requeued,
}

/// The text inside an optional string.
pub open spec fn opt_text(o: Option<String>) -> Option<Seq<char>> {
    match o {
        Some(s) => Some(s@),
        None => None,
    }
}

/// The bytes inside an optional byte vector.
pub open spec fn opt_bytes(o: Option<Vec<u8>>) -> Option<Seq<u8>> {
    match o {
        Some(v) => Some(v@),
        None => None,
    }
}

/// The texts of a list of headers.
pub open spec fn header_texts(headers: Seq<(String, String)>) -> Seq<(Seq<char>, Seq<char>)> {
    Seq::new(headers.len(), |i: int| (headers[i].0@, headers[i].1@))
}

/// A copy of an optional byte vector.
pub fn copy_opt_bytes(o: &Option<Vec<u8>>) -> (r: Option<Vec<u8>>)
    ensures
        opt_bytes(r) == opt_bytes(*o),
{
    match o {
        Some(v) => Some(copy_bytes(v.as_slice())),
        None => None,
    }
}

/// A copy of a list of headers.
pub fn copy_headers(headers: &Vec<(String, String)>) -> (r: Vec<(String, String)>)
    ensures
        header_texts(r@) == header_texts(headers@),
{
    let mut out: Vec<(String, String)> = Vec::new();
    let mut i: usize = 0;
    while i < headers.len()
        invariant
            0 <= i <= headers@.len(),
            out@.len() == i,
            forall|j: int|
                0 <= j < i ==> out@[j].0@ == headers@[j].0@ && out@[j].1@ == headers@[j].1@,
        decreases headers@.len() - i,
    {
        out.push((headers[i].0.clone(), headers[i].1.clone()));
        i += 1;
    }
    assert(header_texts(out@) =~= header_texts(headers@));
    out
}

/// A job as the store keeps it.
#[derive(Debug)]
pub struct JobRecord {
    /// Identifier, unique among the jobs the store holds.
    pub id: String,
    /// Queue the job is on.
    pub queue: String,
    /// Payload bytes; empty in the stored form of an offloaded payload.
    pub payload: Vec<u8>,
    /// Name of the payload object when the payload is offloaded.
    pub payload_ref: Option<String>,
    /// Metadata attached at enqueue.
    pub headers: Vec<(String, String)>,
    /// Lifecycle state.
    pub status: JobStatus,
    /// Claims taken so far.
    pub attempts: u32,
    /// Claims after which a failure dead-letters the job.
    pub max_attempts: u32,
    /// Priority; lower is claimed first.
    pub priority: u32,
    /// When the job was enqueued, in milliseconds since the epoch.
    pub enqueued_at: u64,
    /// When the current claim was taken.
    pub claimed_at: Option<u64>,
    /// When the job was acknowledged.
    pub completed_at: Option<u64>,
    /// When the job was dead-lettered.
    pub failed_at: Option<u64>,
    /// When a scheduled job becomes due.
    pub run_at: Option<u64>,
    /// Deduplication key held until the job is claimed.
    pub dedup_key: Option<String>,
    /// The error of the latest failed attempt.
    pub last_error: Option<String>,
    /// Whether cancellation was requested while the job was claimed.
    pub cancel_requested: bool,
    /// When the job was woken ahead of its `run_at`.
    pub woken_at: Option<u64>,
    /// Payload delivered by the wake.
    pub wake_payload: Option<Vec<u8>>,
}

/// The contents of a [`JobRecord`].
pub struct JobView {
    pub id: Seq<char>,
    pub queue: Seq<char>,
    pub payload: Seq<u8>,
    pub payload_ref: Option<Seq<char>>,
    pub headers: Seq<(Seq<char>, Seq<char>)>,
    pub status: JobStatus,
    pub attempts: u32,
    pub max_attempts: u32,
    pub priority: u32,
    pub enqueued_at: u64,
    pub claimed_at: Option<u64>,
    pub completed_at: Option<u64>,
    pub failed_at: Option<u64>,
    pub run_at: Option<u64>,
    pub dedup_key: Option<Seq<char>>,
    pub last_error: Option<Seq<char>>,
    pub cancel_requested: bool,
    pub woken_at: Option<u64>,
    pub wake_payload: Option<Seq<u8>>,
}

impl View for JobRecord {
    type V = JobView;

    open spec fn view(&self) -> JobView {
        JobView {
            id: self.id@,
            queue: self.queue@,
            payload: self.payload@,
            payload_ref: opt_text(self.payload_ref),
            headers: header_texts(self.headers@),
            status: self.status,
            attempts: self.attempts,
            max_attempts: self.max_attempts,
            priority: self.priority,
            enqueued_at: self.enqueued_at,
            claimed_at: self.claimed_at,
            completed_at: self.completed_at,
            failed_at: self.failed_at,
            run_at: self.run_at,
            dedup_key: opt_text(self.dedup_key),
            last_error: opt_text(self.last_error),
            cancel_requested: self.cancel_requested,
            woken_at: self.woken_at,
            wake_payload: opt_bytes(self.wake_payload),
        }
    }
}

impl JobView {
    /// The form in which the job is stored: an offloaded payload is not kept
    /// inline.
    pub open spec fn stored(self) -> JobView {
        if self.payload_ref is Some {
            JobView { payload: Seq::empty(), ..self }
        } else {
            self
        }
    }
}

impl Clone for JobRecord {
    fn clone(&self) -> (r: JobRecord)
        ensures
            r@ == self@,
    {
        JobRecord {
            id: self.id.clone(),
            queue: self.queue.clone(),
            payload: copy_bytes(self.payload.as_slice()),
            payload_ref: self.payload_ref.clone(),
            headers: copy_headers(&self.headers),
            status: self.status,
            attempts: self.attempts,
            max_attempts: self.max_attempts,
            priority: self.priority,
            enqueued_at: self.enqueued_at,
            claimed_at: self.claimed_at,
            completed_at: self.completed_at,
            failed_at: self.failed_at,
            run_at: self.run_at,
            dedup_key: self.dedup_key.clone(),
            last_error: self.last_error.clone(),
            cancel_requested: self.cancel_requested,
            woken_at: self.woken_at,
            wake_payload: copy_opt_bytes(&self.wake_payload),
        }
    }
}

/// A pending job that was never claimed.
pub open spec fn fresh_job(
    id: Seq<char>,
    queue: Seq<char>,
    payload: Seq<u8>,
    max_attempts: u32,
    priority: u32,
    now: u64,
) -> JobView {
    JobView {
        id,
        queue,
        payload,
        payload_ref: None,
        headers: Seq::empty(),
        status: JobStatus::Pending,
        attempts: 0,
        max_attempts,
        priority,
        enqueued_at: now,
        claimed_at: None,
        completed_at: None,
        failed_at: None,
        run_at: None,
        dedup_key: None,
        last_error: None,
        cancel_requested: false,
        woken_at: None,
        wake_payload: None,
    }
}

impl JobRecord {
    /// The record of a new pending job.
    pub fn new_pending(
        id: String,
        queue: String,
        payload: Vec<u8>,
        max_attempts: u32,
        priority: u32,
        now: u64,
    ) -> (r: JobRecord)
        ensures
            r@ == fresh_job(id@, queue@, payload@, max_attempts, priority, now),
    {
        let headers: Vec<(String, String)> = Vec::new();
        proof {
            assert(header_texts(headers@) =~= Seq::empty());
        }
        JobRecord {
            id,
            queue,
            payload,
            payload_ref: None,
            headers,
            status: JobStatus::Pending,
            attempts: 0,
            max_attempts,
            priority,
            enqueued_at: now,
            claimed_at: None,
            completed_at: None,
            failed_at: None,
            run_at: None,
            dedup_key: None,
            last_error: None,
            cancel_requested: false,
            woken_at: None,
            wake_payload: None,
        }
    }

    /// A copy in the form the store keeps: a payload fetched from the payload
    /// store is left out.
    pub fn stored_clone(&self) -> (r: JobRecord)
        ensures
            r@ == self@.stored(),
    {
        let mut stored = self.clone();
        if stored.payload_ref.is_some() {
            stored.payload = Vec::new();
        }
        assert(stored@.payload =~= self@.stored().payload);
        stored
    }
}

/// A job held under a lease.
///
/// The token identifies this claim among all claims of the job.
#[derive(Debug)]
pub struct Claim {
    /// The claimed job, with its payload inline.
    pub job: JobRecord,
    /// The claim's token.
    pub token: u64,
}

impl Claim {
    /// The claimed job.
    pub fn job(&self) -> (r: &JobRecord)
        ensures
            *r == self.job,
    {
        &self.job
    }

    /// The token of this claim.
    pub fn token(&self) -> (r: u64)
        ensures
            r == self.token,
    {
        self.token
    }
}

impl JobView {
    /// The job with the payload that `claimed` holds inline, where it is
    /// offloaded.
    pub open spec fn delivered(self, claimed: Seq<u8>) -> JobView {
        if self.payload_ref is Some {
            JobView { payload: claimed, ..self }
        } else {
            self
        }
    }
}

/// The record a settlement delivers to those waiting for the job: the stored
/// record with the payload the claim carried, so that an offloaded payload
/// is inline.
pub fn delivered_record(stored: &JobRecord, claim: &Claim) -> (r: JobRecord)
    ensures
        r@ == stored@.delivered(claim.job.payload@),
{
    let mut delivered = stored.clone();
    if delivered.payload_ref.is_some() {
        delivered.payload = copy_bytes(claim.job.payload.as_slice());
    }
    delivered
}

/// One entry of a job's attempt history.
#[derive(Debug)]
pub struct JobAttempt {
    /// The number of the attempt, or zero for a requeue.
    pub attempt: u32,
    /// When the attempt's claim was taken.
    pub claimed_at: Option<u64>,
    /// When the entry was written.
    pub recorded_at: u64,
    /// How the attempt ended.
    pub outcome: AttemptOutcome,
    /// The error the attempt ended with.
    pub error: Option<String>,
}

/// The contents of a [`JobAttempt`].
pub struct JobAttemptView {
    pub attempt: u32,
    pub claimed_at: Option<u64>,
    pub recorded_at: u64,
    pub outcome: AttemptOutcome,
    pub error: Option<Seq<char>>,
}

impl View for JobAttempt {
    type V = JobAttemptView;

    open spec fn view(&self) -> JobAttemptView {
        JobAttemptView {
            attempt: self.attempt,
            claimed_at: self.claimed_at,
            recorded_at: self.recorded_at,
            outcome: self.outcome,
            error: opt_text(self.error),
        }
    }
}

impl Clone for JobAttempt {
    fn clone(&self) -> (r: JobAttempt)
        ensures
            r@ == self@,
    {
        JobAttempt {
            attempt: self.attempt,
            claimed_at: self.claimed_at,
            recorded_at: self.recorded_at,
            outcome: self.outcome,
            error: self.error.clone(),
        }
    }
}

} // verus!

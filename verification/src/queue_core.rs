//! The state of an open queue and what its transitions do to it.
//!
//! A transition is planned against the store, committed by the caller, and
//! then finished here: the leases, the claim cursor and the bound of the
//! scheduled jobs follow the committed store.

use crate::claim::{
    begin_claim_batch, bound_in_queue, claim_range, claim_txn, claimed_batch, claimed_job,
    draw_tokens, leased_each, row_views, ClaimTaken,
};
use crate::claim_cursor::{opt_bound, ClaimCursor, ClaimScan, CursorState, CursorView, ScanFrom};
use crate::enqueue::{
    prepared_views, result_views, EnqueueResult, EnqueueResultView, PreparedJob, PreparedView,
};
use crate::error::Error;
use crate::ids::JobIds;
use crate::job::{opt_text, Claim, JobRecord, JobStatus};
use crate::keys::{name_fits, RecordKey, RecordKeyView};
use crate::lease_registry::{LeaseRegistry, LeaseState, Renewal};
use crate::options::{QueueConfig, QueueConfigs};
use crate::range::KeyBound;
use crate::settle::{CancelOutcome, Cancelled};
use crate::store::{apply, entry, op_views, StoreView};
use crate::time::{millis_of, Duration};
use crate::time_bound::{earlier, TimeBound};
use crate::txn::Plan;
use vstd::prelude::*;

verus! {

/// How a wait for a job's completion ended.
#[derive(Debug)]
pub enum WaitOutcome {
    /// The job was acknowledged.
    Done(Box<JobRecord>),
    /// The job was dead-lettered.
    Dead(Box<JobRecord>),
    /// The job was removed before it was claimed.
    Cancelled,
    /// The time to wait ran out.
    TimedOut,
    /// There was no such job.
    NotFound,
}

/// What a wait for completion finds at its start.
#[derive(Debug)]
pub enum WaitStart {
    /// The outcome is known.
    Known(WaitOutcome),
    /// There is no record: an outcome delivered meanwhile counts.
    Absent,
    /// The job is not over.
    Pending,
}

/// What a wait for completion finds at its start, where the job's record is
/// looked up after the wait is registered.
pub fn wait_start(found: Option<JobRecord>) -> (r: WaitStart)
    ensures
        match found {
            None => r is Absent,
            Some(job) => match job.status {
                JobStatus::Done => r == WaitStart::Known(WaitOutcome::Done(Box::new(job))),
                JobStatus::Dead => r == WaitStart::Known(WaitOutcome::Dead(Box::new(job))),
                _ => r is Pending,
            },
        },
{
    match found {
        None => WaitStart::Absent,
        Some(job) => match job.status {
            JobStatus::Done => WaitStart::Known(WaitOutcome::Done(Box::new(job))),
            JobStatus::Dead => WaitStart::Known(WaitOutcome::Dead(Box::new(job))),
            _ => WaitStart::Pending,
        },
    }
}

/// The outcome of a wait for a job without a record: the one delivered
/// meanwhile, if any.
pub fn absent_outcome(delivered: Option<WaitOutcome>) -> (r: WaitOutcome)
    ensures
        r == match delivered {
            Some(outcome) => outcome,
            None => WaitOutcome::NotFound,
        },
{
    match delivered {
        Some(outcome) => outcome,
        None => WaitOutcome::NotFound,
    }
}

/// The outcome of a wait that ended: the one delivered, if any came in time.
pub fn waited_outcome(delivered: Option<WaitOutcome>) -> (r: WaitOutcome)
    ensures
        r == match delivered {
            Some(outcome) => outcome,
            None => WaitOutcome::TimedOut,
        },
{
    match delivered {
        Some(outcome) => outcome,
        None => WaitOutcome::TimedOut,
    }
}

/// What is left to do outside the queue's own state once a claim has ended.
#[derive(Debug)]
pub struct ClaimFinish {
    /// The payload object to delete.
    pub delete_payload: Option<String>,
    /// Whether the job's life is over, so that those who wait for it are to
    /// be told.
    pub terminal: bool,
}

/// What is left to do outside the queue's own state once a cancellation is
/// committed.
#[derive(Debug)]
pub struct CancelFinish {
    /// The token of the claim whose worker is to be told to stop.
    pub fire: Option<u64>,
    /// The payload object to delete.
    pub delete_payload: Option<String>,
    /// The outcome to deliver to those who wait for the job.
    pub outcome: Option<WaitOutcome>,
}

/// The outcome delivered to those who wait for a job that is over, with its
/// payload inline.
pub fn terminal_outcome(job: JobRecord) -> (r: WaitOutcome)
    ensures
        r == if job.status == JobStatus::Dead {
            WaitOutcome::Dead(Box::new(job))
        } else {
            WaitOutcome::Done(Box::new(job))
        },
{
    match job.status {
        JobStatus::Dead => WaitOutcome::Dead(Box::new(job)),
        _ => WaitOutcome::Done(Box::new(job)),
    }
}

/// A claim to run: what to scan for.
#[derive(Debug)]
pub struct ClaimStart {
    /// The prefix of the keys to scan.
    pub prefix: Vec<u8>,
    /// Where to start, as the part of the key after the prefix.
    pub start: KeyBound,
    /// The scan state, to be handed back.
    pub scan: ClaimScan,
}

/// A claim that is ready to be committed.
#[derive(Debug)]
pub struct ClaimCommit {
    /// The transaction, and the claims it makes.
    pub plan: Plan<Vec<Claim>>,
    /// The last pending key it takes.
    pub last_key: Vec<u8>,
    /// Whether it takes every pending job that the scan came to.
    pub drained: bool,
}

/// The state of an open queue.
pub struct QueueCore {
    /// The configurations.
    pub configs: QueueConfigs,
    /// Where claim scans start.
    pub claim_cursor: ClaimCursor,
    /// The bound of the scheduled keys, lowered after every commit that
    /// writes one.
    pub scheduled_bound: TimeBound,
    /// The leases of the claims held in this process.
    pub lease_registry: LeaseRegistry,
    /// The source of job ids.
    pub ids: JobIds,
    /// The payload size in bytes above which a payload becomes an object of
    /// its own; `None` keeps every payload inline.
    pub payload_offload_threshold: Option<usize>,
}

/// The cursor states after the pending key of a job was committed.
pub open spec fn pending_noted(
    cursors: Map<Seq<char>, CursorView>,
    key: RecordKeyView,
) -> Map<Seq<char>, CursorView> {
    let state = match entry(cursors, key.queue()) {
        Some(state) => state,
        None => CursorView::unknown(),
    };
    cursors.insert(key.queue(), state.inserted(key.encode()))
}

/// The cursor states after the enqueues that wrote a pending key were
/// committed.
pub open spec fn enqueues_noted(
    cursors: Map<Seq<char>, CursorView>,
    jobs: Seq<PreparedView>,
    results: Seq<EnqueueResultView>,
) -> Map<Seq<char>, CursorView>
    decreases jobs.len(),
{
    if jobs.len() == 0 {
        cursors
    } else {
        let rest = enqueues_noted(cursors, jobs.drop_last(), results);
        if jobs.len() <= results.len() && results[jobs.len() - 1] is New && jobs.last().key
            is Pending {
            pending_noted(rest, jobs.last().key)
        } else {
            rest
        }
    }
}

/// The bound of the scheduled keys after the enqueues that wrote one were
/// committed.
pub open spec fn enqueues_bounded(
    bound: u64,
    jobs: Seq<PreparedView>,
    results: Seq<EnqueueResultView>,
) -> u64
    decreases jobs.len(),
{
    if jobs.len() == 0 {
        bound
    } else {
        let rest = enqueues_bounded(bound, jobs.drop_last(), results);
        if jobs.len() <= results.len() && results[jobs.len() - 1] is New {
            match jobs.last().key {
                RecordKeyView::Scheduled { run_at, .. } => earlier(rest, run_at),
                _ => rest,
            }
        } else {
            rest
        }
    }
}

impl QueueCore {
    /// The state of a queue that was just opened.
    pub fn new(
        default: QueueConfig,
        per_queue: Vec<(String, QueueConfig)>,
        payload_offload_threshold: Option<usize>,
    ) -> (r: QueueCore)
        ensures
            r.configs.fallback() == default,
            r.configs.overrides() == crate::assoc::to_map(
                crate::options::config_pairs(per_queue@),
            ),
            r.claim_cursor@ == Map::<Seq<char>, CursorView>::empty(),
            r.scheduled_bound@ == 0,
            r.lease_registry@ == Map::<(Seq<char>, Seq<char>), LeaseState>::empty(),
            r.ids@ == 0,
            r.payload_offload_threshold == payload_offload_threshold,
    {
        QueueCore {
            configs: QueueConfigs::new(default, per_queue),
            claim_cursor: ClaimCursor::new(),
            scheduled_bound: TimeBound::new(),
            lease_registry: LeaseRegistry::new(),
            ids: JobIds::new(),
            payload_offload_threshold,
        }
    }

    /// The configuration of a queue.
    pub fn queue_config(&self, queue: &str) -> (r: &QueueConfig)
        ensures
            *r == self.configs.config(queue@),
    {
        self.configs.get(queue)
    }

    /// How long a lease on a queue's jobs lasts.
    pub fn queue_lease_duration(&self, queue: &str) -> (r: Duration)
        ensures
            r == self.configs.config(queue@).lease_duration,
    {
        self.configs.get(queue).lease_duration
    }

    /// How long a queue's acknowledged jobs are kept; `None` drops them.
    pub fn queue_keep_done_jobs(&self, queue: &str) -> (r: Option<Duration>)
        ensures
            r == self.configs.config(queue@).keep_done_jobs,
    {
        self.configs.get(queue).keep_done_jobs
    }

    /// How long a queue's dead jobs are kept; `None` keeps them for good.
    pub fn queue_dead_retention(&self, queue: &str) -> (r: Option<Duration>)
        ensures
            r == self.configs.config(queue@).dead_retention,
    {
        self.configs.get(queue).dead_retention
    }

    /// Notes that a pending record was committed.
    pub fn note_pending(&mut self, key: &RecordKey)
        requires
            name_fits(key@.queue()),
        ensures
            final(self).claim_cursor@ == pending_noted(old(self).claim_cursor@, key@),
            final(self).scheduled_bound == old(self).scheduled_bound,
            final(self).lease_registry == old(self).lease_registry,
            final(self).configs == old(self).configs,
            final(self).ids == old(self).ids,
            final(self).payload_offload_threshold == old(self).payload_offload_threshold,
    {
        let bytes = key.encode();
        let queue: String = match key {
            RecordKey::Pending { queue, .. } => queue.clone(),
            RecordKey::Scheduled { queue, .. } => queue.clone(),
            RecordKey::Claimed { queue, .. } => queue.clone(),
            RecordKey::Done { queue, .. } => queue.clone(),
            RecordKey::Dead { queue, .. } => queue.clone(),
        };
        self.claim_cursor.note_pending_insert(queue.as_str(), bytes.as_slice());
    }

    /// Notes the jobs that a commit enqueued: pending ones on the claim
    /// cursor, scheduled ones on the bound of the scheduled keys. The results
    /// align with the jobs.
    pub fn note_enqueued(&mut self, jobs: &Vec<PreparedJob>, results: &Vec<EnqueueResult>)
        requires
            forall|i: int| 0 <= i < jobs@.len() ==> name_fits((#[trigger] jobs@[i]).key@.queue()),
        ensures
            final(self).claim_cursor@ == enqueues_noted(
                old(self).claim_cursor@,
                prepared_views(jobs@),
                result_views(results@),
            ),
            final(self).scheduled_bound@ == enqueues_bounded(
                old(self).scheduled_bound@,
                prepared_views(jobs@),
                result_views(results@),
            ),
            final(self).lease_registry == old(self).lease_registry,
            final(self).configs == old(self).configs,
            final(self).ids == old(self).ids,
            final(self).payload_offload_threshold == old(self).payload_offload_threshold,
    {
        let ghost all = prepared_views(jobs@);
        let ghost outcome = result_views(results@);
        let ghost start = *self;
        let mut i: usize = 0;
        proof {
            assert(all.subrange(0, 0) =~= Seq::empty());
        }
        while i < jobs.len()
            invariant
                0 <= i <= jobs@.len(),
                all == prepared_views(jobs@),
                outcome == result_views(results@),
                forall|j: int|
                    0 <= j < jobs@.len() ==> name_fits((#[trigger] jobs@[j]).key@.queue()),
                self.claim_cursor@ == enqueues_noted(
                    start.claim_cursor@,
                    all.subrange(0, i as int),
                    outcome,
                ),
                self.scheduled_bound@ == enqueues_bounded(
                    start.scheduled_bound@,
                    all.subrange(0, i as int),
                    outcome,
                ),
                self.lease_registry == start.lease_registry,
                self.configs == start.configs,
                self.ids == start.ids,
                self.payload_offload_threshold == start.payload_offload_threshold,
            decreases jobs@.len() - i,
        {
            proof {
                assert(all.subrange(0, i + 1).drop_last() =~= all.subrange(0, i as int));
                assert(all.subrange(0, i + 1).last() == jobs@[i as int]@);
            }
            let written: bool = if i < results.len() {
                match &results[i] {
                    EnqueueResult::New(_) => true,
                    EnqueueResult::AlreadyEnqueued(_) => false,
                }
            } else {
                false
            };
            if written {
                match &jobs[i].key {
                    RecordKey::Pending { .. } => self.note_pending(&jobs[i].key),
                    RecordKey::Scheduled { run_at, .. } => self.scheduled_bound.lower(*run_at),
                    _ => {},
                }
            }
            i += 1;
        }
        proof {
            assert(all.subrange(0, i as int) =~= all);
        }
    }

    /// Finishes the end of a claim after its commit: the lease is dropped
    /// unless a later claim holds it, a pending record is noted, and a
    /// scheduled one lowers the bound of the scheduled keys. The payload
    /// object of a done job that was not kept is left to delete.
    pub fn finish_claim_end(
        &mut self,
        job: &JobRecord,
        kept: bool,
        token: u64,
        pending_key: &Option<RecordKey>,
    ) -> (r: ClaimFinish)
        requires
            pending_key matches Some(key) ==> name_fits(key@.queue()),
        ensures
            final(self).lease_registry@ == match entry(
                old(self).lease_registry@,
                (job@.queue, job@.id),
            ) {
                Some(lease) if lease.token == token => old(self).lease_registry@.remove(
                    (job@.queue, job@.id),
                ),
                _ => old(self).lease_registry@,
            },
            final(self).claim_cursor@ == match *pending_key {
                Some(key) => pending_noted(old(self).claim_cursor@, key@),
                None => old(self).claim_cursor@,
            },
            final(self).scheduled_bound@ == match job@.run_at {
                Some(at) if job@.status == JobStatus::Scheduled => earlier(
                    old(self).scheduled_bound@,
                    at,
                ),
                _ => old(self).scheduled_bound@,
            },
            final(self).configs == old(self).configs,
            final(self).ids == old(self).ids,
            final(self).payload_offload_threshold == old(self).payload_offload_threshold,
            opt_text(r.delete_payload) == if job@.status == JobStatus::Done && !kept {
                job@.payload_ref
            } else {
                None
            },
            r.terminal == (job@.status == JobStatus::Done || job@.status == JobStatus::Dead),
    {
        self.lease_registry.remove(job.queue.as_str(), job.id.as_str(), token);
        if let Some(key) = pending_key {
            self.note_pending(key);
        }
        if job.status == JobStatus::Scheduled {
            if let Some(run_at) = job.run_at {
                self.scheduled_bound.lower(run_at);
            }
        }
        let terminal: bool = match job.status {
            JobStatus::Done => true,
            JobStatus::Dead => true,
            _ => false,
        };
        let delete_payload: Option<String> = if job.status == JobStatus::Done && !kept {
            job.payload_ref.clone()
        } else {
            None
        };
        ClaimFinish { delete_payload, terminal }
    }

    /// Finishes a cancellation after its commit: the claim of the job, if one is
    /// held, is marked as cancelled. This is done for a removed job too, whose
    /// claim may have been requeued a moment ago with its worker still running.
    /// A removed job leaves its payload object to delete and is over for those
    /// who wait for it.
    pub fn finish_cancel(&mut self, id: &str, cancelled: &Cancelled) -> (r: CancelFinish)
        ensures
            match cancelled@.job {
                None => {
                    &&& final(self).lease_registry@ == old(self).lease_registry@
                    &&& r.fire is None
                },
                Some(job) => match entry(old(self).lease_registry@, (job.queue, id@)) {
                    Some(lease) => {
                        &&& final(self).lease_registry@ == old(self).lease_registry@.insert(
                            (job.queue, id@),
                            LeaseState { cancelled: true, ..lease },
                        )
                        &&& r.fire == Some(lease.token)
                    },
                    None => {
                        &&& final(self).lease_registry@ == old(self).lease_registry@
                        &&& r.fire is None
                    },
                },
            },
            opt_text(r.delete_payload) == match cancelled@.job {
                Some(job) if cancelled@.outcome == CancelOutcome::Removed => job.payload_ref,
                _ => None,
            },
            r.outcome == if cancelled@.outcome == CancelOutcome::Removed {
                Some(WaitOutcome::Cancelled)
            } else {
                None
            },
            final(self).configs == old(self).configs,
            final(self).ids == old(self).ids,
            final(self).scheduled_bound == old(self).scheduled_bound,
            final(self).claim_cursor == old(self).claim_cursor,
            final(self).payload_offload_threshold == old(self).payload_offload_threshold,
    {
        let removed: bool = match cancelled.outcome {
            CancelOutcome::Removed => true,
            _ => false,
        };
        let outcome: Option<WaitOutcome> = if removed {
            Some(WaitOutcome::Cancelled)
        } else {
            None
        };
        match &cancelled.job {
            None => CancelFinish { fire: None, delete_payload: None, outcome },
            Some(job) => {
                let fire: Option<u64> = match self.lease_registry.current(job.queue.as_str(), id) {
                    Some((_, token)) => Some(token),
                    None => None,
                };
                let _held: bool = self.lease_registry.cancel(job.queue.as_str(), id);
                let delete_payload: Option<String> = if removed {
                    job.payload_ref.clone()
                } else {
                    None
                };
                CancelFinish { fire, delete_payload, outcome }
            },
        }
    }

    /// Begins a claim of at most `max_jobs` jobs of a queue; `None` where
    /// there is nothing to scan for.
    pub fn claim_batch_begin(&self, queue: &str, max_jobs: usize) -> (r: Result<
        Option<ClaimStart>,
        Error,
    >)
        requires
            bound_in_queue(queue@, self.claim_cursor.state(queue@).scan_from),
        ensures
            match r {
                Err(e) => !name_fits(queue@) && e@ == (crate::error::ErrorView::InvalidQueueName {
                    queue: queue@,
                    reason: "queue name exceeds the maximum length of 255 bytes"@,
                }),
                Ok(None) => name_fits(queue@) && (max_jobs == 0 || self.claim_cursor.state(
                    queue@,
                ).known_empty),
                Ok(Some(claim)) => {
                    &&& name_fits(queue@)
                    &&& max_jobs > 0
                    &&& !self.claim_cursor.state(queue@).known_empty
                    &&& claim.scan@ == self.claim_cursor.state(queue@)
                    &&& claim.prefix@ == crate::keys::queue_prefix(
                        crate::keys::TAG_PENDING,
                        queue@,
                    )
                    &&& forall|suffix: Seq<u8>| #[trigger]
                        crate::range::past_start(suffix, claim.start@)
                            == crate::claim_cursor::within(
                            claim.prefix@ + suffix,
                            claim.scan@.scan_from,
                        )
                },
            },
    {
        match begin_claim_batch(&self.claim_cursor, queue, max_jobs) {
            Err(e) => Err(e),
            Ok(None) => Ok(None),
            Ok(Some(scan)) => {
                let (prefix, start) = claim_range(queue, &scan);
                Ok(Some(ClaimStart { prefix, start, scan }))
            },
        }
    }

    /// Turns the rows of a claim scan into the transaction that claims them.
    /// Where the scan found nothing the queue is noted as empty.
    ///
    /// The claims carry new tokens. The leases run out `lease` after `now`.
    pub fn claim_batch_locked(
        &mut self,
        queue: &str,
        scan: &ClaimScan,
        taken: &ClaimTaken,
        lease: Duration,
        now: u64,
    ) -> (r: Option<ClaimCommit>)
        requires
            name_fits(queue@),
            taken.rows@.len() <= i64::MAX,
            forall|i: int|
                0 <= i < taken.rows@.len() ==> (#[trigger] taken.rows@[i]).job.attempts < u32::MAX
                    && name_fits(taken.rows@[i].key@.queue()),
            now + millis_of(lease@) <= u64::MAX,
        ensures
            final(self).configs == old(self).configs,
            final(self).ids == old(self).ids,
            final(self).scheduled_bound == old(self).scheduled_bound,
            final(self).payload_offload_threshold == old(self).payload_offload_threshold,
            match r {
                None => {
                    &&& taken.rows@.len() == 0
                    &&& final(self).claim_cursor@ == old(self).claim_cursor@.insert(
                        queue@,
                        old(self).claim_cursor.state(queue@).emptied(scan.epoch),
                    )
                    &&& final(self).lease_registry@ == old(self).lease_registry@
                },
                Some(commit) => {
                    let claims = commit.plan.value@;
                    &&& taken.rows@.len() > 0
                    &&& final(self).claim_cursor == old(self).claim_cursor
                    &&& commit.drained == taken.drained
                    &&& commit.last_key@ == taken.rows@.last().key@.encode()
                    &&& claims.len() == taken.rows@.len()
                    &&& forall|i: int|
                        0 <= i < taken.rows@.len() ==> (#[trigger] claims[i]).job@ == claimed_job(
                            taken.rows@[i].job@,
                            now,
                        )
                    &&& final(self).lease_registry@ == leased_each(
                        old(self).lease_registry@,
                        row_views(taken.rows@),
                        Seq::new(claims.len(), |i: int| claims[i].token),
                        (now + millis_of(lease@)) as u64,
                    )
                    &&& forall|s: StoreView| #[trigger]
                        apply(s, op_views(commit.plan.ops@)) == claimed_batch(
                            s,
                            queue@,
                            row_views(taken.rows@),
                            now,
                        )
                },
            },
    {
        if taken.rows.len() == 0 {
            self.claim_cursor.mark_empty(queue, scan.epoch);
            return None;
        }
        let expires_at: u64 = crate::claim::lease_expiry_at(now, lease);
        let tokens = draw_tokens(taken.rows.len());
        let last_key = taken.rows[taken.rows.len() - 1].key.encode();
        let plan = claim_txn(&mut self.lease_registry, queue, &taken.rows, &tokens, now, expires_at);
        proof {
            assert(Seq::new(plan.value@.len(), |i: int| plan.value@[i].token) =~= tokens@);
        }
        Some(ClaimCommit { plan, last_key, drained: taken.drained })
    }

    /// Finishes a claim after its commit: the next scan starts after the last
    /// key taken, and a scan that ran out of keys leaves the queue empty.
    pub fn claim_committed(&mut self, queue: &str, scan: &ClaimScan, last_key: &[u8], drained: bool)
        ensures
            final(self).configs == old(self).configs,
            final(self).ids == old(self).ids,
            final(self).scheduled_bound == old(self).scheduled_bound,
            final(self).lease_registry == old(self).lease_registry,
            final(self).payload_offload_threshold == old(self).payload_offload_threshold,
            final(self).claim_cursor@ == ({
                let advanced = old(self).claim_cursor.state(queue@).advanced(
                    last_key@,
                    scan.epoch,
                );
                old(self).claim_cursor@.insert(
                    queue@,
                    if drained {
                        advanced.emptied(scan.epoch)
                    } else {
                        advanced
                    },
                )
            }),
    {
        self.claim_cursor.advance(queue, last_key, scan);
        if drained {
            self.claim_cursor.mark_empty(queue, scan.epoch);
        }
        proof {
            let state = old(self).claim_cursor.state(queue@).advanced(last_key@, scan.epoch);
            assert(old(self).claim_cursor@.insert(queue@, state).insert(
                queue@,
                state.emptied(scan.epoch),
            ) =~= old(self).claim_cursor@.insert(queue@, state.emptied(scan.epoch)));
        }
    }

    /// Extends the lease of a claim to run out `extension` after `now` and
    /// returns when that is. A claim whose cancellation was requested is
    /// refused, and so is one that no longer holds a lease.
    pub fn renew_lease(
        &mut self,
        queue: &str,
        id: &str,
        token: u64,
        cancelled: bool,
        now: u64,
        extension: Duration,
    ) -> (r: Result<u64, Error>)
        requires
            now + millis_of(extension@) <= u64::MAX,
        ensures
            cancelled ==> r == Err::<u64, Error>(Error::CancelRequested)
                && final(self).lease_registry@ == old(self).lease_registry@,
            !cancelled ==> match LeaseRegistry::renewed(
                old(self).lease_registry@,
                (queue@, id@),
                token,
                (now + millis_of(extension@)) as u64,
                Renewal::Exactly,
            ) {
                Some((after, _)) => r == Ok::<u64, Error>((now + millis_of(extension@)) as u64)
                    && final(self).lease_registry@ == after,
                None => r == Err::<u64, Error>(Error::ClaimLost) && final(self).lease_registry@
                    == old(self).lease_registry@,
            },
            final(self).configs == old(self).configs,
            final(self).ids == old(self).ids,
            final(self).scheduled_bound == old(self).scheduled_bound,
            final(self).claim_cursor == old(self).claim_cursor,
            final(self).payload_offload_threshold == old(self).payload_offload_threshold,
    {
        if cancelled {
            return Err(Error::CancelRequested);
        }
        let expires_at: u64 = now + extension.as_millis();
        match self.lease_registry.renew(queue, id, token, expires_at, Renewal::Exactly) {
            Ok(_) => Ok(expires_at),
            Err(e) => Err(e),
        }
    }

    /// When the lease of a claimed job runs out; `None` where no claim of the
    /// job is held in this process.
    pub fn lease_expiry(&self, queue: &str, id: &str) -> (r: Option<u64>)
        ensures
            r == match entry(self.lease_registry@, (queue@, id@)) {
                Some(lease) => Some(lease.expires_at),
                None => None,
            },
    {
        match self.lease_registry.current(queue, id) {
            Some((expires_at, _)) => Some(expires_at),
            None => None,
        }
    }
}

/// A scan state as it is kept across a clean close. The next open deletes it
/// before it serves requests, so that it is never read after the state it
/// describes could have changed.
#[derive(Debug)]
pub struct PersistedCursor {
    /// The queue.
    pub queue: String,
    /// The bound, where one is established.
    pub bound_key: Option<Vec<u8>>,
    /// Whether the key at the bound may be live.
    pub bound_inclusive: bool,
    /// Whether a scan had shown the queue to be empty.
    pub known_empty: bool,
}

/// The scan state that a persisted cursor stands for.
pub open spec fn persisted_bound(p: PersistedCursor) -> Option<crate::claim_cursor::ScanFromView> {
    match p.bound_key {
        Some(key) => Some(
            crate::claim_cursor::ScanFromView { key: key@, inclusive: p.bound_inclusive },
        ),
        None => None,
    }
}

/// The form in which a queue's scan state is kept.
pub fn persist_cursor(queue: String, state: CursorState) -> (r: PersistedCursor)
    ensures
        r.queue@ == queue@,
        persisted_bound(r) == opt_bound(state.scan_from),
        r.known_empty == state.known_empty,
{
    match state.scan_from {
        Some(ScanFrom { key, inclusive }) => PersistedCursor {
            queue,
            bound_key: Some(key),
            bound_inclusive: inclusive,
            known_empty: state.known_empty,
        },
        None => PersistedCursor {
            queue,
            bound_key: None,
            bound_inclusive: false,
            known_empty: state.known_empty,
        },
    }
}

/// Takes over the scan state that a clean close kept of a queue.
pub fn restore_cursor(cursor: &mut ClaimCursor, record: PersistedCursor)
    ensures
        final(cursor)@ == old(cursor)@.insert(
            record.queue@,
            CursorView {
                scan_from: persisted_bound(record),
                known_empty: record.known_empty,
                epoch: old(cursor).state(record.queue@).epoch,
            },
        ),
{
    let scan_from = match record.bound_key {
        Some(key) => Some(ScanFrom { key, inclusive: record.bound_inclusive }),
        None => None,
    };
    cursor.restore(
        record.queue.as_str(),
        CursorState { scan_from, known_empty: record.known_empty },
    );
}

/// A scan state that was right about the pending keys at a clean close is
/// right about them when it is restored.
pub proof fn restored_cursor_is_sound(
    p: PersistedCursor,
    state: CursorView,
    epoch: u64,
    live: Set<Seq<u8>>,
    unnoted: Set<Seq<u8>>,
)
    requires
        persisted_bound(p) == state.scan_from,
        p.known_empty == state.known_empty,
        crate::claim_cursor::cursor_sound(state, live, unnoted),
    ensures
        crate::claim_cursor::cursor_sound(
            CursorView { scan_from: persisted_bound(p), known_empty: p.known_empty, epoch },
            live,
            unnoted,
        ),
{
}

} // verus!

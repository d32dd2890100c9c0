//! Settling claims, cancelling and waking jobs, and bringing dead jobs back.

use crate::bytes::{copy_bytes, same_bytes};
use crate::enqueue::{
    effects_applied, needs_effects, result_views, stage_effects, EnqueueResult, EnqueueResultView,
    PreparedEffects, PreparedEffectsView,
};
use crate::error::{Error, ErrorView};
use crate::job::{
    copy_opt_bytes, opt_bytes, AttemptOutcome, JobAttempt, JobAttemptView, JobRecord, JobStatus,
    JobView,
};
use crate::keys::{RecordKey, RecordKeyView};
use crate::lease_registry::{LeaseRegistry, LeaseState};
use crate::options::{
    backoff_delay, backoff_nanos, validate_kv_value_size,
    QueueConfig, QueueConfigs, MAX_KV_VALUE_SIZE,
};
use crate::store::{entry, Op, StoreView};
use crate::time::NANOS_PER_MILLI;
use crate::txn::{
    append_attempt, claim_held, claimed_place, count_one, follows, forget_job, get_indexed_job,
    needs_job, opt_job, opt_key, stage_claim_end, stage_to_pending, take_claim, ClaimEnd,
    ClaimEndView, Need, NeedView, Plan, Reads, Stop, Txn,
};
use vstd::prelude::*;

verus! {

/// Outcome of a cancellation.
#[derive(Clone, Copy, Debug, PartialEq, Eq, Structural)]
pub enum CancelOutcome {
    /// The job was pending or scheduled and is removed.
    Removed,
    /// The job is claimed; its worker was asked to stop.
    Requested,
    /// There is no job of that id that could be cancelled.
    NotFound,
}

/// Outcome of a negative acknowledgement.
#[derive(Debug, PartialEq, Eq)]
pub enum NackOutcome {
    /// Attempts remained: the job waits for another one and the effects were
    /// discarded.
    Retried,
    /// Attempts were exhausted: the job is dead and the effects were
    /// applied. The results align with the effects' enqueues.
    DeadLettered(Vec<EnqueueResult>),
}

/// Outcome of waking a scheduled job.
#[derive(Clone, Copy, Debug, PartialEq, Eq, Structural)]
pub enum WakeOutcome {
    /// The job was scheduled and is pending now.
    Woken,
    /// The job is not scheduled. Nothing was changed.
    NotScheduled,
    /// There is no job of that id.
    NotFound,
}

/// What the end of a claim left.
#[derive(Debug)]
pub struct Settled {
    /// The job as the settlement left it.
    pub job: JobRecord,
    /// The place of the job's record, when the job is pending again.
    pub pending_key: Option<RecordKey>,
    /// What the effects' enqueues came to; `None` when the effects were
    /// discarded.
    pub results: Option<Vec<EnqueueResult>>,
}

/// The contents of [`Settled`].
pub struct SettledView {
    pub job: JobView,
    pub pending_key: Option<RecordKeyView>,
    pub results: Option<Seq<EnqueueResultView>>,
}

impl View for Settled {
    type V = SettledView;

    open spec fn view(&self) -> SettledView {
        SettledView {
            job: self.job@,
            pending_key: opt_key(self.pending_key),
            results: match self.results {
                Some(results) => Some(result_views(results@)),
                None => None,
            },
        }
    }
}

/// What a claim that ends with `end` leaves of the store `s` and reports,
/// with the effects applied where there are any.
///
/// A claim that is not held any more changes nothing.
pub open spec fn claim_settled(
    s: StoreView,
    leases: Map<(Seq<char>, Seq<char>), LeaseState>,
    queue: Seq<char>,
    id: Seq<char>,
    token: u64,
    end: ClaimEndView,
    now: u64,
    effects: Option<PreparedEffectsView>,
) -> Result<(StoreView, SettledView), ErrorView> {
    if !claim_held(leases, s, queue, id, token) {
        Err(ErrorView::ClaimLost)
    } else {
        let place = claimed_place(queue, id);
        let job = s.records[place];
        let after = end.settled(s.vacated(place), job, now);
        let pending_key = if end.status() == JobStatus::Pending {
            Some(end.place(job, now))
        } else {
            None
        };
        match effects {
            None => Ok((after, SettledView { job: end.ended(job, now), pending_key, results: None })),
            Some(effects) => match effects_applied(after, effects) {
                Err(e) => Err(e),
                Ok((last, results)) => Ok(
                    (
                        last,
                        SettledView {
                            job: end.ended(job, now),
                            pending_key,
                            results: Some(results),
                        },
                    ),
                ),
            },
        }
    }
}

/// Whether `need` is an entry that a settlement depends on.
pub open spec fn needs_settlement(
    queue: Seq<char>,
    id: Seq<char>,
    effects: PreparedEffectsView,
    need: NeedView,
) -> bool {
    need == (NeedView::Record { key: claimed_place(queue, id) }) || needs_effects(
        effects.jobs,
        need,
    )
}

fn settle_txn(
    reads: &Reads,
    registry: &LeaseRegistry,
    queue: &str,
    id: &str,
    token: u64,
    end: &ClaimEnd<'_>,
    now: u64,
    prepared: &PreparedEffects,
) -> (r: Result<Plan<Settled>, Stop>)
    ensures
        follows(
            r,
            *reads,
            |s: StoreView|
                claim_settled(s, registry@, queue@, id@, token, end@, now, Some(prepared@)),
            |need: NeedView| needs_settlement(queue@, id@, prepared@, need),
        ),
{
    let mut txn = Txn::new(reads);
    let mut job = match take_claim(&mut txn, registry, queue, id, token) {
        Ok(job) => job,
        Err(stop) => {
            return Err(stop);
        },
    };
    let pending_key = stage_claim_end(&mut txn, &mut job, end, now);
    match stage_effects(&mut txn, prepared) {
        Ok(results) => Ok(txn.plan(Settled { job, pending_key, results: Some(results) })),
        Err(stop) => Err(stop),
    }
}

/// The transaction of an acknowledgement: the record moves to the done jobs
/// where they are kept and is dropped with its history otherwise, together
/// with the effects.
pub fn ack_txn(
    reads: &Reads,
    registry: &LeaseRegistry,
    queue: &str,
    id: &str,
    token: u64,
    completed_at: u64,
    keep: bool,
    prepared: &PreparedEffects,
) -> (r: Result<Plan<Settled>, Stop>)
    ensures
        follows(
            r,
            *reads,
            |s: StoreView|
                claim_settled(
                    s,
                    registry@,
                    queue@,
                    id@,
                    token,
                    ClaimEndView::Done { keep },
                    completed_at,
                    Some(prepared@),
                ),
            |need: NeedView| needs_settlement(queue@, id@, prepared@, need),
        ),
{
    settle_txn(
        reads,
        registry,
        queue,
        id,
        token,
        &ClaimEnd::Done { keep },
        completed_at,
        prepared,
    )
}

/// The transaction of a permanent failure: the job is dead-lettered,
/// together with the effects.
pub fn dead_letter_txn(
    reads: &Reads,
    registry: &LeaseRegistry,
    queue: &str,
    id: &str,
    token: u64,
    failed_at: u64,
    reason: &str,
    prepared: &PreparedEffects,
) -> (r: Result<Plan<Settled>, Stop>)
    ensures
        follows(
            r,
            *reads,
            |s: StoreView|
                claim_settled(
                    s,
                    registry@,
                    queue@,
                    id@,
                    token,
                    ClaimEndView::Dead { error: reason@ },
                    failed_at,
                    Some(prepared@),
                ),
            |need: NeedView| needs_settlement(queue@, id@, prepared@, need),
        ),
{
    settle_txn(
        reads,
        registry,
        queue,
        id,
        token,
        &ClaimEnd::Dead { error: reason },
        failed_at,
        prepared,
    )
}

/// Whether the time of the retry that follows a failed attempt at `job`, at
/// `now`, fits the clock. A job whose attempts are exhausted has none.
pub open spec fn retry_fits(config: QueueConfig, job: JobView, now: u64) -> bool {
    job.attempts < job.max_attempts ==> now + backoff_nanos(
        job.attempts,
        config.retry_backoff_base@,
        config.retry_backoff_max@,
    ) / NANOS_PER_MILLI as nat <= u64::MAX
}

/// Whether the retry time of a failed attempt fits the clock, as far as it is
/// decided by what was read: a claim that is not held, or whose record was not
/// read or is absent, has none.
pub open spec fn nack_fits(
    reads: Reads,
    leases: Map<(Seq<char>, Seq<char>), LeaseState>,
    configs: QueueConfigs,
    queue: Seq<char>,
    id: Seq<char>,
    token: u64,
    now: u64,
) -> bool {
    leases.contains_key((queue, id)) && leases[(queue, id)].token == token ==> (reads.record(
        claimed_place(queue, id),
    ) matches Some(Some(job)) ==> retry_fits(configs.config(job.queue), job, now))
}

/// Whether the retry time of a failed attempt fits the clock, as far as it is
/// decided by what was read.
pub fn check_nack_fits(
    reads: &Reads,
    registry: &LeaseRegistry,
    configs: &QueueConfigs,
    queue: &str,
    id: &str,
    token: u64,
    now: u64,
) -> (r: bool)
    ensures
        r == nack_fits(*reads, registry@, *configs, queue@, id@, token, now),
{
    match registry.current(queue, id) {
        Some((_, current)) => {
            if current != token {
                return true;
            }
        },
        None => {
            return true;
        },
    }
    let key = RecordKey::Claimed { queue: queue.to_owned(), id: id.to_owned() };
    let job = match reads.find_record(&key) {
        Some(Some(job)) => job,
        _ => {
            return true;
        },
    };
    if job.attempts >= job.max_attempts {
        return true;
    }
    let config = configs.get(job.queue.as_str());
    let delay: u128 = backoff_delay(
        job.attempts,
        config.retry_backoff_base,
        config.retry_backoff_max,
    ).as_nanos();
    delay / NANOS_PER_MILLI <= (u64::MAX - now) as u128
}

/// How a failed attempt at `job` ends its claim: the job is dead once its
/// attempts are exhausted, and otherwise waits out its backoff.
pub open spec fn nack_end(
    config: QueueConfig,
    job: JobView,
    error: Seq<char>,
    now: u64,
) -> ClaimEndView {
    if job.attempts >= job.max_attempts {
        ClaimEndView::Dead { error }
    } else {
        let delay = backoff_nanos(
            job.attempts,
            config.retry_backoff_base@,
            config.retry_backoff_max@,
        );
        ClaimEndView::Retry {
            run_at: if delay == 0 {
                None
            } else {
                Some((now + delay / NANOS_PER_MILLI as nat) as u64)
            },
            outcome: AttemptOutcome::Retried,
            error: Some(error),
        }
    }
}

/// What a negative acknowledgement leaves of the store `s` and reports. The
/// effects are applied only where the job is dead-lettered.
pub open spec fn nacked(
    s: StoreView,
    leases: Map<(Seq<char>, Seq<char>), LeaseState>,
    configs: QueueConfigs,
    queue: Seq<char>,
    id: Seq<char>,
    token: u64,
    error: Seq<char>,
    now: u64,
    effects: PreparedEffectsView,
) -> Result<(StoreView, SettledView), ErrorView> {
    let job = s.records[claimed_place(queue, id)];
    let end = nack_end(configs.config(job.queue), job, error, now);
    claim_settled(
        s,
        leases,
        queue,
        id,
        token,
        end,
        now,
        if end.terminal() {
            Some(effects)
        } else {
            None
        },
    )
}

/// The transaction of a failed attempt. Where attempts remain the job waits
/// for another one and the effects are discarded; otherwise it is
/// dead-lettered together with the effects.
pub fn nack_txn(
    reads: &Reads,
    registry: &LeaseRegistry,
    configs: &QueueConfigs,
    queue: &str,
    id: &str,
    token: u64,
    error: &str,
    now: u64,
    prepared: &PreparedEffects,
) -> (r: Result<Plan<Settled>, Stop>)
    requires
        nack_fits(*reads, registry@, *configs, queue@, id@, token, now),
    ensures
        follows(
            r,
            *reads,
            |s: StoreView|
                nacked(s, registry@, *configs, queue@, id@, token, error@, now, prepared@),
            |need: NeedView| needs_settlement(queue@, id@, prepared@, need),
        ),
{
    let mut txn = Txn::new(reads);
    let mut job = match take_claim(&mut txn, registry, queue, id, token) {
        Ok(job) => job,
        Err(stop) => {
            return Err(stop);
        },
    };
    let ghost taken = job@;
    if job.attempts >= job.max_attempts {
        let end = ClaimEnd::Dead { error };
        let pending_key = stage_claim_end(&mut txn, &mut job, &end, now);
        match stage_effects(&mut txn, prepared) {
            Ok(results) => Ok(txn.plan(Settled { job, pending_key, results: Some(results) })),
            Err(stop) => Err(stop),
        }
    } else {
        let config: QueueConfig = *configs.get(job.queue.as_str());
        assert(retry_fits(config, taken, now));
        let backoff = backoff_delay(
            job.attempts,
            config.retry_backoff_base,
            config.retry_backoff_max,
        );
        let run_at: Option<u64> = if backoff.is_zero() {
            None
        } else {
            Some(now + backoff.as_millis())
        };
        let end = ClaimEnd::Retry { run_at, outcome: AttemptOutcome::Retried, error: Some(error) };
        assert(end@ == nack_end(config, taken, error@, now));
        let pending_key = stage_claim_end(&mut txn, &mut job, &end, now);
        Ok(txn.plan(Settled { job, pending_key, results: None }))
    }
}

/// The outcome that a settlement reports to the caller of a negative
/// acknowledgement.
pub fn nack_outcome(results: Option<Vec<EnqueueResult>>) -> (r: NackOutcome)
    ensures
        match r {
            NackOutcome::DeadLettered(list) => results == Some(list),
            NackOutcome::Retried => results is None,
        },
{
    match results {
        Some(list) => NackOutcome::DeadLettered(list),
        None => NackOutcome::Retried,
    }
}

/// What a cancellation found and did.
#[derive(Debug)]
pub struct Cancelled {
    /// The outcome.
    pub outcome: CancelOutcome,
    /// The job, where it was removed or its worker is to be asked to stop.
    pub job: Option<JobRecord>,
    /// What the effects' enqueues came to.
    pub results: Vec<EnqueueResult>,
}

/// The contents of [`Cancelled`].
pub struct CancelledView {
    pub outcome: CancelOutcome,
    pub job: Option<JobView>,
    pub results: Seq<EnqueueResultView>,
}

impl View for Cancelled {
    type V = CancelledView;

    open spec fn view(&self) -> CancelledView {
        CancelledView {
            outcome: self.outcome,
            job: opt_job(self.job),
            results: result_views(self.results@),
        }
    }
}

/// The store without a pending or scheduled job, its history and its hold on
/// a deduplication key.
pub open spec fn job_removed(
    s: StoreView,
    id: Seq<char>,
    key: RecordKeyView,
    job: JobView,
) -> StoreView {
    s.vacated(key).forgotten(id).released(job.queue, job.dedup_key).counted(
        job.queue,
        key.status(),
        -1,
    )
}

/// What a cancellation leaves of the store `s` and reports.
///
/// A pending or scheduled job is removed together with the effects. A claimed
/// job is flagged, and the effects are discarded. Anything else is not found.
pub open spec fn cancelled(s: StoreView, id: Seq<char>, effects: PreparedEffectsView) -> Result<
    (StoreView, CancelledView),
    ErrorView,
> {
    match s.job(id) {
        None => Ok(
            (
                s,
                CancelledView {
                    outcome: CancelOutcome::NotFound,
                    job: None,
                    results: Seq::empty(),
                },
            ),
        ),
        Some(job) => {
            let key = s.index[id];
            match key.status() {
                JobStatus::Pending | JobStatus::Scheduled => match effects_applied(
                    job_removed(s, id, key, job),
                    effects,
                ) {
                    Err(e) => Err(e),
                    Ok((after, results)) => Ok(
                        (
                            after,
                            CancelledView {
                                outcome: CancelOutcome::Removed,
                                job: Some(job),
                                results,
                            },
                        ),
                    ),
                },
                JobStatus::Claimed => {
                    let flagged = JobView { cancel_requested: true, ..job };
                    let after = if job.cancel_requested {
                        s
                    } else {
                        StoreView { records: s.records.insert(key, flagged.stored()), ..s }
                    };
                    Ok(
                        (
                            after,
                            CancelledView {
                                outcome: CancelOutcome::Requested,
                                job: Some(flagged),
                                results: Seq::empty(),
                            },
                        ),
                    )
                },
                _ => Ok(
                    (
                        s,
                        CancelledView {
                            outcome: CancelOutcome::NotFound,
                            job: None,
                            results: Seq::empty(),
                        },
                    ),
                ),
            }
        },
    }
}

/// The transaction of a cancellation.
pub fn cancel_txn(reads: &Reads, id: &str, prepared: &PreparedEffects) -> (r: Result<
    Plan<Cancelled>,
    Stop,
>)
    ensures
        follows(
            r,
            *reads,
            |s: StoreView| cancelled(s, id@, prepared@),
            |need: NeedView|
                needs_job(*reads, id@, need) || needs_effects(prepared@.jobs, need),
        ),
{
    let mut txn = Txn::new(reads);
    let none: Vec<EnqueueResult> = Vec::new();
    assert(result_views(none@) =~= Seq::empty());
    let (key, mut job) = match get_indexed_job(&txn, id) {
        Ok(Some(found)) => found,
        Ok(None) => {
            return Ok(
                txn.plan(
                    Cancelled { outcome: CancelOutcome::NotFound, job: None, results: none },
                ),
            );
        },
        Err(stop) => {
            return Err(stop);
        },
    };
    let status = key.status();
    match status {
        JobStatus::Pending | JobStatus::Scheduled => {
            txn.stage(Op::DeleteRecord { key });
            forget_job(&mut txn, id);
            if let Some(dk) = &job.dedup_key {
                txn.stage(Op::DeleteDedup { queue: job.queue.clone(), dedup_key: dk.clone() });
            }
            count_one(&mut txn, job.queue.as_str(), status, -1);
            match stage_effects(&mut txn, prepared) {
                Ok(results) => Ok(
                    txn.plan(
                        Cancelled { outcome: CancelOutcome::Removed, job: Some(job), results },
                    ),
                ),
                Err(stop) => Err(stop),
            }
        },
        JobStatus::Claimed => {
            if !job.cancel_requested {
                job.cancel_requested = true;
                txn.stage(Op::PutRecord { key, record: job.stored_clone() });
            }
            Ok(
                txn.plan(
                    Cancelled { outcome: CancelOutcome::Requested, job: Some(job), results: none },
                ),
            )
        },
        JobStatus::Done | JobStatus::Dead => Ok(
            txn.plan(Cancelled { outcome: CancelOutcome::NotFound, job: None, results: none }),
        ),
    }
}

/// What waking a job found and did.
#[derive(Debug)]
pub struct Woken {
    /// The outcome.
    pub outcome: WakeOutcome,
    /// The woken job and the place of its record.
    pub moved: Option<(JobRecord, RecordKey)>,
}

/// The contents of [`Woken`].
pub struct WokenView {
    pub outcome: WakeOutcome,
    pub moved: Option<(JobView, RecordKeyView)>,
}

impl View for Woken {
    type V = WokenView;

    open spec fn view(&self) -> WokenView {
        WokenView {
            outcome: self.outcome,
            moved: match self.moved {
                Some((job, key)) => Some((job@, key@)),
                None => None,
            },
        }
    }
}

/// The store with a scheduled job moved to pending.
pub open spec fn made_pending(
    s: StoreView,
    key: RecordKeyView,
    job: JobView,
    from: JobStatus,
) -> StoreView {
    let moved = JobView { status: JobStatus::Pending, run_at: None, ..job };
    s.vacated(key).placed(
        RecordKeyView::Pending { queue: job.queue, priority: job.priority, id: job.id },
        moved.stored(),
    ).recounted(job.queue, from, JobStatus::Pending)
}

/// What waking a job leaves of the store `s` and reports. Only a scheduled
/// job is woken.
pub open spec fn woken(
    s: StoreView,
    id: Seq<char>,
    wake_payload: Option<Seq<u8>>,
    now: u64,
) -> Result<(StoreView, WokenView), ErrorView> {
    match s.job(id) {
        None => Ok((s, WokenView { outcome: WakeOutcome::NotFound, moved: None })),
        Some(job) => {
            let key = s.index[id];
            if key.status() != JobStatus::Scheduled {
                Ok((s, WokenView { outcome: WakeOutcome::NotScheduled, moved: None }))
            } else {
                let awake = JobView { woken_at: Some(now), wake_payload, ..job };
                Ok(
                    (
                        made_pending(s, key, awake, JobStatus::Scheduled),
                        WokenView {
                            outcome: WakeOutcome::Woken,
                            moved: Some(
                                (
                                    JobView {
                                        status: JobStatus::Pending,
                                        run_at: None,
                                        ..awake
                                    },
                                    RecordKeyView::Pending {
                                        queue: job.queue,
                                        priority: job.priority,
                                        id: job.id,
                                    },
                                ),
                            ),
                        },
                    ),
                )
            }
        },
    }
}

/// The transaction that moves a scheduled job to pending ahead of its time,
/// with a payload for its worker.
pub fn wake_scheduled_txn(
    reads: &Reads,
    id: &str,
    wake_payload: &Option<Vec<u8>>,
    now: u64,
) -> (r: Result<Plan<Woken>, Stop>)
    ensures
        follows(
            r,
            *reads,
            |s: StoreView| woken(s, id@, opt_bytes(*wake_payload), now),
            |need: NeedView| needs_job(*reads, id@, need),
        ),
{
    let mut txn = Txn::new(reads);
    let (key, mut job) = match get_indexed_job(&txn, id) {
        Ok(Some(found)) => found,
        Ok(None) => {
            return Ok(txn.plan(Woken { outcome: WakeOutcome::NotFound, moved: None }));
        },
        Err(stop) => {
            return Err(stop);
        },
    };
    match key {
        RecordKey::Scheduled { .. } => {
            txn.stage(Op::DeleteRecord { key });
            job.woken_at = Some(now);
            job.wake_payload = copy_opt_bytes(wake_payload);
            let pending = stage_to_pending(&mut txn, &mut job, JobStatus::Scheduled);
            Ok(txn.plan(Woken { outcome: WakeOutcome::Woken, moved: Some((job, pending)) }))
        },
        _ => Ok(txn.plan(Woken { outcome: WakeOutcome::NotScheduled, moved: None })),
    }
}

/// A dead job made ready for a fresh start.
pub open spec fn revived(job: JobView) -> JobView {
    JobView {
        attempts: 0,
        last_error: None,
        claimed_at: None,
        failed_at: None,
        cancel_requested: false,
        ..job
    }
}

/// The history entry that separates the attempts before a requeue from those
/// after it.
pub open spec fn requeue_marker(now: u64) -> JobAttemptView {
    JobAttemptView {
        attempt: 0,
        claimed_at: None,
        recorded_at: now,
        outcome: AttemptOutcome::Requeued,
        error: None,
    }
}

/// What bringing back a dead job leaves of the store `s`, and the place of
/// its record.
pub open spec fn requeued(s: StoreView, job: JobView, now: u64) -> Result<
    (StoreView, RecordKeyView),
    ErrorView,
> {
    let dead = RecordKeyView::Dead { queue: job.queue, id: job.id };
    if job.status != JobStatus::Dead {
        Err(ErrorView::InvalidState)
    } else if !s.records.contains_key(dead) {
        Err(ErrorView::JobNotFound { id: job.id })
    } else {
        Ok(
            (
                made_pending(s, dead, revived(job), JobStatus::Dead).noted(
                    job.id,
                    requeue_marker(now),
                ),
                RecordKeyView::Pending { queue: job.queue, priority: job.priority, id: job.id },
            ),
        )
    }
}

/// The transaction that moves a dead job back to pending with its attempts
/// and any cancel request cleared. Its history is kept.
pub fn requeue_dead_job_txn(reads: &Reads, job: &JobRecord, now: u64) -> (r: Result<
    Plan<RecordKey>,
    Stop,
>)
    ensures
        follows(
            r,
            *reads,
            |s: StoreView| requeued(s, job@, now),
            |need: NeedView|
                need == (NeedView::Record {
                    key: RecordKeyView::Dead { queue: job@.queue, id: job@.id },
                }),
        ),
{
    if job.status != JobStatus::Dead {
        return Err(Stop::Fail(Error::InvalidState));
    }
    let mut txn = Txn::new(reads);
    let dead = RecordKey::Dead { queue: job.queue.clone(), id: job.id.clone() };
    match txn.record(&dead) {
        Ok(Some(_)) => {},
        Ok(None) => {
            return Err(Stop::Fail(Error::JobNotFound(job.id.clone())));
        },
        Err(stop) => {
            return Err(stop);
        },
    }
    let mut job = job.clone();
    job.attempts = 0;
    job.last_error = None;
    job.claimed_at = None;
    job.failed_at = None;
    job.cancel_requested = false;
    txn.stage(Op::DeleteRecord { key: dead });
    let pending = stage_to_pending(&mut txn, &mut job, JobStatus::Dead);
    append_attempt(
        &mut txn,
        job.id.as_str(),
        JobAttempt {
            attempt: 0,
            claimed_at: None,
            recorded_at: now,
            outcome: AttemptOutcome::Requeued,
            error: None,
        },
    );
    Ok(txn.plan(pending))
}

/// What a compare-and-write of the caller's entry leaves of the store `s`,
/// and whether the entry was as expected: `None` for an absent one. `value`
/// is what to write; `None` deletes.
pub open spec fn kv_compared(
    s: StoreView,
    key: Seq<u8>,
    expected: Option<Seq<u8>>,
    value: Option<Seq<u8>>,
) -> Result<(StoreView, bool), ErrorView> {
    if entry(s.kv, key) != expected {
        Ok((s, false))
    } else {
        match value {
            Some(v) => Ok((StoreView { kv: s.kv.insert(key, v), ..s }, true)),
            None => Ok((StoreView { kv: s.kv.remove(key), ..s }, true)),
        }
    }
}

fn kv_compare_then(
    reads: &Reads,
    key: &[u8],
    expected: Option<&[u8]>,
    value: Option<&[u8]>,
) -> (r: Result<Plan<bool>, Stop>)
    ensures
        follows(
            r,
            *reads,
            |s: StoreView|
                kv_compared(
                    s,
                    key@,
                    match expected {
                        Some(e) => Some(e@),
                        None => None,
                    },
                    match value {
                        Some(v) => Some(v@),
                        None => None,
                    },
                ),
            |need: NeedView| need == (NeedView::Kv { kv_key: key@ }),
        ),
{
    let mut txn = Txn::new(reads);
    let current = match reads.find_kv(key) {
        Some(current) => current,
        None => {
            return Err(Stop::Need(Need::Kv { kv_key: copy_bytes(key) }));
        },
    };
    let matched: bool = match (&current, expected) {
        (Some(c), Some(e)) => same_bytes(c.as_slice(), e),
        (None, None) => true,
        _ => false,
    };
    if matched {
        match value {
            Some(v) => txn.stage(Op::PutKv { kv_key: copy_bytes(key), value: copy_bytes(v) }),
            None => txn.stage(Op::DeleteKv { kv_key: copy_bytes(key) }),
        }
    }
    Ok(txn.plan(matched))
}

/// The transaction that deletes an entry of the caller if its value is the
/// expected one. Reports whether it did.
pub fn kv_compare_delete_txn(reads: &Reads, key: &[u8], expected: &[u8]) -> (r: Result<
    Plan<bool>,
    Stop,
>)
    ensures
        follows(
            r,
            *reads,
            |s: StoreView| kv_compared(s, key@, Some(expected@), None),
            |need: NeedView| need == (NeedView::Kv { kv_key: key@ }),
        ),
{
    kv_compare_then(reads, key, Some(expected), None)
}

/// The transaction that writes an entry of the caller if its value is the
/// expected one, `None` for an absent entry. Reports whether it did.
pub fn kv_compare_put_txn(
    reads: &Reads,
    key: &[u8],
    expected: Option<&[u8]>,
    value: &[u8],
) -> (r: Result<Plan<bool>, Stop>)
    ensures
        value@.len() > MAX_KV_VALUE_SIZE ==> (r matches Err(Stop::Fail(e)) && e@ == (
        ErrorView::KvValueTooLarge { size: value@.len(), max: MAX_KV_VALUE_SIZE as nat })),
        value@.len() <= MAX_KV_VALUE_SIZE ==> follows(
            r,
            *reads,
            |s: StoreView|
                kv_compared(
                    s,
                    key@,
                    match expected {
                        Some(e) => Some(e@),
                        None => None,
                    },
                    Some(value@),
                ),
            |need: NeedView| need == (NeedView::Kv { kv_key: key@ }),
        ),
{
    if let Err(e) = validate_kv_value_size(value) {
        return Err(Stop::Fail(e));
    }
    kv_compare_then(reads, key, expected, Some(value))
}

} // verus!

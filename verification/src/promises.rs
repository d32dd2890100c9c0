//! What each operation promises its caller: what becomes of the job it is about,
//! field by field, and that nothing else changes.

use crate::claim::{claimed_batch, claimed_each, claimed_job, leased_each};
use crate::enqueue::{
    batch_job, batch_prepared, effects_applied, enqueued, enqueued_all, enqueued_with_kv, id_drawn,
    kv_deleted, kv_written, prepared_job, requests_prepared, EnqueueResult, EnqueueResultView,
    PreparedEffectsView, PreparedJob, PreparedView,
};
use crate::error::ErrorView;
use crate::job::{AttemptOutcome, JobAttempt, JobAttemptView, JobRecord, JobStatus, JobView};
use crate::keys::{RecordKey, RecordKeyView};
use crate::laws::{all_enqueueable, claimable, enqueueable, fits_place, fresh_ids, well_formed};
use crate::lease_registry::{all_due, named, DueView, LeaseRegistry, LeaseState, Renewal};
use crate::options::{backoff_nanos, EnqueueOptions, EnqueueRequest, QueueConfig, QueueConfigs};
use crate::passes::lapsed_end;
use crate::reaper::{expired, interrupted_end, reaped, swept, unsettled, ReapedView};
use crate::scheduler::promoted;
use crate::settle::{
    cancelled, claim_settled, kv_compared, nack_fits, nacked, requeued, woken, CancelOutcome,
    WakeOutcome,
};
use crate::store::{apply, apply_op, op_views, Op, OpView, StoreView};
use crate::time::UnixTime;
use crate::txn::{follows, ClaimEndView, NeedView, Plan, Reads, Stop};
use vstd::arithmetic::power2::pow2;
use vstd::prelude::*;

verus! {

/// Whether a job is the same work: what it was enqueued with.
pub open spec fn same_work(a: JobView, b: JobView) -> bool {
    &&& a.id == b.id
    &&& a.queue == b.queue
    &&& a.payload == b.payload
    &&& a.payload_ref == b.payload_ref
    &&& a.headers == b.headers
    &&& a.max_attempts == b.max_attempts
    &&& a.priority == b.priority
    &&& a.enqueued_at == b.enqueued_at
}

/// Whether a job carries the same wake.
pub open spec fn same_wake(a: JobView, b: JobView) -> bool {
    a.woken_at == b.woken_at && a.wake_payload == b.wake_payload
}

/// Whether `stored` is what the store keeps of a job: all of it, but for a payload
/// that is in an object of its own.
pub open spec fn kept_as(job: JobView, stored: JobView) -> bool {
    &&& stored.payload == if job.payload_ref is Some {
        Seq::empty()
    } else {
        job.payload
    }
    &&& stored.id == job.id
    &&& stored.queue == job.queue
    &&& stored.payload_ref == job.payload_ref
    &&& stored.headers == job.headers
    &&& stored.status == job.status
    &&& stored.attempts == job.attempts
    &&& stored.max_attempts == job.max_attempts
    &&& stored.priority == job.priority
    &&& stored.enqueued_at == job.enqueued_at
    &&& stored.claimed_at == job.claimed_at
    &&& stored.completed_at == job.completed_at
    &&& stored.failed_at == job.failed_at
    &&& stored.run_at == job.run_at
    &&& stored.dedup_key == job.dedup_key
    &&& stored.last_error == job.last_error
    &&& stored.cancel_requested == job.cancel_requested
    &&& stored.woken_at == job.woken_at
    &&& stored.wake_payload == job.wake_payload
}

/// Whether a job is stored at one place, where its index entry points.
pub open spec fn only_at(s: StoreView, id: Seq<char>, place: RecordKeyView) -> bool {
    &&& s.index.contains_key(id)
    &&& s.index[id] == place
    &&& s.records.contains_key(place)
    &&& forall|key: RecordKeyView| #[trigger]
        s.records.contains_key(key) && key.id() == id ==> key == place
}

/// Whether nothing is left of a job.
pub open spec fn gone(s: StoreView, id: Seq<char>) -> bool {
    &&& !s.index.contains_key(id)
    &&& !s.history.contains_key(id)
    &&& forall|key: RecordKeyView| #[trigger] s.records.contains_key(key) ==> key.id() != id
}

/// Whether every job but one is as it was: its record, its place and its history.
pub open spec fn others_kept(before: StoreView, after: StoreView, id: Seq<char>) -> bool {
    &&& forall|key: RecordKeyView|
        #![trigger after.records.contains_key(key)]
        #![trigger before.records.contains_key(key)]
        key.id() != id ==> after.records.contains_key(key) == before.records.contains_key(key) && (
        before.records.contains_key(key) ==> after.records[key] == before.records[key])
    &&& forall|other: Seq<char>|
        #![trigger after.index.contains_key(other)]
        #![trigger before.index.contains_key(other)]
        other != id ==> after.index.contains_key(other) == before.index.contains_key(other) && (
        before.index.contains_key(other) ==> after.index[other] == before.index[other])
    &&& forall|other: Seq<char>|
        #![trigger after.history.contains_key(other)]
        #![trigger before.history.contains_key(other)]
        other != id ==> after.history.contains_key(other) == before.history.contains_key(other) && (
        before.history.contains_key(other) ==> after.history[other] == before.history[other])
}

/// Whether the counters follow one job of a queue that leaves a state and comes to
/// another.
pub open spec fn counted_over(
    before: StoreView,
    after: StoreView,
    queue: Seq<char>,
    from: Option<JobStatus>,
    to: Option<JobStatus>,
) -> bool {
    forall|q: Seq<char>, status: JobStatus| #[trigger]
        after.count(q, status) == before.count(q, status) - (if q == queue && from == Some(
            status,
        ) {
            1int
        } else {
            0
        }) + (if q == queue && to == Some(status) {
            1int
        } else {
            0
        })
}

/// Whether a job's history is the one it had, with one entry more.
pub open spec fn attempt_added(
    before: StoreView,
    after: StoreView,
    id: Seq<char>,
    attempt: JobAttemptView,
) -> bool {
    &&& after.history.contains_key(id)
    &&& after.history[id] == if before.history.contains_key(id) {
        before.history[id].push(attempt)
    } else {
        seq![attempt]
    }
}

/// The contents of a record are its fields.
pub proof fn record_contents_are_its_fields(job: JobRecord)
    ensures
        job@.id == job.id@,
        job@.queue == job.queue@,
        job@.payload == job.payload@,
        job.payload_ref matches Some(name) ==> job@.payload_ref == Some(name@),
        job.payload_ref is None ==> job@.payload_ref is None,
        job@.headers.len() == job.headers@.len(),
        forall|i: int|
            0 <= i < job.headers@.len() ==> #[trigger] job@.headers[i] == (
            job.headers@[i].0@,
            job.headers@[i].1@),
        job@.status == job.status,
        job@.attempts == job.attempts,
        job@.max_attempts == job.max_attempts,
        job@.priority == job.priority,
        job@.enqueued_at == job.enqueued_at,
        job@.claimed_at == job.claimed_at,
        job@.completed_at == job.completed_at,
        job@.failed_at == job.failed_at,
        job@.run_at == job.run_at,
        job.dedup_key matches Some(key) ==> job@.dedup_key == Some(key@),
        job.dedup_key is None ==> job@.dedup_key is None,
        job.last_error matches Some(error) ==> job@.last_error == Some(error@),
        job.last_error is None ==> job@.last_error is None,
        job@.cancel_requested == job.cancel_requested,
        job@.woken_at == job.woken_at,
        job.wake_payload matches Some(bytes) ==> job@.wake_payload == Some(bytes@),
        job.wake_payload is None ==> job@.wake_payload is None,
{
}

/// The contents of a history entry are its fields.
pub proof fn attempt_contents_are_its_fields(attempt: JobAttempt)
    ensures
        attempt@.attempt == attempt.attempt,
        attempt@.claimed_at == attempt.claimed_at,
        attempt@.recorded_at == attempt.recorded_at,
        attempt@.outcome == attempt.outcome,
        attempt.error matches Some(error) ==> attempt@.error == Some(error@),
        attempt.error is None ==> attempt@.error is None,
{
}

/// The contents of a place are its fields.
pub proof fn place_contents_are_its_fields(key: RecordKey)
    ensures
        match key {
            RecordKey::Pending { queue, priority, id } => key@ == (RecordKeyView::Pending {
                queue: queue@,
                priority,
                id: id@,
            }),
            RecordKey::Scheduled { run_at, queue, id } => key@ == (RecordKeyView::Scheduled {
                run_at,
                queue: queue@,
                id: id@,
            }),
            RecordKey::Claimed { queue, id } => key@ == (RecordKeyView::Claimed {
                queue: queue@,
                id: id@,
            }),
            RecordKey::Done { completed_at, queue, id } => key@ == (RecordKeyView::Done {
                completed_at,
                queue: queue@,
                id: id@,
            }),
            RecordKey::Dead { queue, id } => key@ == (RecordKeyView::Dead {
                queue: queue@,
                id: id@,
            }),
        },
{
}

/// The contents of the result of an enqueue tell a new job from one that was
/// there.
pub proof fn result_contents_are_its_fields(result: EnqueueResult, prepared: PreparedJob)
    ensures
        match result {
            EnqueueResult::New(id) => result@ == EnqueueResultView::New(id@),
            EnqueueResult::AlreadyEnqueued(id) => result@ == EnqueueResultView::AlreadyEnqueued(
                id@,
            ),
        },
        prepared@.job == prepared.job@,
        prepared@.key == prepared.key@,
        prepared@.id_override_used == prepared.id_override_used,
{
}

/// The store keeps all of a job but a payload in an object of its own.
pub proof fn stored_form_keeps_the_job(job: JobView)
    ensures
        kept_as(job, job.stored()),
{
}

/// What one operation does to the store: it writes or removes the one entry it
/// names, and adds to a counter or a history where it says so.
pub proof fn operations_touch_one_entry(s: StoreView, op: OpView)
    ensures
        ({
            let after = apply_op(s, op);
            &&& op matches OpView::PutRecord { key, record } ==> after.records == s.records.insert(
                key,
                record,
            )
            &&& op matches OpView::DeleteRecord { key } ==> after.records == s.records.remove(key)
            &&& !(op is PutRecord) && !(op is DeleteRecord) ==> after.records == s.records
            &&& op matches OpView::PutIndex { id, key } ==> after.index == s.index.insert(id, key)
            &&& op matches OpView::DeleteIndex { id } ==> after.index == s.index.remove(id)
            &&& !(op is PutIndex) && !(op is DeleteIndex) ==> after.index == s.index
            &&& op matches OpView::PutDedup { queue, dedup_key, id } ==> after.dedup
                == s.dedup.insert((queue, dedup_key), id)
            &&& op matches OpView::DeleteDedup { queue, dedup_key } ==> after.dedup
                == s.dedup.remove((queue, dedup_key))
            &&& !(op is PutDedup) && !(op is DeleteDedup) ==> after.dedup == s.dedup
            &&& op matches OpView::AddStat { queue, status, delta } ==> forall|
                q: Seq<char>,
                st: JobStatus,
            | #[trigger]
                after.count(q, st) == s.count(q, st) + if q == queue && st == status {
                    delta
                } else {
                    0
                }
            &&& !(op is AddStat) ==> after.counters == s.counters
            &&& op matches OpView::AppendAttempt { id, attempt } ==> attempt_added(
                s,
                after,
                id,
                attempt,
            ) && forall|other: Seq<char>|
                other != id ==> (#[trigger] after.history.contains_key(other))
                    == s.history.contains_key(other) && after.history[other] == s.history[other]
            &&& op matches OpView::DeleteHistory { id } ==> after.history == s.history.remove(id)
            &&& !(op is AppendAttempt) && !(op is DeleteHistory) ==> after.history == s.history
            &&& op matches OpView::PutKv { kv_key, value } ==> after.kv == s.kv.insert(
                kv_key,
                value,
            )
            &&& op matches OpView::DeleteKv { kv_key } ==> after.kv == s.kv.remove(kv_key)
            &&& !(op is PutKv) && !(op is DeleteKv) ==> after.kv == s.kv
        }),
{
    if let OpView::AppendAttempt { id, attempt } = op {
        assert(Seq::<JobAttemptView>::empty().push(attempt) =~= seq![attempt]);
    }
}

/// The contents of an operation are its fields.
pub proof fn operation_contents_are_its_fields(op: Op)
    ensures
        match op {
            Op::PutRecord { key, record } => op@ == (OpView::PutRecord {
                key: key@,
                record: record@,
            }),
            Op::DeleteRecord { key } => op@ == (OpView::DeleteRecord { key: key@ }),
            Op::PutIndex { id, key } => op@ == (OpView::PutIndex { id: id@, key: key@ }),
            Op::DeleteIndex { id } => op@ == (OpView::DeleteIndex { id: id@ }),
            Op::PutDedup { queue, dedup_key, id } => op@ == (OpView::PutDedup {
                queue: queue@,
                dedup_key: dedup_key@,
                id: id@,
            }),
            Op::DeleteDedup { queue, dedup_key } => op@ == (OpView::DeleteDedup {
                queue: queue@,
                dedup_key: dedup_key@,
            }),
            Op::AddStat { queue, status, delta } => op@ == (OpView::AddStat {
                queue: queue@,
                status,
                delta: delta as int,
            }),
            Op::AppendAttempt { id, attempt } => op@ == (OpView::AppendAttempt {
                id: id@,
                attempt: attempt@,
            }),
            Op::DeleteHistory { id } => op@ == (OpView::DeleteHistory { id: id@ }),
            Op::PutKv { kv_key, value } => op@ == (OpView::PutKv {
                kv_key: kv_key@,
                value: value@,
            }),
            Op::DeleteKv { kv_key } => op@ == (OpView::DeleteKv { kv_key: kv_key@ }),
        },
{
}

/// When a job asked for at a time may run: in milliseconds, at most what a clock
/// can show, and the epoch for any time before it.
pub open spec fn asked_for_at(when: UnixTime, millis: u64) -> bool {
    match when {
        UnixTime::BeforeEpoch => millis == 0,
        UnixTime::SinceEpoch(span) => if span@ / 1_000_000 <= u64::MAX {
            millis == span@ / 1_000_000
        } else {
            millis == u64::MAX
        },
    }
}

/// Whether a job carries what its enqueue asked for: the payload, the headers and
/// the deduplication key as given, the priority and the attempts as given or as
/// configured for the queue, and the time where it is still to come. It is new in
/// every other respect.
pub open spec fn carries(
    job: JobView,
    config: QueueConfig,
    queue: Seq<char>,
    payload: Seq<u8>,
    opts: EnqueueOptions,
    now: u64,
) -> bool {
    &&& job.queue == queue
    &&& job.payload == payload
    &&& job.payload_ref is None
    &&& job.headers.len() == opts.headers@.len()
    &&& forall|i: int|
        0 <= i < opts.headers@.len() ==> #[trigger] job.headers[i] == (
        opts.headers@[i].0@,
        opts.headers@[i].1@)
    &&& opts.max_attempts matches Some(n) ==> job.max_attempts == n
    &&& opts.max_attempts is None ==> job.max_attempts == config.max_attempts
    &&& opts.priority matches Some(p) ==> job.priority == p
    &&& opts.priority is None ==> job.priority == config.default_priority
    &&& opts.dedup_key matches Some(key) ==> job.dedup_key == Some(key@)
    &&& opts.dedup_key is None ==> job.dedup_key is None
    &&& job.enqueued_at == now
    &&& job.attempts == 0
    &&& match opts.run_at {
        None => job.status == JobStatus::Pending && job.run_at is None,
        Some(when) => forall|millis: u64| #[trigger]
            asked_for_at(when, millis) ==> if millis > now {
                job.status == JobStatus::Scheduled && job.run_at == Some(millis)
            } else {
                job.status == JobStatus::Pending && job.run_at is None
            },
    }
    &&& job.claimed_at is None
    &&& job.completed_at is None
    &&& job.failed_at is None
    &&& job.last_error is None
    &&& !job.cancel_requested
    &&& job.woken_at is None
    &&& job.wake_payload is None
}

/// Whether a prepared job goes where jobs of its state and time go.
pub open spec fn placed_by_state(p: PreparedView) -> bool {
    match p.job.run_at {
        Some(at) => p.key == (RecordKeyView::Scheduled {
            run_at: at,
            queue: p.job.queue,
            id: p.job.id,
        }),
        None => p.key == (RecordKeyView::Pending {
            queue: p.job.queue,
            priority: p.job.priority,
            id: p.job.id,
        }),
    }
}

/// An enqueue makes a job that carries what the caller gave, under the id it is
/// given.
pub proof fn enqueued_job_carries_what_was_given(
    config: QueueConfig,
    queue: Seq<char>,
    payload: Seq<u8>,
    opts: EnqueueOptions,
    id: Seq<char>,
    now: u64,
)
    ensures
        ({
            let p = prepared_job(config, queue, payload, opts, id, now);
            &&& carries(p.job, config, queue, payload, opts, now)
            &&& p.job.id == id
            &&& placed_by_state(p)
            &&& p.id_override_used == (opts.id_override is Some)
        }),
{
}

/// A job of a batch carries its payload, with the configured values of the queue.
pub proof fn batch_job_carries_its_payload(
    config: QueueConfig,
    queue: Seq<char>,
    payload: Seq<u8>,
    id: Seq<char>,
    now: u64,
)
    ensures
        ({
            let p = batch_job(config, queue, payload, id, now);
            &&& p.job.id == id
            &&& p.job.queue == queue
            &&& p.job.payload == payload
            &&& p.job.payload_ref is None
            &&& p.job.headers.len() == 0
            &&& p.job.status == JobStatus::Pending
            &&& p.job.attempts == 0
            &&& p.job.max_attempts == config.max_attempts
            &&& p.job.priority == config.default_priority
            &&& p.job.enqueued_at == now
            &&& p.job.claimed_at is None
            &&& p.job.completed_at is None
            &&& p.job.failed_at is None
            &&& p.job.run_at is None
            &&& p.job.dedup_key is None
            &&& p.job.last_error is None
            &&& !p.job.cancel_requested
            &&& p.job.woken_at is None
            &&& p.job.wake_payload is None
            &&& placed_by_state(p)
            &&& !p.id_override_used
        }),
{
}

/// Every enqueue of a list makes one job, in order, that carries what was given:
/// with the supplied id where there is one, and otherwise with an id drawn for it.
pub proof fn requested_jobs_carry_what_was_given(
    configs: QueueConfigs,
    requests: Seq<EnqueueRequest>,
    jobs: Seq<PreparedView>,
    last: u128,
    after: u128,
    now: u64,
)
    requires
        requests_prepared(configs, requests, jobs, last, after, now),
    ensures
        jobs.len() == requests.len(),
        forall|i: int|
            0 <= i < requests.len() ==> {
                let request = requests[i];
                &&& carries(
                    (#[trigger] jobs[i]).job,
                    configs.config(request.queue@),
                    request.queue@,
                    request.payload@,
                    request.options,
                    now,
                )
                &&& placed_by_state(jobs[i])
                &&& request.options.id_override matches Some(id) ==> jobs[i].id_override_used
                    && jobs[i].job.id == id@
                &&& request.options.id_override is None ==> !jobs[i].id_override_used
            },
    decreases requests.len(),
{
    if requests.len() > 0 {
        let request = requests.last();
        let job = jobs.last();
        let mid = choose|mid: u128|
            #![trigger id_drawn(mid, after, now, request.options.id_override, jobs.last().job.id)]
            {
                &&& requests_prepared(
                    configs,
                    requests.drop_last(),
                    jobs.drop_last(),
                    last,
                    mid,
                    now,
                )
                &&& id_drawn(mid, after, now, request.options.id_override, jobs.last().job.id)
            };
        requested_jobs_carry_what_was_given(
            configs,
            requests.drop_last(),
            jobs.drop_last(),
            last,
            mid,
            now,
        );
        enqueued_job_carries_what_was_given(
            configs.config(request.queue@),
            request.queue@,
            request.payload@,
            request.options,
            job.job.id,
            now,
        );
        assert forall|i: int| 0 <= i < requests.len() implies {
            let request = requests[i];
            &&& carries(
                (#[trigger] jobs[i]).job,
                configs.config(request.queue@),
                request.queue@,
                request.payload@,
                request.options,
                now,
            )
            &&& placed_by_state(jobs[i])
            &&& request.options.id_override matches Some(id) ==> jobs[i].id_override_used
                && jobs[i].job.id == id@
            &&& request.options.id_override is None ==> !jobs[i].id_override_used
        } by {
            if i < requests.len() - 1 {
                assert(jobs.drop_last()[i] == jobs[i]);
                assert(requests.drop_last()[i] == requests[i]);
            }
        }
    }
}

/// Every payload of a batch makes one job, in order, with the configured values of
/// the queue.
pub proof fn batched_jobs_carry_their_payloads(
    config: QueueConfig,
    queue: Seq<char>,
    payloads: Seq<Seq<u8>>,
    jobs: Seq<PreparedView>,
    last: u128,
    after: u128,
    now: u64,
)
    requires
        batch_prepared(config, queue, payloads, jobs, last, after, now),
    ensures
        jobs.len() == payloads.len(),
        forall|i: int|
            0 <= i < payloads.len() ==> {
                let job = (#[trigger] jobs[i]).job;
                &&& job.queue == queue
                &&& job.payload == payloads[i]
                &&& job.payload_ref is None
                &&& job.headers.len() == 0
                &&& job.status == JobStatus::Pending
                &&& job.run_at is None
                &&& job.attempts == 0
                &&& job.max_attempts == config.max_attempts
                &&& job.priority == config.default_priority
                &&& job.enqueued_at == now
                &&& job.dedup_key is None
                &&& placed_by_state(jobs[i])
                &&& !jobs[i].id_override_used
            },
    decreases payloads.len(),
{
    if payloads.len() > 0 {
        let mid = choose|mid: u128|
            #![trigger crate::ids::next_id(mid, after, now, jobs.last().job.id)]
            {
                &&& batch_prepared(
                    config,
                    queue,
                    payloads.drop_last(),
                    jobs.drop_last(),
                    last,
                    mid,
                    now,
                )
                &&& crate::ids::next_id(mid, after, now, jobs.last().job.id)
            };
        batched_jobs_carry_their_payloads(
            config,
            queue,
            payloads.drop_last(),
            jobs.drop_last(),
            last,
            mid,
            now,
        );
        assert forall|i: int| 0 <= i < payloads.len() implies {
            let job = (#[trigger] jobs[i]).job;
            &&& job.queue == queue
            &&& job.payload == payloads[i]
            &&& job.payload_ref is None
            &&& job.headers.len() == 0
            &&& job.status == JobStatus::Pending
            &&& job.run_at is None
            &&& job.attempts == 0
            &&& job.max_attempts == config.max_attempts
            &&& job.priority == config.default_priority
            &&& job.enqueued_at == now
            &&& job.dedup_key is None
            &&& placed_by_state(jobs[i])
            &&& !jobs[i].id_override_used
        } by {
            if i < payloads.len() - 1 {
                assert(jobs.drop_last()[i] == jobs[i]);
                assert(payloads.drop_last()[i] == payloads[i]);
            }
        }
    }
}

/// An enqueue stores its job, unless a job holds its deduplication key or its
/// supplied id is in use. What is stored is the whole job, at its place and nowhere
/// else; it holds its deduplication key and is counted. A held key reports its
/// holder and changes nothing, and so does an id in use, which is refused.
pub proof fn enqueue_stores_the_job(s: StoreView, p: PreparedView)
    requires
        well_formed(s),
        enqueueable(p),
        !p.id_override_used ==> !s.index.contains_key(p.job.id),
    ensures
        ({
            let held = p.job.dedup_key is Some && s.dedup.contains_key(
                (p.job.queue, p.job.dedup_key.unwrap()),
            );
            let taken = p.id_override_used && s.index.contains_key(p.job.id);
            match enqueued(s, p) {
                Err(e) => !held && taken && e == (ErrorView::DuplicateJobId { id: p.job.id }),
                Ok((after, EnqueueResultView::AlreadyEnqueued(holder))) => {
                    &&& held
                    &&& holder == s.dedup[(p.job.queue, p.job.dedup_key.unwrap())]
                    &&& after == s
                },
                Ok((after, EnqueueResultView::New(id))) => {
                    &&& !held && !taken
                    &&& id == p.job.id
                    &&& only_at(after, id, p.key)
                    &&& kept_as(p.job, after.records[p.key])
                    &&& others_kept(s, after, id)
                    &&& !after.history.contains_key(id)
                    &&& counted_over(s, after, p.job.queue, None, Some(p.job.status))
                    &&& p.job.dedup_key matches Some(dk) ==> after.dedup == s.dedup.insert(
                        (p.job.queue, dk),
                        id,
                    )
                    &&& p.job.dedup_key is None ==> after.dedup == s.dedup
                    &&& after.kv == s.kv
                },
            }
        }),
{
    assert(!s.history.contains_key(p.job.id) || s.index.contains_key(p.job.id));
}

/// An enqueue with writes to the caller's entries makes them exactly where it
/// stores a job: each entry then has the value of its last write, and every other
/// entry is as it was.
pub proof fn enqueue_with_entries_writes_them(
    s: StoreView,
    p: PreparedView,
    writes: Seq<(Seq<u8>, Seq<u8>)>,
)
    ensures
        match enqueued(s, p) {
            Err(e) => enqueued_with_kv(s, p, writes) == Err::<
                (StoreView, EnqueueResultView),
                ErrorView,
            >(e),
            Ok((alone, result)) => {
                &&& enqueued_with_kv(s, p, writes) matches Ok((after, reported)) && {
                    &&& reported == result
                    &&& after.records == alone.records
                    &&& after.index == alone.index
                    &&& after.dedup == alone.dedup
                    &&& after.counters == alone.counters
                    &&& after.history == alone.history
                    &&& result is AlreadyEnqueued ==> after.kv == s.kv
                    &&& result is New ==> entries_after(s.kv, after.kv, writes, Seq::empty())
                }
            },
        },
{
    entries_are_written(s.kv, writes, Seq::empty());
    assert(kv_deleted(kv_written(s.kv, writes), Seq::empty()) == kv_written(s.kv, writes));
}

/// Whether the caller's entries are those before with a list of writes made and
/// then a list of keys deleted: a deleted key is absent, a written one has the value
/// of its last write, and any other is as it was.
pub open spec fn entries_after(
    before: Map<Seq<u8>, Seq<u8>>,
    after: Map<Seq<u8>, Seq<u8>>,
    writes: Seq<(Seq<u8>, Seq<u8>)>,
    deletes: Seq<Seq<u8>>,
) -> bool {
    &&& forall|i: int| 0 <= i < deletes.len() ==> !after.contains_key(#[trigger] deletes[i])
    &&& forall|i: int|
        0 <= i < writes.len() && !deletes.contains((#[trigger] writes[i]).0) && (forall|j: int|
            i < j < writes.len() ==> (#[trigger] writes[j]).0 != writes[i].0)
            ==> after.contains_key(writes[i].0) && after[writes[i].0] == writes[i].1
    &&& forall|key: Seq<u8>|
        #![trigger after.contains_key(key)]
        #![trigger before.contains_key(key)]
        !deletes.contains(key) && (forall|i: int|
            0 <= i < writes.len() ==> (#[trigger] writes[i]).0 != key) ==> after.contains_key(key)
            == before.contains_key(key) && (before.contains_key(key) ==> after[key] == before[key])
}

#[verifier::spinoff_prover]
proof fn writes_take_effect(kv: Map<Seq<u8>, Seq<u8>>, writes: Seq<(Seq<u8>, Seq<u8>)>)
    ensures
        entries_after(kv, kv_written(kv, writes), writes, Seq::empty()),
    decreases writes.len(),
{
    let after = kv_written(kv, writes);
    if writes.len() > 0 {
        let fewer = writes.drop_last();
        let last = writes.last();
        let mid = kv_written(kv, fewer);
        writes_take_effect(kv, fewer);
        assert(writes[writes.len() - 1] == last);
        assert forall|i: int|
            0 <= i < writes.len() && !Seq::<Seq<u8>>::empty().contains((#[trigger] writes[i]).0)
                && (forall|j: int|
                i < j < writes.len() ==> (#[trigger] writes[j]).0
                    != writes[i].0) implies after.contains_key(writes[i].0) && after[writes[i].0]
            == writes[i].1 by {
            if i < fewer.len() {
                assert(fewer[i] == writes[i]);
                assert forall|j: int| i < j < fewer.len() implies (#[trigger] fewer[j]).0
                    != fewer[i].0 by {
                    assert(fewer[j] == writes[j]);
                }
                assert(writes[writes.len() - 1].0 != writes[i].0);
            }
        }
        assert forall|key: Seq<u8>|
            #![trigger after.contains_key(key)]
            #![trigger kv.contains_key(key)]
            !Seq::<Seq<u8>>::empty().contains(key) && (forall|i: int|
                0 <= i < writes.len() ==> (#[trigger] writes[i]).0
                    != key) implies after.contains_key(key) == kv.contains_key(key) && (
        kv.contains_key(key) ==> after[key] == kv[key]) by {
            assert forall|i: int| 0 <= i < fewer.len() implies (#[trigger] fewer[i]).0 != key by {
                assert(fewer[i] == writes[i]);
            }
            assert(mid.contains_key(key) == kv.contains_key(key));
        }
    }
}

/// Writing entries and then deleting some has the effect that it says.
pub proof fn entries_are_written(
    kv: Map<Seq<u8>, Seq<u8>>,
    writes: Seq<(Seq<u8>, Seq<u8>)>,
    deletes: Seq<Seq<u8>>,
)
    ensures
        entries_after(kv, kv_deleted(kv_written(kv, writes), deletes), writes, deletes),
    decreases deletes.len(),
{
    let mid = kv_written(kv, writes);
    let after = kv_deleted(mid, deletes);
    if deletes.len() == 0 {
        assert(deletes =~= Seq::empty());
        writes_take_effect(kv, writes);
    } else {
        let fewer = deletes.drop_last();
        let last = deletes.last();
        let before_last = kv_deleted(mid, fewer);
        entries_are_written(kv, writes, fewer);
        assert(deletes[deletes.len() - 1] == last);
        assert forall|key: Seq<u8>| #[trigger] fewer.contains(key) implies deletes.contains(
            key,
        ) by {
            let i = choose|i: int| 0 <= i < fewer.len() && fewer[i] == key;
            assert(deletes[i] == key);
        }
        assert forall|i: int| 0 <= i < deletes.len() implies !after.contains_key(
            #[trigger] deletes[i],
        ) by {
            if i < fewer.len() {
                assert(fewer[i] == deletes[i]);
            }
        }
        assert forall|i: int|
            0 <= i < writes.len() && !deletes.contains((#[trigger] writes[i]).0) && (forall|j: int|
                i < j < writes.len() ==> (#[trigger] writes[j]).0
                    != writes[i].0) implies after.contains_key(writes[i].0) && after[writes[i].0]
            == writes[i].1 by {
            assert(!fewer.contains(writes[i].0));
            assert(deletes.contains(last));
        }
        assert forall|key: Seq<u8>|
            #![trigger after.contains_key(key)]
            #![trigger kv.contains_key(key)]
            !deletes.contains(key) && (forall|i: int|
                0 <= i < writes.len() ==> (#[trigger] writes[i]).0
                    != key) implies after.contains_key(key) == kv.contains_key(key) && (
        kv.contains_key(key) ==> after[key] == kv[key]) by {
            assert(!fewer.contains(key));
            assert(deletes.contains(last));
            assert(before_last.contains_key(key) == kv.contains_key(key));
        }
    }
}

/// How many of a list of enqueues made a new job of a queue in a state.
pub open spec fn newly_counted(
    jobs: Seq<PreparedView>,
    results: Seq<EnqueueResultView>,
    queue: Seq<char>,
    status: JobStatus,
) -> int
    decreases jobs.len(),
{
    if jobs.len() == 0 {
        0
    } else {
        newly_counted(jobs.drop_last(), results, queue, status) + if results[jobs.len() - 1] is New
            && jobs.last().job.queue == queue && jobs.last().job.status == status {
            1int
        } else {
            0
        }
    }
}

/// Whether a list of enqueues came to its results: each new job is found at its
/// place as it was prepared, and holds its deduplication key; each that was turned
/// away names the holder of its key, which held it before or is new from an earlier
/// enqueue of the list. Every job that was there is as it was.
pub open spec fn enqueues_made(
    before: StoreView,
    after: StoreView,
    jobs: Seq<PreparedView>,
    results: Seq<EnqueueResultView>,
) -> bool {
    &&& results.len() == jobs.len()
    &&& forall|i: int| 0 <= i < jobs.len() ==> enqueue_made(before, after, jobs, results, i)
    &&& forall|id: Seq<char>|
        #![trigger before.index.contains_key(id)]
        before.index.contains_key(id) ==> after.index.contains_key(id) && after.index[id]
            == before.index[id] && after.records.contains_key(before.index[id])
            && after.records[before.index[id]] == before.records[before.index[id]]
    &&& forall|id: Seq<char>| #[trigger]
        after.index.contains_key(id) && !before.index.contains_key(id) ==> exists|i: int|
            0 <= i < jobs.len() && #[trigger] results[i] == EnqueueResultView::New(id)
    &&& forall|key: (Seq<char>, Seq<char>)|
        #![trigger before.dedup.contains_key(key)]
        before.dedup.contains_key(key) ==> after.dedup.contains_key(key) && after.dedup[key]
            == before.dedup[key]
    &&& after.history == before.history
    &&& forall|queue: Seq<char>, status: JobStatus| #[trigger]
        after.count(queue, status) == before.count(queue, status) + newly_counted(
            jobs,
            results,
            queue,
            status,
        )
}

/// Whether one enqueue of a list came to its result.
pub open spec fn enqueue_made(
    before: StoreView,
    after: StoreView,
    jobs: Seq<PreparedView>,
    results: Seq<EnqueueResultView>,
    i: int,
) -> bool {
    let p = jobs[i];
    match results[i] {
        EnqueueResultView::New(id) => {
            &&& id == p.job.id
            &&& !before.index.contains_key(id)
            &&& only_at(after, id, p.key)
            &&& kept_as(p.job, after.records[p.key])
            &&& p.job.dedup_key matches Some(dk) ==> !before.dedup.contains_key((p.job.queue, dk))
                && after.dedup.contains_key((p.job.queue, dk)) && after.dedup[(p.job.queue, dk)]
                == id
            &&& forall|j: int|
                0 <= j < i && #[trigger] results[j] is New ==> jobs[j].job.id != id
        },
        EnqueueResultView::AlreadyEnqueued(holder) => {
            &&& p.job.dedup_key is Some
            &&& ({
                let key = (p.job.queue, p.job.dedup_key.unwrap());
                &&& after.dedup.contains_key(key)
                &&& after.dedup[key] == holder
                &&& (before.dedup.contains_key(key) && before.dedup[key] == holder) || exists|
                    j: int,
                |
                    0 <= j < i && #[trigger] results[j] == EnqueueResultView::New(holder)
                        && jobs[j].job.dedup_key == p.job.dedup_key && jobs[j].job.queue
                        == p.job.queue
            })
        },
    }
}

/// Whether an error names a supplied id that is in use: taken beforehand, or by an
/// earlier enqueue of the list.
pub open spec fn in_use(taken: Set<Seq<char>>, jobs: Seq<PreparedView>, e: ErrorView) -> bool {
    exists|i: int|
        0 <= i < jobs.len() && (#[trigger] jobs[i]).id_override_used && e == (
        ErrorView::DuplicateJobId { id: jobs[i].job.id }) && (taken.contains(jobs[i].job.id)
            || exists|j: int| 0 <= j < i && (#[trigger] jobs[j]).job.id == jobs[i].job.id)
}

proof fn fewer_enqueues(s: StoreView, jobs: Seq<PreparedView>)
    requires
        all_enqueueable(jobs),
        fresh_ids(s, jobs),
        jobs.len() > 0,
    ensures
        all_enqueueable(jobs.drop_last()),
        fresh_ids(s, jobs.drop_last()),
{
    let fewer = jobs.drop_last();
    assert forall|i: int| 0 <= i < fewer.len() implies enqueueable(#[trigger] fewer[i]) by {
        assert(fewer[i] == jobs[i]);
    }
    assert forall|i: int| 0 <= i < fewer.len() && !(#[trigger] fewer[i]).id_override_used implies {
        &&& !s.index.contains_key(fewer[i].job.id)
        &&& forall|j: int|
            0 <= j < fewer.len() && j != i ==> (#[trigger] fewer[j]).job.id != fewer[i].job.id
    } by {
        assert(fewer[i] == jobs[i]);
        assert forall|j: int| 0 <= j < fewer.len() && j != i implies (#[trigger] fewer[j]).job.id
            != fewer[i].job.id by {
            assert(fewer[j] == jobs[j]);
        }
    }
}

proof fn newly_counted_by_prefix(
    jobs: Seq<PreparedView>,
    results: Seq<EnqueueResultView>,
    more: EnqueueResultView,
    queue: Seq<char>,
    status: JobStatus,
)
    requires
        jobs.len() <= results.len(),
    ensures
        newly_counted(jobs, results.push(more), queue, status) == newly_counted(
            jobs,
            results,
            queue,
            status,
        ),
    decreases jobs.len(),
{
    if jobs.len() > 0 {
        newly_counted_by_prefix(jobs.drop_last(), results, more, queue, status);
    }
}

/// A list of enqueues comes to its results. It is refused only for a supplied id
/// that is in use, in the store or earlier in the list.
#[verifier::spinoff_prover]
pub proof fn enqueues_come_to_their_results(s: StoreView, jobs: Seq<PreparedView>)
    requires
        well_formed(s),
        all_enqueueable(jobs),
        fresh_ids(s, jobs),
    ensures
        match enqueued_all(s, jobs) {
            Ok((after, results)) => enqueues_made(s, after, jobs, results) && well_formed(after)
                && after.kv == s.kv,
            Err(e) => in_use(s.index.dom(), jobs, e),
        },
    decreases jobs.len(),
{
    crate::laws::enqueues_keep_well_formed(s, jobs);
    if jobs.len() > 0 {
        let fewer = jobs.drop_last();
        let p = jobs.last();
        let n = fewer.len() as int;
        fewer_enqueues(s, jobs);
        enqueues_come_to_their_results(s, fewer);
        crate::laws::enqueues_keep_well_formed(s, fewer);
        assert(jobs[n] == p);
        match enqueued_all(s, fewer) {
            Err(e) => {
                let i = choose|i: int|
                    0 <= i < fewer.len() && (#[trigger] fewer[i]).id_override_used && e == (
                    ErrorView::DuplicateJobId { id: fewer[i].job.id }) && (s.index.contains_key(
                        fewer[i].job.id,
                    ) || exists|j: int|
                        0 <= j < i && (#[trigger] fewer[j]).job.id == fewer[i].job.id);
                assert(jobs[i] == fewer[i]);
                if !s.index.contains_key(fewer[i].job.id) {
                    let j = choose|j: int|
                        0 <= j < i && (#[trigger] fewer[j]).job.id == fewer[i].job.id;
                    assert(jobs[j] == fewer[j]);
                }
            },
            Ok((mid, done)) => {
                if mid.index.contains_key(p.job.id) && !s.index.contains_key(p.job.id) {
                    let j = choose|j: int|
                        0 <= j < fewer.len() && (#[trigger] fewer[j]).job.id == p.job.id;
                    assert(jobs[j] == fewer[j]);
                    assert(jobs[j].job.id == jobs[n].job.id);
                }
                enqueue_stores_the_job(mid, p);
                match enqueued(mid, p) {
                    Err(e) => {
                        assert(jobs[n].id_override_used);
                        if !s.index.contains_key(p.job.id) {
                            let j = choose|j: int|
                                0 <= j < fewer.len() && (#[trigger] fewer[j]).job.id == p.job.id;
                            assert(jobs[j] == fewer[j]);
                        }
                    },
                    Ok((after, result)) => {
                        one_more_enqueue_is_made(s, mid, after, jobs, done, result);
                    },
                }
            },
        }
    }
}

#[verifier::spinoff_prover]
proof fn one_more_enqueue_is_made(
    s: StoreView,
    mid: StoreView,
    after: StoreView,
    jobs: Seq<PreparedView>,
    done: Seq<EnqueueResultView>,
    result: EnqueueResultView,
)
    requires
        jobs.len() > 0,
        well_formed(s),
        well_formed(mid),
        enqueues_made(s, mid, jobs.drop_last(), done),
        enqueueable(jobs.last()),
        !jobs.last().id_override_used ==> !mid.index.contains_key(jobs.last().job.id),
        enqueued(mid, jobs.last()) == Ok::<(StoreView, EnqueueResultView), ErrorView>(
            (after, result),
        ),
    ensures
        enqueues_made(s, after, jobs, done.push(result)),
{
    let fewer = jobs.drop_last();
    let p = jobs.last();
    let n = fewer.len() as int;
    let results = done.push(result);
    enqueue_stores_the_job(mid, p);
    assert forall|i: int| 0 <= i < jobs.len() implies enqueue_made(s, after, jobs, results, i) by {
        if i < n {
            assert(enqueue_made(s, mid, fewer, done, i));
            assert(fewer[i] == jobs[i]);
            assert(results[i] == done[i]);
            match done[i] {
                EnqueueResultView::New(id) => {
                    assert(mid.index.contains_key(id));
                    assert(id != p.job.id || result is AlreadyEnqueued);
                    assert(mid.records.contains_key(jobs[i].key));
                    assert(jobs[i].key.id() == id) by {
                        assert(mid.index[id] == jobs[i].key);
                    }
                    assert(only_at(after, id, jobs[i].key)) by {
                        assert forall|key: RecordKeyView| #[trigger]
                            after.records.contains_key(key) && key.id() == id implies key
                            == jobs[i].key by {
                            assert(mid.records.contains_key(key));
                        }
                        assert(after.index.contains_key(id));
                        assert(after.records.contains_key(jobs[i].key));
                    }
                    assert forall|j: int|
                        0 <= j < i && #[trigger] results[j] is New implies jobs[j].job.id != id by {
                        assert(done[j] is New);
                        assert(fewer[j] == jobs[j]);
                    }
                },
                EnqueueResultView::AlreadyEnqueued(holder) => {
                    let key = (fewer[i].job.queue, fewer[i].job.dedup_key.unwrap());
                    if !(s.dedup.contains_key(key) && s.dedup[key] == holder) {
                        let j = choose|j: int|
                            0 <= j < i && #[trigger] done[j] == EnqueueResultView::New(holder)
                                && fewer[j].job.dedup_key == fewer[i].job.dedup_key
                                && fewer[j].job.queue == fewer[i].job.queue;
                        assert(results[j] == done[j]);
                        assert(fewer[j] == jobs[j]);
                    }
                },
            }
        } else {
            assert(results[i] == result);
            assert(jobs[i] == p);
            match result {
                EnqueueResultView::New(id) => {
                    assert(!mid.index.contains_key(id));
                    if s.index.contains_key(id) {
                        assert(mid.index.contains_key(id));
                    }
                    if let Some(dk) = p.job.dedup_key {
                        if s.dedup.contains_key((p.job.queue, dk)) {
                            assert(mid.dedup.contains_key((p.job.queue, dk)));
                        }
                    }
                    assert forall|j: int|
                        0 <= j < i && #[trigger] results[j] is New implies jobs[j].job.id != id by {
                        assert(done[j] is New);
                        assert(enqueue_made(s, mid, fewer, done, j));
                        assert(fewer[j] == jobs[j]);
                        assert(mid.index.contains_key(jobs[j].job.id));
                    }
                },
                EnqueueResultView::AlreadyEnqueued(holder) => {
                    let key = (p.job.queue, p.job.dedup_key.unwrap());
                    assert(mid.dedup.contains_key(key));
                    if !(s.dedup.contains_key(key) && s.dedup[key] == holder) {
                        assert(!s.dedup.contains_key(key));
                        // The holder is the job that carries the key.
                        assert(mid.index.contains_key(holder));
                        if s.index.contains_key(holder) {
                            assert(s.records.contains_key(s.index[holder]));
                            assert(s.dedup.contains_key(key));
                        }
                        let j = choose|j: int|
                            0 <= j < fewer.len() && #[trigger] done[j] == EnqueueResultView::New(
                                holder,
                            );
                        assert(enqueue_made(s, mid, fewer, done, j));
                        assert(results[j] == done[j]);
                        assert(fewer[j] == jobs[j]);
                    }
                },
            }
        }
    }
    assert forall|id: Seq<char>|
        #![trigger s.index.contains_key(id)]
        s.index.contains_key(id) implies after.index.contains_key(id) && after.index[id]
        == s.index[id] && after.records.contains_key(s.index[id]) && after.records[s.index[id]]
        == s.records[s.index[id]] by {
        assert(mid.index.contains_key(id));
        assert(mid.records.contains_key(mid.index[id]));
        assert(after.index.contains_key(id));
        assert(after.records.contains_key(mid.index[id]));
    }
    assert forall|id: Seq<char>| #[trigger]
        after.index.contains_key(id) && !s.index.contains_key(id) implies exists|i: int|
        0 <= i < jobs.len() && #[trigger] results[i] == EnqueueResultView::New(id) by {
        if mid.index.contains_key(id) {
            let i = choose|i: int|
                0 <= i < fewer.len() && #[trigger] done[i] == EnqueueResultView::New(id);
            assert(results[i] == done[i]);
        } else {
            assert(results[n] == result);
        }
    }
    assert forall|queue: Seq<char>, status: JobStatus| #[trigger]
        after.count(queue, status) == s.count(queue, status) + newly_counted(
            jobs,
            results,
            queue,
            status,
        ) by {
        newly_counted_by_prefix(fewer, done, result, queue, status);
        assert(mid.count(queue, status) == s.count(queue, status) + newly_counted(
            fewer,
            done,
            queue,
            status,
        ));
        assert(results[n] == result);
    }
    assert forall|key: (Seq<char>, Seq<char>)|
        #![trigger s.dedup.contains_key(key)]
        s.dedup.contains_key(key) implies after.dedup.contains_key(key) && after.dedup[key]
        == s.dedup[key] by {
        assert(mid.dedup.contains_key(key));
    }
    assert(after.history =~= mid.history) by {
        assert forall|id: Seq<char>| after.history.contains_key(id) == mid.history.contains_key(
            id,
        ) by {
            if mid.history.contains_key(id) {
                assert(mid.index.contains_key(id));
            }
        }
    }
}

/// Whether effects were applied to a store: their enqueues came to the results and
/// their writes and deletes were made.
pub open spec fn effects_made(
    before: StoreView,
    after: StoreView,
    effects: PreparedEffectsView,
    results: Seq<EnqueueResultView>,
) -> bool {
    &&& enqueues_made(before, after, effects.jobs, results)
    &&& entries_after(before.kv, after.kv, effects.kv_writes, effects.kv_deletes)
}

/// Effects are applied whole, or refused for a supplied id that is in use.
pub proof fn effects_are_applied_whole(s: StoreView, effects: PreparedEffectsView)
    requires
        well_formed(s),
        all_enqueueable(effects.jobs),
        fresh_ids(s, effects.jobs),
    ensures
        match effects_applied(s, effects) {
            Ok((after, results)) => effects_made(s, after, effects, results) && well_formed(after),
            Err(e) => in_use(s.index.dom(), effects.jobs, e),
        },
{
    enqueues_come_to_their_results(s, effects.jobs);
    crate::laws::effects_keep_well_formed(s, effects);
    entries_are_written(s.kv, effects.kv_writes, effects.kv_deletes);
    if let Ok((mid, results)) = enqueued_all(s, effects.jobs) {
        let after = effects_applied(s, effects)->Ok_0.0;
        assert forall|i: int| 0 <= i < effects.jobs.len() implies enqueue_made(
            s,
            after,
            effects.jobs,
            results,
            i,
        ) by {
            assert(enqueue_made(s, mid, effects.jobs, results, i));
        }
        assert forall|queue: Seq<char>, status: JobStatus| #[trigger]
            after.count(queue, status) == s.count(queue, status) + newly_counted(
                effects.jobs,
                results,
                queue,
                status,
            ) by {
            assert(mid.count(queue, status) == s.count(queue, status) + newly_counted(
                effects.jobs,
                results,
                queue,
                status,
            ));
        }
    }
}

/// Whether a claim is in force: the job's lease carries the token and the job is
/// still claimed.
pub open spec fn in_force(
    s: StoreView,
    leases: Map<(Seq<char>, Seq<char>), LeaseState>,
    queue: Seq<char>,
    id: Seq<char>,
    token: u64,
) -> bool {
    &&& leases.contains_key((queue, id))
    &&& leases[(queue, id)].token == token
    &&& s.records.contains_key(RecordKeyView::Claimed { queue, id })
}

/// What a job keeps when its claim ends: the work, the wake, the number of its
/// attempts, a request to cancel it, and that it holds no deduplication key.
pub open spec fn carried_over(claimed: JobView, ended: JobView) -> bool {
    &&& same_work(claimed, ended)
    &&& same_wake(claimed, ended)
    &&& ended.attempts == claimed.attempts
    &&& ended.cancel_requested == claimed.cancel_requested
    &&& ended.dedup_key == claimed.dedup_key
}

/// Whether only the one job of a queue, and the counters of the states it leaves
/// and comes to, differ between two stores.
pub open spec fn only_this_job(
    before: StoreView,
    after: StoreView,
    queue: Seq<char>,
    id: Seq<char>,
    from: JobStatus,
    to: JobStatus,
) -> bool {
    &&& others_kept(before, after, id)
    &&& counted_over(before, after, queue, Some(from), Some(to))
    &&& after.dedup == before.dedup
    &&& after.kv == before.kv
}

/// Whether a claimed job is done and kept.
pub open spec fn done_and_kept(
    s: StoreView,
    after: StoreView,
    queue: Seq<char>,
    id: Seq<char>,
    now: u64,
) -> bool {
    let job = s.records[RecordKeyView::Claimed { queue, id }];
    let place = RecordKeyView::Done { completed_at: now, queue, id };
    let ended = after.records[place];
    &&& only_at(after, id, place)
    &&& carried_over(job, ended)
    &&& ended.status == JobStatus::Done
    &&& ended.completed_at == Some(now)
    &&& ended.failed_at == job.failed_at
    &&& ended.claimed_at == job.claimed_at
    &&& ended.run_at == job.run_at
    &&& ended.last_error == job.last_error
    &&& attempt_added(
        s,
        after,
        id,
        JobAttemptView {
            attempt: job.attempts,
            claimed_at: job.claimed_at,
            recorded_at: now,
            outcome: AttemptOutcome::Completed,
            error: None,
        },
    )
    &&& only_this_job(s, after, queue, id, JobStatus::Claimed, JobStatus::Done)
}

/// Whether a claimed job is done and nothing of it is kept.
pub open spec fn done_and_dropped(
    s: StoreView,
    after: StoreView,
    queue: Seq<char>,
    id: Seq<char>,
) -> bool {
    &&& gone(after, id)
    &&& only_this_job(s, after, queue, id, JobStatus::Claimed, JobStatus::Done)
}

/// Whether a claimed job is dead, with an error.
pub open spec fn dead_lettered(
    s: StoreView,
    after: StoreView,
    queue: Seq<char>,
    id: Seq<char>,
    error: Seq<char>,
    now: u64,
) -> bool {
    let job = s.records[RecordKeyView::Claimed { queue, id }];
    let place = RecordKeyView::Dead { queue, id };
    let ended = after.records[place];
    &&& only_at(after, id, place)
    &&& carried_over(job, ended)
    &&& ended.status == JobStatus::Dead
    &&& ended.failed_at == Some(now)
    &&& ended.last_error == Some(error)
    &&& ended.claimed_at is None
    &&& ended.completed_at == job.completed_at
    &&& ended.run_at == job.run_at
    &&& attempt_added(
        s,
        after,
        id,
        JobAttemptView {
            attempt: job.attempts,
            claimed_at: job.claimed_at,
            recorded_at: now,
            outcome: AttemptOutcome::DeadLettered,
            error: Some(error),
        },
    )
    &&& only_this_job(s, after, queue, id, JobStatus::Claimed, JobStatus::Dead)
}

/// Whether a claimed job waits for another attempt, from a time on or at once.
pub open spec fn waits_again(
    s: StoreView,
    after: StoreView,
    queue: Seq<char>,
    id: Seq<char>,
    run_at: Option<u64>,
    outcome: AttemptOutcome,
    error: Option<Seq<char>>,
    now: u64,
) -> bool {
    let job = s.records[RecordKeyView::Claimed { queue, id }];
    let place = match run_at {
        Some(at) => RecordKeyView::Scheduled { run_at: at, queue, id },
        None => RecordKeyView::Pending { queue, priority: job.priority, id },
    };
    let status = if run_at is Some {
        JobStatus::Scheduled
    } else {
        JobStatus::Pending
    };
    let ended = after.records[place];
    &&& only_at(after, id, place)
    &&& carried_over(job, ended)
    &&& ended.status == status
    &&& ended.run_at == run_at
    &&& ended.claimed_at is None
    &&& ended.completed_at == job.completed_at
    &&& ended.failed_at == job.failed_at
    &&& error is Some ==> ended.last_error == error
    &&& error is None ==> ended.last_error == job.last_error
    &&& attempt_added(
        s,
        after,
        id,
        JobAttemptView {
            attempt: job.attempts,
            claimed_at: job.claimed_at,
            recorded_at: now,
            outcome,
            error,
        },
    )
    &&& only_this_job(s, after, queue, id, JobStatus::Claimed, status)
}

/// A settlement of a claim that is not in force is refused, whatever it is.
pub proof fn lost_claims_settle_nothing(
    s: StoreView,
    leases: Map<(Seq<char>, Seq<char>), LeaseState>,
    configs: QueueConfigs,
    queue: Seq<char>,
    id: Seq<char>,
    token: u64,
    end: ClaimEndView,
    error: Seq<char>,
    now: u64,
    effects: PreparedEffectsView,
)
    ensures
        !in_force(s, leases, queue, id, token) ==> claim_settled(
            s,
            leases,
            queue,
            id,
            token,
            end,
            now,
            Some(effects),
        ) == Err::<(StoreView, crate::settle::SettledView), ErrorView>(ErrorView::ClaimLost),
        !in_force(s, leases, queue, id, token) ==> nacked(
            s,
            leases,
            configs,
            queue,
            id,
            token,
            error,
            now,
            effects,
        ) == Err::<(StoreView, crate::settle::SettledView), ErrorView>(ErrorView::ClaimLost),
{
}

proof fn ended_claim_leaves(
    s: StoreView,
    queue: Seq<char>,
    id: Seq<char>,
    end: ClaimEndView,
    now: u64,
)
    requires
        well_formed(s),
        s.records.contains_key(RecordKeyView::Claimed { queue, id }),
    ensures
        ({
            let place = RecordKeyView::Claimed { queue, id };
            let job = s.records[place];
            let after = end.settled(s.vacated(place), job, now);
            &&& well_formed(after)
            &&& kept_as(end.ended(job, now), end.ended(job, now).stored())
            &&& match end {
                ClaimEndView::Done { keep: true } => done_and_kept(s, after, queue, id, now),
                ClaimEndView::Done { keep: false } => done_and_dropped(s, after, queue, id),
                ClaimEndView::Dead { error } => dead_lettered(s, after, queue, id, error, now),
                ClaimEndView::Retry { run_at, outcome, error } => waits_again(
                    s,
                    after,
                    queue,
                    id,
                    run_at,
                    outcome,
                    error,
                    now,
                ),
            }
        }),
{
    let place = RecordKeyView::Claimed { queue, id };
    let job = s.records[place];
    let after = end.settled(s.vacated(place), job, now);
    crate::laws::claim_end_keeps_well_formed(s, queue, id, end, now);
    assert(fits_place(place, job));
    assert(s.index[id] == place);
    let entry = end.attempt(job, now);
    assert(Seq::<JobAttemptView>::empty().push(entry) =~= seq![entry]);
    assert forall|key: RecordKeyView| #[trigger]
        s.records.contains_key(key) && key.id() == id implies key == place by {
        assert(s.index[key.id()] == key);
    }
    assert forall|q: Seq<char>, st: JobStatus| #[trigger]
        after.count(q, st) == s.count(q, st) - (if q == queue && Some(JobStatus::Claimed) == Some(
            st,
        ) {
            1int
        } else {
            0
        }) + (if q == queue && Some(end.status()) == Some(st) {
            1int
        } else {
            0
        }) by {}
}

proof fn ids_stay_fresh(s: StoreView, after: StoreView, jobs: Seq<PreparedView>)
    requires
        fresh_ids(s, jobs),
        forall|id: Seq<char>| #[trigger]
            after.index.contains_key(id) ==> s.index.contains_key(id),
    ensures
        fresh_ids(after, jobs),
{
    assert forall|i: int| 0 <= i < jobs.len() && !(#[trigger] jobs[i]).id_override_used implies {
        &&& !after.index.contains_key(jobs[i].job.id)
        &&& forall|j: int|
            0 <= j < jobs.len() && j != i ==> (#[trigger] jobs[j]).job.id != jobs[i].job.id
    } by {}
}

/// An acknowledgement makes the job done, kept or dropped as asked, and then applies
/// the effects, all in one step; it is refused only for an effect whose supplied id
/// is in use. The report is the job as it was left, with one result for each
/// enqueue.
pub proof fn acknowledged_job_is_done(
    s: StoreView,
    leases: Map<(Seq<char>, Seq<char>), LeaseState>,
    queue: Seq<char>,
    id: Seq<char>,
    token: u64,
    keep: bool,
    now: u64,
    effects: PreparedEffectsView,
)
    requires
        well_formed(s),
        in_force(s, leases, queue, id, token),
        all_enqueueable(effects.jobs),
        fresh_ids(s, effects.jobs),
    ensures
        match claim_settled(
            s,
            leases,
            queue,
            id,
            token,
            ClaimEndView::Done { keep },
            now,
            Some(effects),
        ) {
            Ok((after, report)) => {
                let job = s.records[RecordKeyView::Claimed { queue, id }];
                &&& exists|mid: StoreView|
                    (if keep {
                        done_and_kept(s, mid, queue, id, now)
                    } else {
                        done_and_dropped(s, mid, queue, id)
                    }) && report.results is Some && #[trigger] effects_made(
                        mid,
                        after,
                        effects,
                        report.results.unwrap(),
                    )
                &&& well_formed(after)
                &&& carried_over(job, report.job)
                &&& report.job.status == JobStatus::Done
                &&& report.job.completed_at == Some(now)
                &&& report.pending_key is None
            },
            Err(e) => in_use(
                if keep {
                    s.index.dom()
                } else {
                    s.index.dom().remove(id)
                },
                effects.jobs,
                e,
            ),
        },
{
    let end = ClaimEndView::Done { keep };
    let place = RecordKeyView::Claimed { queue, id };
    let mid = end.settled(s.vacated(place), s.records[place], now);
    assert(fits_place(place, s.records[place]));
    ended_claim_leaves(s, queue, id, end, now);
    crate::laws::claim_end_keeps_well_formed(s, queue, id, end, now);
    ids_stay_fresh(s, mid, effects.jobs);
    assert(mid.index.dom() =~= if keep {
        s.index.dom()
    } else {
        s.index.dom().remove(id)
    });
    effects_are_applied_whole(mid, effects);
    if let Ok((after, report)) = claim_settled(
        s,
        leases,
        queue,
        id,
        token,
        end,
        now,
        Some(effects),
    ) {
        assert(effects_made(mid, after, effects, report.results.unwrap()));
    }
}

/// A permanent failure makes the job dead with its reason, whatever attempts it has
/// left, and then applies the effects, all in one step.
pub proof fn failed_job_is_dead(
    s: StoreView,
    leases: Map<(Seq<char>, Seq<char>), LeaseState>,
    queue: Seq<char>,
    id: Seq<char>,
    token: u64,
    reason: Seq<char>,
    now: u64,
    effects: PreparedEffectsView,
)
    requires
        well_formed(s),
        in_force(s, leases, queue, id, token),
        all_enqueueable(effects.jobs),
        fresh_ids(s, effects.jobs),
    ensures
        match claim_settled(
            s,
            leases,
            queue,
            id,
            token,
            ClaimEndView::Dead { error: reason },
            now,
            Some(effects),
        ) {
            Ok((after, report)) => {
                let job = s.records[RecordKeyView::Claimed { queue, id }];
                &&& exists|mid: StoreView|
                    dead_lettered(s, mid, queue, id, reason, now) && report.results is Some
                        && #[trigger] effects_made(mid, after, effects, report.results.unwrap())
                &&& well_formed(after)
                &&& carried_over(job, report.job)
                &&& report.job.status == JobStatus::Dead
                &&& report.job.failed_at == Some(now)
                &&& report.job.last_error == Some(reason)
                &&& report.pending_key is None
            },
            Err(e) => in_use(s.index.dom(), effects.jobs, e),
        },
{
    let end = ClaimEndView::Dead { error: reason };
    let place = RecordKeyView::Claimed { queue, id };
    let mid = end.settled(s.vacated(place), s.records[place], now);
    assert(fits_place(place, s.records[place]));
    ended_claim_leaves(s, queue, id, end, now);
    crate::laws::claim_end_keeps_well_formed(s, queue, id, end, now);
    ids_stay_fresh(s, mid, effects.jobs);
    assert(mid.index.dom() =~= s.index.dom());
    effects_are_applied_whole(mid, effects);
    if let Ok((after, report)) = claim_settled(
        s,
        leases,
        queue,
        id,
        token,
        end,
        now,
        Some(effects),
    ) {
        assert(effects_made(mid, after, effects, report.results.unwrap()));
    }
}

/// The delay in nanoseconds before the retry after a number of attempts: the base
/// delay, doubled for each attempt after the first, and at most the longest.
pub open spec fn delay_after(attempts: u32, base: nat, longest: nat) -> nat {
    let doubled = base * pow2(
        if attempts <= 1 {
            0
        } else {
            (attempts - 1) as nat
        },
    );
    if doubled <= longest {
        doubled
    } else {
        longest
    }
}

/// The backoff is that delay, after every number of attempts.
pub proof fn backoff_is_the_doubled_base(attempts: u32, base: nat, longest: nat)
    ensures
        backoff_nanos(attempts, base, longest) == delay_after(attempts, base, longest),
{
    vstd::arithmetic::power2::lemma2_to64();
}

/// A failed attempt with attempts left waits out its backoff, after every number of
/// attempts: where the delay is not zero the job is scheduled for that much later,
/// and it is pending at once exactly where the delay is zero. The effects are
/// discarded.
pub proof fn failed_attempt_waits_out_its_backoff(
    s: StoreView,
    leases: Map<(Seq<char>, Seq<char>), LeaseState>,
    configs: QueueConfigs,
    queue: Seq<char>,
    id: Seq<char>,
    token: u64,
    error: Seq<char>,
    now: u64,
    effects: PreparedEffectsView,
)
    requires
        well_formed(s),
        in_force(s, leases, queue, id, token),
        ({
            let job = s.records[RecordKeyView::Claimed { queue, id }];
            let config = configs.config(queue);
            &&& job.attempts < job.max_attempts
            &&& now + delay_after(
                job.attempts,
                config.retry_backoff_base@,
                config.retry_backoff_max@,
            ) / 1_000_000 <= u64::MAX
        }),
    ensures
        ({
            let job = s.records[RecordKeyView::Claimed { queue, id }];
            let config = configs.config(queue);
            let delay = delay_after(
                job.attempts,
                config.retry_backoff_base@,
                config.retry_backoff_max@,
            );
            let run_at = (now + delay / 1_000_000) as u64;
            nacked(s, leases, configs, queue, id, token, error, now, effects) matches Ok(
                (after, report),
            ) && {
                &&& delay > 0 ==> waits_again(
                    s,
                    after,
                    queue,
                    id,
                    Some(run_at),
                    AttemptOutcome::Retried,
                    Some(error),
                    now,
                ) && report.job.status == JobStatus::Scheduled && report.job.run_at == Some(run_at)
                    && report.pending_key is None
                &&& delay == 0 ==> waits_again(
                    s,
                    after,
                    queue,
                    id,
                    None,
                    AttemptOutcome::Retried,
                    Some(error),
                    now,
                ) && report.job.status == JobStatus::Pending && report.job.run_at is None
                    && report.pending_key == Some(
                    RecordKeyView::Pending { queue, priority: job.priority, id },
                )
                &&& report.results is None
                &&& carried_over(job, report.job)
                &&& report.job.last_error == Some(error)
                &&& well_formed(after)
            }
        }),
{
    let place = RecordKeyView::Claimed { queue, id };
    let job = s.records[place];
    assert(fits_place(place, job));
    let config = configs.config(queue);
    let end = crate::settle::nack_end(config, job, error, now);
    backoff_is_the_doubled_base(
        job.attempts,
        config.retry_backoff_base@,
        config.retry_backoff_max@,
    );
    ended_claim_leaves(s, queue, id, end, now);
}

/// A failed attempt is turned down for its retry time exactly where the claim is in
/// force as far as was read, the job has attempts left, and the end of its backoff is
/// past the end of the clock.
pub proof fn retries_past_the_clock_are_turned_down(
    reads: Reads,
    leases: Map<(Seq<char>, Seq<char>), LeaseState>,
    configs: QueueConfigs,
    queue: Seq<char>,
    id: Seq<char>,
    token: u64,
    now: u64,
)
    ensures
        !nack_fits(reads, leases, configs, queue, id, token, now) <==> {
            &&& leases.contains_key((queue, id))
            &&& leases[(queue, id)].token == token
            &&& reads.record(RecordKeyView::Claimed { queue, id }) matches Some(Some(job))
            &&& job.attempts < job.max_attempts
            &&& now + delay_after(
                job.attempts,
                configs.config(job.queue).retry_backoff_base@,
                configs.config(job.queue).retry_backoff_max@,
            ) / 1_000_000 > u64::MAX
        },
{
    if let Some(Some(job)) = reads.record(RecordKeyView::Claimed { queue, id }) {
        let config = configs.config(job.queue);
        backoff_is_the_doubled_base(
            job.attempts,
            config.retry_backoff_base@,
            config.retry_backoff_max@,
        );
    }
}

/// A failed attempt that is the last makes the job dead with its error, and then
/// applies the effects, all in one step.
pub proof fn last_failed_attempt_makes_the_job_dead(
    s: StoreView,
    leases: Map<(Seq<char>, Seq<char>), LeaseState>,
    configs: QueueConfigs,
    queue: Seq<char>,
    id: Seq<char>,
    token: u64,
    error: Seq<char>,
    now: u64,
    effects: PreparedEffectsView,
)
    requires
        well_formed(s),
        in_force(s, leases, queue, id, token),
        s.records[RecordKeyView::Claimed { queue, id }].attempts
            >= s.records[RecordKeyView::Claimed { queue, id }].max_attempts,
        all_enqueueable(effects.jobs),
        fresh_ids(s, effects.jobs),
    ensures
        match nacked(s, leases, configs, queue, id, token, error, now, effects) {
            Ok((after, report)) => {
                let job = s.records[RecordKeyView::Claimed { queue, id }];
                &&& exists|mid: StoreView|
                    dead_lettered(s, mid, queue, id, error, now) && report.results is Some
                        && #[trigger] effects_made(mid, after, effects, report.results.unwrap())
                &&& well_formed(after)
                &&& carried_over(job, report.job)
                &&& report.job.status == JobStatus::Dead
                &&& report.job.failed_at == Some(now)
                &&& report.job.last_error == Some(error)
                &&& report.pending_key is None
            },
            Err(e) => in_use(s.index.dom(), effects.jobs, e),
        },
{
    failed_job_is_dead(s, leases, queue, id, token, error, now, effects);
}

/// Whether a pending or scheduled job is removed: nothing is left of it, its
/// deduplication key is free again, and every other job is as it was.
pub open spec fn removed(s: StoreView, after: StoreView, id: Seq<char>) -> bool {
    let place = s.index[id];
    let job = s.records[place];
    &&& gone(after, id)
    &&& others_kept(s, after, id)
    &&& counted_over(s, after, place.queue(), Some(place.status()), None)
    &&& job.dedup_key matches Some(dk) ==> after.dedup == s.dedup.remove((place.queue(), dk))
    &&& job.dedup_key is None ==> after.dedup == s.dedup
    &&& after.kv == s.kv
}

/// A cancellation removes a job that is pending or scheduled and then applies the
/// effects, all in one step, with one result for each enqueue.
pub proof fn waiting_job_is_removed_with_the_effects(
    s: StoreView,
    id: Seq<char>,
    effects: PreparedEffectsView,
)
    requires
        well_formed(s),
        s.index.contains_key(id),
        s.index[id] is Pending || s.index[id] is Scheduled,
        all_enqueueable(effects.jobs),
        fresh_ids(s, effects.jobs),
    ensures
        match cancelled(s, id, effects) {
            Ok((after, report)) => {
                &&& report.outcome == CancelOutcome::Removed
                &&& report.job == Some(s.records[s.index[id]])
                &&& report.results.len() == effects.jobs.len()
                &&& exists|mid: StoreView|
                    removed(s, mid, id) && #[trigger] effects_made(
                        mid,
                        after,
                        effects,
                        report.results,
                    )
                &&& well_formed(after)
            },
            Err(e) => in_use(s.index.dom().remove(id), effects.jobs, e),
        },
{
    let place = s.index[id];
    let job = s.records[place];
    assert(s.records.contains_key(place));
    assert(fits_place(place, job));
    let mid = crate::settle::job_removed(s, id, place, job);
    crate::laws::removal_keeps_well_formed(s, id);
    assert forall|key: RecordKeyView| #[trigger] mid.records.contains_key(key) implies key.id()
        != id by {
        assert(s.records.contains_key(key));
        assert(s.index[key.id()] == key);
    }
    assert(removed(s, mid, id));
    ids_stay_fresh(s, mid, effects.jobs);
    assert(mid.index.dom() =~= s.index.dom().remove(id));
    effects_are_applied_whole(mid, effects);
    if let Ok((after, report)) = cancelled(s, id, effects) {
        assert(effects_made(mid, after, effects, report.results));
    }
}

/// What a cancellation that reports a removal did, in terms of what can be read
/// afterwards: the job is gone, every entry that is written reads back, every
/// deleted one is absent, and every new follow-up job is found.
pub proof fn removal_applies_every_effect(
    s: StoreView,
    id: Seq<char>,
    effects: PreparedEffectsView,
    i: int,
)
    requires
        well_formed(s),
        all_enqueueable(effects.jobs),
        fresh_ids(s, effects.jobs),
        cancelled(s, id, effects) is Ok,
        cancelled(s, id, effects)->Ok_0.1.outcome == CancelOutcome::Removed,
    ensures
        ({
            let (after, report) = cancelled(s, id, effects)->Ok_0;
            &&& report.results.len() == effects.jobs.len()
            &&& 0 <= i < effects.kv_deletes.len() ==> !after.kv.contains_key(effects.kv_deletes[i])
            &&& 0 <= i < effects.kv_writes.len() && !effects.kv_deletes.contains(
                effects.kv_writes[i].0,
            ) && (forall|j: int|
                i < j < effects.kv_writes.len() ==> (#[trigger] effects.kv_writes[j]).0
                    != effects.kv_writes[i].0) ==> after.kv.contains_key(effects.kv_writes[i].0)
                && after.kv[effects.kv_writes[i].0] == effects.kv_writes[i].1
            &&& 0 <= i < effects.jobs.len() && effects.jobs[i].job.dedup_key is None
                ==> report.results[i] == EnqueueResultView::New(effects.jobs[i].job.id)
            &&& 0 <= i < effects.jobs.len() && report.results[i] is New ==> only_at(
                after,
                effects.jobs[i].job.id,
                effects.jobs[i].key,
            ) && kept_as(effects.jobs[i].job, after.records[effects.jobs[i].key])
            &&& (0 <= i < effects.jobs.len() ==> effects.jobs[i].job.id != id) && !(exists|k: int|
                0 <= k < effects.jobs.len() && (#[trigger] effects.jobs[k]).job.id == id) ==> gone(
                after,
                id,
            )
        }),
{
    assert(s.index.contains_key(id));
    assert(s.records.contains_key(s.index[id]));
    waiting_job_is_removed_with_the_effects(s, id, effects);
    let (after, report) = cancelled(s, id, effects)->Ok_0;
    let mid = choose|mid: StoreView|
        removed(s, mid, id) && #[trigger] effects_made(mid, after, effects, report.results);
    assert(effects_made(mid, after, effects, report.results));
    if 0 <= i < effects.jobs.len() {
        assert(enqueue_made(mid, after, effects.jobs, report.results, i));
    }
    if 0 <= i < effects.kv_deletes.len() {
        assert(!after.kv.contains_key(effects.kv_deletes[i]));
    }
    if !(exists|k: int| 0 <= k < effects.jobs.len() && (#[trigger] effects.jobs[k]).job.id == id) {
        if after.index.contains_key(id) {
            let k = choose|k: int|
                0 <= k < effects.jobs.len() && #[trigger] report.results[k]
                    == EnqueueResultView::New(id);
            assert(enqueue_made(mid, after, effects.jobs, report.results, k));
            assert(effects.jobs[k].job.id == id);
        }
        assert forall|key: RecordKeyView| #[trigger]
            after.records.contains_key(key) implies key.id() != id by {
            assert(after.index.contains_key(key.id()));
        }
    }
}

/// A cancellation of a claimed job flags it for its worker and changes nothing else
/// of it, and nothing of any other job. The effects are discarded. Of a job that is
/// done, dead or not there it changes nothing and finds nothing.
pub proof fn claimed_job_is_flagged(s: StoreView, id: Seq<char>, effects: PreparedEffectsView)
    requires
        well_formed(s),
        !s.index.contains_key(id) || s.index[id] is Claimed || s.index[id] is Done || s.index[id]
            is Dead,
    ensures
        cancelled(s, id, effects) matches Ok((after, report)) && {
            &&& report.results.len() == 0
            &&& after.index == s.index
            &&& after.kv == s.kv
            &&& after.dedup == s.dedup
            &&& after.history == s.history
            &&& after.counters == s.counters
            &&& others_kept(s, after, id)
            &&& if s.index.contains_key(id) && s.index[id] is Claimed {
                let place = s.index[id];
                let job = s.records[place];
                let flagged = after.records[place];
                &&& report.outcome == CancelOutcome::Requested
                &&& only_at(after, id, place)
                &&& same_work(job, flagged)
                &&& same_wake(job, flagged)
                &&& flagged.cancel_requested
                &&& flagged.status == job.status
                &&& flagged.attempts == job.attempts
                &&& flagged.claimed_at == job.claimed_at
                &&& flagged.completed_at == job.completed_at
                &&& flagged.failed_at == job.failed_at
                &&& flagged.run_at == job.run_at
                &&& flagged.dedup_key == job.dedup_key
                &&& flagged.last_error == job.last_error
                &&& report.job == Some(flagged)
            } else {
                &&& report.outcome == CancelOutcome::NotFound
                &&& report.job is None
                &&& after.records == s.records
            }
        },
{
    if s.index.contains_key(id) {
        let place = s.index[id];
        assert(s.records.contains_key(place));
        assert(fits_place(place, s.records[place]));
        let after = cancelled(s, id, effects)->Ok_0.0;
        assert forall|key: RecordKeyView| #[trigger]
            after.records.contains_key(key) && key.id() == id implies key == place by {
            assert(s.records.contains_key(key));
            assert(s.index[key.id()] == key);
        }
        if place is Claimed && s.records[place].cancel_requested {
            let job = s.records[place];
            assert(job == JobView { cancel_requested: true, ..job });
        }
    }
}

/// Whether a job moved to pending from another state: it is the same work with the
/// same attempts and the same errors, without a time to wait for.
pub open spec fn pending_again(
    s: StoreView,
    after: StoreView,
    from: RecordKeyView,
    id: Seq<char>,
) -> bool {
    let job = s.records[from];
    let place = RecordKeyView::Pending { queue: from.queue(), priority: job.priority, id };
    let moved = after.records[place];
    &&& only_at(after, id, place)
    &&& same_work(job, moved)
    &&& moved.status == JobStatus::Pending
    &&& moved.run_at is None
    &&& moved.completed_at == job.completed_at
    &&& moved.dedup_key == job.dedup_key
    &&& only_this_job(s, after, from.queue(), id, from.status(), JobStatus::Pending)
}

/// A woken job is the job that was scheduled in every field but its state, its time
/// and its wake: it is pending, with the time of the wake and the payload the wake
/// delivers. Nothing else changes, and only a scheduled job is woken.
pub proof fn woken_job_is_the_scheduled_job(
    s: StoreView,
    id: Seq<char>,
    wake_payload: Option<Seq<u8>>,
    now: u64,
)
    requires
        well_formed(s),
    ensures
        woken(s, id, wake_payload, now) matches Ok((after, report)) && {
            if s.index.contains_key(id) && s.index[id] is Scheduled {
                let job = s.records[s.index[id]];
                let place = RecordKeyView::Pending {
                    queue: s.index[id].queue(),
                    priority: job.priority,
                    id,
                };
                let moved = after.records[place];
                &&& report.outcome == WakeOutcome::Woken
                &&& pending_again(s, after, s.index[id], id)
                &&& moved.woken_at == Some(now)
                &&& moved.wake_payload == wake_payload
                &&& moved.attempts == job.attempts
                &&& moved.last_error == job.last_error
                &&& moved.claimed_at == job.claimed_at
                &&& moved.failed_at == job.failed_at
                &&& moved.cancel_requested == job.cancel_requested
                &&& after.history == s.history
                &&& report.moved == Some((moved, place))
            } else {
                &&& after == s
                &&& report.moved is None
                &&& report.outcome == if s.index.contains_key(id) {
                    WakeOutcome::NotScheduled
                } else {
                    WakeOutcome::NotFound
                }
            }
        },
{
    if s.index.contains_key(id) {
        let from = s.index[id];
        assert(s.records.contains_key(from));
        assert(fits_place(from, s.records[from]));
        if from is Scheduled {
            only_place_of_a_job(s, from, id);
        }
    }
}

proof fn only_place_of_a_job(s: StoreView, from: RecordKeyView, id: Seq<char>)
    requires
        well_formed(s),
        s.records.contains_key(from),
        from.id() == id,
    ensures
        forall|key: RecordKeyView| #[trigger]
            s.records.contains_key(key) && key.id() == id ==> key == from,
{
    assert forall|key: RecordKeyView| #[trigger]
        s.records.contains_key(key) && key.id() == id implies key == from by {
        assert(s.index[key.id()] == key);
        assert(s.index[from.id()] == from);
    }
}

/// A promoted job is the job that was scheduled in every field but its state and its
/// time. Nothing else changes, and a job that is no longer scheduled there is left
/// alone.
pub proof fn promoted_job_is_the_scheduled_job(s: StoreView, key: RecordKeyView)
    requires
        well_formed(s),
        key is Scheduled,
    ensures
        promoted(s, key) matches Ok((after, report)) && {
            if s.records.contains_key(key) {
                let job = s.records[key];
                let place = RecordKeyView::Pending {
                    queue: key.queue(),
                    priority: job.priority,
                    id: key.id(),
                };
                let moved = after.records[place];
                &&& pending_again(s, after, key, key.id())
                &&& same_wake(job, moved)
                &&& moved.attempts == job.attempts
                &&& moved.last_error == job.last_error
                &&& moved.claimed_at == job.claimed_at
                &&& moved.failed_at == job.failed_at
                &&& moved.cancel_requested == job.cancel_requested
                &&& after.history == s.history
                &&& report.moved == Some((moved, place))
            } else {
                after == s && report.moved is None
            }
        },
{
    if s.records.contains_key(key) {
        assert(fits_place(key, s.records[key]));
        only_place_of_a_job(s, key, key.id());
    }
}

/// A dead job that is brought back is found pending with all it had as a dead job;
/// only its attempts start anew, its errors, its last claim and any request to cancel
/// it are cleared, and its history goes on. A job that is not dead, or not there, is
/// refused.
pub proof fn revived_job_is_the_dead_job(s: StoreView, job: JobView, now: u64)
    requires
        well_formed(s),
    ensures
        ({
            let from = RecordKeyView::Dead { queue: job.queue, id: job.id };
            let place = RecordKeyView::Pending {
                queue: job.queue,
                priority: job.priority,
                id: job.id,
            };
            match requeued(s, job, now) {
                Ok((after, key)) => {
                    let moved = after.records[place];
                    &&& job.status == JobStatus::Dead
                    &&& s.records.contains_key(from)
                    &&& key == place
                    &&& only_at(after, job.id, place)
                    &&& only_this_job(
                        s,
                        after,
                        job.queue,
                        job.id,
                        JobStatus::Dead,
                        JobStatus::Pending,
                    )
                    &&& moved.id == job.id
                    &&& moved.queue == job.queue
                    &&& moved.payload_ref == job.payload_ref
                    &&& job.payload_ref is None ==> moved.payload == job.payload
                    &&& job.payload_ref is Some ==> moved.payload.len() == 0
                    &&& moved.headers == job.headers
                    &&& moved.max_attempts == job.max_attempts
                    &&& moved.priority == job.priority
                    &&& moved.enqueued_at == job.enqueued_at
                    &&& moved.completed_at == job.completed_at
                    &&& moved.dedup_key == job.dedup_key
                    &&& same_wake(job, moved)
                    &&& moved.status == JobStatus::Pending
                    &&& moved.run_at is None
                    &&& moved.attempts == 0
                    &&& moved.last_error is None
                    &&& moved.claimed_at is None
                    &&& moved.failed_at is None
                    &&& !moved.cancel_requested
                    &&& kept_as(job, s.records[from]) ==> pending_again(s, after, from, job.id)
                        && same_wake(s.records[from], moved)
                    &&& attempt_added(
                        s,
                        after,
                        job.id,
                        JobAttemptView {
                            attempt: 0,
                            claimed_at: None,
                            recorded_at: now,
                            outcome: AttemptOutcome::Requeued,
                            error: None,
                        },
                    )
                },
                Err(e) => if job.status != JobStatus::Dead {
                    e == ErrorView::InvalidState
                } else {
                    !s.records.contains_key(from) && e == (ErrorView::JobNotFound { id: job.id })
                },
            }
        }),
{
    let from = RecordKeyView::Dead { queue: job.queue, id: job.id };
    if job.status == JobStatus::Dead && s.records.contains_key(from) {
        assert(fits_place(from, s.records[from]));
        only_place_of_a_job(s, from, job.id);
        let marker = crate::settle::requeue_marker(now);
        assert(Seq::<JobAttemptView>::empty().push(marker) =~= seq![marker]);
    }
}

/// A compare-and-write of an entry writes, or deletes, exactly where the entry has
/// the expected value or is absent as expected, and reports which. No other entry
/// and no job changes.
pub proof fn compared_entry_is_written(
    s: StoreView,
    key: Seq<u8>,
    expected: Option<Seq<u8>>,
    value: Option<Seq<u8>>,
)
    ensures
        kv_compared(s, key, expected, value) matches Ok((after, done)) && {
            let matches_expected = match expected {
                Some(bytes) => s.kv.contains_key(key) && s.kv[key] == bytes,
                None => !s.kv.contains_key(key),
            };
            &&& done == matches_expected
            &&& !done ==> after == s
            &&& done ==> match value {
                Some(bytes) => after.kv.contains_key(key) && after.kv[key] == bytes,
                None => !after.kv.contains_key(key),
            }
            &&& forall|other: Seq<u8>|
                other != key ==> (#[trigger] after.kv.contains_key(other)) == s.kv.contains_key(
                    other,
                ) && after.kv[other] == s.kv[other]
            &&& after.records == s.records
            &&& after.index == s.index
            &&& after.dedup == s.dedup
            &&& after.counters == s.counters
            &&& after.history == s.history
        },
{
}

/// Reaping a lease that ran out ends the claim that it held: the job is dead with the
/// error that says so where its attempts are exhausted, and otherwise pending at
/// once. A lease that was superseded, or whose job is no longer claimed, changes
/// nothing.
pub proof fn reaped_claim_is_ended(
    s: StoreView,
    leases: Map<(Seq<char>, Seq<char>), LeaseState>,
    queue: Seq<char>,
    id: Seq<char>,
    token: u64,
    now: u64,
)
    requires
        well_formed(s),
    ensures
        reaped(s, leases, queue, id, token, now) matches Ok((after, report)) && {
            let place = RecordKeyView::Claimed { queue, id };
            let current = leases.contains_key((queue, id)) && leases[(queue, id)].token == token;
            &&& !current ==> report is Superseded && after == s
            &&& current && !s.records.contains_key(place) ==> report is Orphaned && after == s
            &&& current && s.records.contains_key(place) ==> {
                let job = s.records[place];
                report matches ReapedView::Ended(ended) && {
                    &&& job.attempts >= job.max_attempts ==> dead_lettered(
                        s,
                        after,
                        queue,
                        id,
                        "lease expired"@,
                        now,
                    ) && ended.job.status == JobStatus::Dead && ended.pending_key is None
                    &&& job.attempts < job.max_attempts ==> waits_again(
                        s,
                        after,
                        queue,
                        id,
                        None,
                        AttemptOutcome::LeaseExpired,
                        None,
                        now,
                    ) && ended.job.status == JobStatus::Pending && ended.pending_key == Some(
                        RecordKeyView::Pending { queue, priority: job.priority, id },
                    )
                    &&& carried_over(job, ended.job)
                    &&& ended.results is None
                }
            }
        },
{
    let place = RecordKeyView::Claimed { queue, id };
    if s.records.contains_key(place) {
        let job = s.records[place];
        assert(fits_place(place, job));
        ended_claim_leaves(s, queue, id, lapsed_end(job), now);
    }
}

/// A claim found when the store is opened ends in the same way, with the error that
/// says so. The requeue takes no attempt.
pub proof fn interrupted_claim_is_ended(s: StoreView, queue: Seq<char>, id: Seq<char>, now: u64)
    requires
        well_formed(s),
        s.records.contains_key(RecordKeyView::Claimed { queue, id }),
    ensures
        ({
            let job = s.records[RecordKeyView::Claimed { queue, id }];
            let (after, ended) = unsettled(s, job, interrupted_end(job), now);
            &&& job.attempts >= job.max_attempts ==> dead_lettered(
                s,
                after,
                queue,
                id,
                "claim interrupted by process exit"@,
                now,
            ) && ended.job.status == JobStatus::Dead && ended.pending_key is None
            &&& job.attempts < job.max_attempts ==> waits_again(
                s,
                after,
                queue,
                id,
                None,
                AttemptOutcome::Interrupted,
                None,
                now,
            ) && ended.job.status == JobStatus::Pending && ended.pending_key == Some(
                RecordKeyView::Pending { queue, priority: job.priority, id },
            )
            &&& carried_over(job, ended.job)
            &&& ended.results is None
        }),
{
    let place = RecordKeyView::Claimed { queue, id };
    let job = s.records[place];
    assert(fits_place(place, job));
    ended_claim_leaves(s, queue, id, interrupted_end(job), now);
}

/// Sweeping a done or dead job leaves nothing of it. The number of dead jobs follows;
/// the done jobs are counted as they are acknowledged, and a sweep leaves that.
/// Nothing else changes, and a job that is not there any more is not counted again.
pub proof fn swept_job_is_gone(s: StoreView, key: RecordKeyView)
    requires
        well_formed(s),
        key is Done || key is Dead,
    ensures
        swept(s, key, key.queue(), key.id()) matches Ok((after, existed)) && {
            &&& existed == s.records.contains_key(key)
            &&& !existed ==> after == s
            &&& existed ==> {
                &&& gone(after, key.id())
                &&& others_kept(s, after, key.id())
                &&& key is Dead ==> counted_over(s, after, key.queue(), Some(JobStatus::Dead), None)
                &&& key is Done ==> after.counters == s.counters
                &&& after.dedup == s.dedup
                &&& after.kv == s.kv
            }
        },
{
    if s.records.contains_key(key) {
        assert(fits_place(key, s.records[key]));
        let after = swept(s, key, key.queue(), key.id())->Ok_0.0;
        only_place_of_a_job(s, key, key.id());
        if key is Dead {
            assert(counted_over(s, after, key.queue(), Some(JobStatus::Dead), None));
        }
    }
}

/// A done or dead job has outlived its retention exactly where its queue has one and
/// the job reached that state longer ago.
pub proof fn retention_runs_from_the_terminal_time(
    configs: QueueConfigs,
    job: JobView,
    now: u64,
)
    ensures
        expired(configs, JobStatus::Done, job, now) <==> {
            &&& job.completed_at is Some
            &&& configs.config(job.queue).keep_done_jobs is Some
            &&& job.completed_at.unwrap() + configs.config(
                job.queue,
            ).keep_done_jobs.unwrap()@ / 1_000_000 < now
        },
        expired(configs, JobStatus::Dead, job, now) <==> {
            &&& job.failed_at is Some
            &&& configs.config(job.queue).dead_retention is Some
            &&& job.failed_at.unwrap() + configs.config(
                job.queue,
            ).dead_retention.unwrap()@ / 1_000_000 < now
        },
{
}

/// Whether a claimed job is the pending job it was: one attempt more, claimed at
/// `now`, with its deduplication key given up and all else as it was.
pub open spec fn claim_of(job: JobView, claimed: JobView, now: u64) -> bool {
    &&& same_work(job, claimed)
    &&& same_wake(job, claimed)
    &&& claimed.status == JobStatus::Claimed
    &&& claimed.attempts == job.attempts + 1
    &&& claimed.claimed_at == Some(now)
    &&& claimed.dedup_key is None
    &&& claimed.run_at == job.run_at
    &&& claimed.completed_at == job.completed_at
    &&& claimed.failed_at == job.failed_at
    &&& claimed.last_error == job.last_error
    &&& claimed.cancel_requested == job.cancel_requested
}

/// Whether one of a list of rows is about a job.
pub open spec fn about(rows: Seq<(RecordKeyView, JobView)>, id: Seq<char>) -> bool {
    exists|i: int| 0 <= i < rows.len() && (#[trigger] rows[i]).1.id == id
}

/// The job that a claim hands to a worker is the pending job.
pub proof fn claimed_job_is_the_pending_job(job: JobView, now: u64)
    requires
        job.attempts < u32::MAX,
    ensures
        claim_of(job, claimed_job(job, now), now),
        claimed_job(job, now).id == job.id,
{
}

proof fn claims_touch_their_own_jobs(
    s: StoreView,
    rows: Seq<(RecordKeyView, JobView)>,
    now: u64,
)
    ensures
        ({
            let after = claimed_each(s, rows, now);
            &&& after.kv == s.kv
            &&& after.history == s.history
            &&& after.counters == s.counters
            &&& forall|key: RecordKeyView| #[trigger]
                after.records.contains_key(key) && !about(rows, key.id())
                    ==> s.records.contains_key(key) && after.records[key] == s.records[key]
            &&& forall|id: Seq<char>|
                #![trigger after.index.contains_key(id)]
                #![trigger s.index.contains_key(id)]
                !about(rows, id) ==> after.index.contains_key(id) == s.index.contains_key(id)
                    && after.index[id] == s.index[id]
            &&& forall|k: (Seq<char>, Seq<char>)| #[trigger]
                after.dedup.contains_key(k) ==> s.dedup.contains_key(k) && after.dedup[k]
                    == s.dedup[k]
            &&& forall|k: (Seq<char>, Seq<char>)| #[trigger]
                s.dedup.contains_key(k) && !after.dedup.contains_key(k) ==> exists|i: int|
                    0 <= i < rows.len() && (#[trigger] rows[i]).1.queue == k.0
                        && rows[i].1.dedup_key == Some(k.1)
        }),
    decreases rows.len(),
{
    if rows.len() > 0 {
        let rest = rows.drop_last();
        let mid = claimed_each(s, rest, now);
        let after = claimed_each(s, rows, now);
        let last = rows.len() - 1;
        claims_touch_their_own_jobs(s, rest, now);
        assert(rows[last] == rows.last());
        assert forall|id: Seq<char>| #[trigger] about(rest, id) implies about(rows, id) by {
            let i = choose|i: int| 0 <= i < rest.len() && (#[trigger] rest[i]).1.id == id;
            assert(rows[i].1.id == id);
        }
        assert(about(rows, rows.last().1.id));
        assert forall|k: (Seq<char>, Seq<char>)| #[trigger]
            s.dedup.contains_key(k) && !after.dedup.contains_key(k) implies exists|i: int|
            0 <= i < rows.len() && (#[trigger] rows[i]).1.queue == k.0 && rows[i].1.dedup_key
                == Some(k.1) by {
            if mid.dedup.contains_key(k) {
                assert(rows[last].1.queue == k.0 && rows[last].1.dedup_key == Some(k.1));
            } else {
                let i = choose|i: int|
                    0 <= i < rest.len() && (#[trigger] rest[i]).1.queue == k.0
                        && rest[i].1.dedup_key == Some(k.1);
                assert(rows[i] == rest[i]);
            }
        }
        assert forall|key: RecordKeyView| #[trigger]
            after.records.contains_key(key) && !about(
                rows,
                key.id(),
            ) implies s.records.contains_key(key) && after.records[key] == s.records[key] by {
            assert(!about(rest, key.id()));
            assert(mid.records.contains_key(key));
        }
        assert forall|id: Seq<char>| !about(rows, id) implies (
        #[trigger] after.index.contains_key(id)) == s.index.contains_key(id) && after.index[id]
            == s.index[id] by {
            assert(!about(rest, id));
            assert(mid.index.contains_key(id) == s.index.contains_key(id));
        }
    }
}

/// A claim moves each of its jobs from pending to claimed, as the same work with one
/// attempt more, and frees their deduplication keys and no others. The counters
/// follow. Nothing else changes.
#[verifier::spinoff_prover]
pub proof fn claimed_jobs_are_the_pending_jobs(
    s: StoreView,
    queue: Seq<char>,
    rows: Seq<(RecordKeyView, JobView)>,
    now: u64,
)
    requires
        well_formed(s),
        claimable(s, queue, rows),
        forall|i: int| 0 <= i < rows.len() ==> (#[trigger] rows[i]).1.attempts < u32::MAX,
    ensures
        ({
            let after = claimed_batch(s, queue, rows, now);
            &&& forall|i: int|
                0 <= i < rows.len() ==> {
                    let id = (#[trigger] rows[i]).1.id;
                    let place = RecordKeyView::Claimed { queue, id };
                    &&& s.index[id] == rows[i].0
                    &&& only_at(after, id, place)
                    &&& claim_of(s.records[rows[i].0], after.records[place], now)
                    &&& rows[i].1.dedup_key matches Some(dk) ==> !after.dedup.contains_key(
                        (queue, dk),
                    )
                }
            &&& forall|key: RecordKeyView|
                #![trigger after.records.contains_key(key)]
                #![trigger s.records.contains_key(key)]
                !about(rows, key.id()) ==> after.records.contains_key(key)
                    == s.records.contains_key(key) && (s.records.contains_key(key)
                    ==> after.records[key] == s.records[key])
            &&& forall|id: Seq<char>|
                #![trigger after.index.contains_key(id)]
                #![trigger s.index.contains_key(id)]
                !about(rows, id) ==> after.index.contains_key(id) == s.index.contains_key(id)
                    && after.index[id] == s.index[id]
            &&& forall|k: (Seq<char>, Seq<char>)| #[trigger]
                after.dedup.contains_key(k) ==> s.dedup.contains_key(k) && after.dedup[k]
                    == s.dedup[k]
            &&& forall|k: (Seq<char>, Seq<char>)| #[trigger]
                s.dedup.contains_key(k) && !after.dedup.contains_key(k) ==> exists|i: int|
                    0 <= i < rows.len() && (#[trigger] rows[i]).1.queue == k.0
                        && rows[i].1.dedup_key == Some(k.1)
            &&& forall|q: Seq<char>, status: JobStatus| #[trigger]
                after.count(q, status) == s.count(q, status) + if q != queue {
                    0
                } else if status == JobStatus::Pending {
                    -rows.len()
                } else if status == JobStatus::Claimed {
                    rows.len() as int
                } else {
                    0
                }
            &&& after.history == s.history
            &&& after.kv == s.kv
        }),
{
    let after = claimed_batch(s, queue, rows, now);
    crate::laws::claiming_keeps_well_formed(s, queue, rows, now);
    claims_touch_their_own_jobs(s, rows, now);
    assert forall|i: int| 0 <= i < rows.len() implies {
        let id = (#[trigger] rows[i]).1.id;
        let place = RecordKeyView::Claimed { queue, id };
        &&& s.index[id] == rows[i].0
        &&& only_at(after, id, place)
        &&& claim_of(s.records[rows[i].0], after.records[place], now)
    } by {
        let row = rows[i];
        let id = row.1.id;
        let place = RecordKeyView::Claimed { queue, id };
        assert(s.records.contains_key(row.0));
        assert(fits_place(row.0, row.1));
        assert(after.job(id) == Some(claimed_job(row.1, now)));
        let at = after.index[id];
        assert(after.records.contains_key(at));
        assert(fits_place(at, after.records[at]));
        assert(at == place);
        claimed_job_is_the_pending_job(row.1, now);
        assert forall|key: RecordKeyView| #[trigger]
            after.records.contains_key(key) && key.id() == id implies key == place by {
            assert(after.index[key.id()] == key);
        }
    }
    assert forall|key: RecordKeyView| !about(rows, key.id()) implies (
    #[trigger] after.records.contains_key(key)) == s.records.contains_key(key) && (
    s.records.contains_key(key) ==> after.records[key] == s.records[key]) by {
        if s.records.contains_key(key) {
            if exists|i: int| 0 <= i < rows.len() && (#[trigger] rows[i]).0 == key {
                let i = choose|i: int| 0 <= i < rows.len() && (#[trigger] rows[i]).0 == key;
                assert(fits_place(key, s.records[key]));
                assert(rows[i].1.id == key.id());
            }
        }
    }
}

/// Each claimed job has a lease under its own token that runs out when asked for. It
/// starts out cancelled where the job's cancellation was asked for, and no other
/// lease changes.
pub proof fn claimed_jobs_have_their_leases(
    leases: Map<(Seq<char>, Seq<char>), LeaseState>,
    rows: Seq<(RecordKeyView, JobView)>,
    tokens: Seq<u64>,
    expires_at: u64,
)
    requires
        forall|i: int, j: int|
            0 <= i < j < rows.len() ==> (#[trigger] rows[i]).1.id != (#[trigger] rows[j]).1.id,
    ensures
        ({
            let after = leased_each(leases, rows, tokens, expires_at);
            &&& forall|i: int|
                0 <= i < rows.len() ==> {
                    let key = ((#[trigger] rows[i]).1.queue, rows[i].1.id);
                    &&& after.contains_key(key)
                    &&& after[key].token == tokens[i]
                    &&& after[key].expires_at == expires_at
                    &&& after[key].cancelled == rows[i].1.cancel_requested
                    &&& !after[key].reaping
                }
            &&& forall|queue: Seq<char>, id: Seq<char>|
                #![trigger after.contains_key((queue, id))]
                #![trigger leases.contains_key((queue, id))]
                !about(rows, id) ==> after.contains_key((queue, id)) == leases.contains_key(
                    (queue, id),
                ) && after[(queue, id)] == leases[(queue, id)]
        }),
    decreases rows.len(),
{
    if rows.len() > 0 {
        let rest = rows.drop_last();
        let last = rows.len() - 1;
        let mid = leased_each(leases, rest, tokens, expires_at);
        let after = leased_each(leases, rows, tokens, expires_at);
        assert forall|i: int, j: int| 0 <= i < j < rest.len() implies (#[trigger] rest[i]).1.id
            != (#[trigger] rest[j]).1.id by {
            assert(rest[i] == rows[i] && rest[j] == rows[j]);
        }
        claimed_jobs_have_their_leases(leases, rest, tokens, expires_at);
        assert(rows[last] == rows.last());
        assert forall|i: int| 0 <= i < rows.len() implies {
            let key = ((#[trigger] rows[i]).1.queue, rows[i].1.id);
            &&& after.contains_key(key)
            &&& after[key].token == tokens[i]
            &&& after[key].expires_at == expires_at
            &&& after[key].cancelled == rows[i].1.cancel_requested
            &&& !after[key].reaping
        } by {
            if i < last {
                assert(rest[i] == rows[i]);
                assert(rows[i].1.id != rows[last].1.id);
            }
        }
        assert forall|queue: Seq<char>, id: Seq<char>|
            #![trigger after.contains_key((queue, id))]
            #![trigger leases.contains_key((queue, id))]
            !about(rows, id) implies after.contains_key((queue, id)) == leases.contains_key(
            (queue, id),
        ) && after[(queue, id)] == leases[(queue, id)] by {
            if about(rest, id) {
                let i = choose|i: int| 0 <= i < rest.len() && (#[trigger] rest[i]).1.id == id;
                assert(rows[i].1.id == id);
            }
            assert(id != rows[last].1.id);
            assert(mid.contains_key((queue, id)) == leases.contains_key((queue, id)));
        }
    }
}

/// A renewal is granted exactly to the claim whose lease is in force and is not being
/// reaped. It moves the expiry to the given time, or leaves a later one where it is
/// not to shorten the lease, and changes nothing else.
pub proof fn renewal_moves_the_expiry(
    leases: Map<(Seq<char>, Seq<char>), LeaseState>,
    key: (Seq<char>, Seq<char>),
    token: u64,
    expires_at: u64,
    mode: Renewal,
)
    ensures
        match LeaseRegistry::renewed(leases, key, token, expires_at, mode) {
            None => !leases.contains_key(key) || leases[key].token != token || leases[key].reaping,
            Some((after, changed)) => {
                let lease = leases[key];
                &&& leases.contains_key(key)
                &&& lease.token == token
                &&& !lease.reaping
                &&& after.contains_key(key)
                &&& after[key].token == token
                &&& after[key].cancelled == lease.cancelled
                &&& !after[key].reaping
                &&& mode is Exactly ==> after[key].expires_at == expires_at && changed
                &&& mode is AtLeast ==> changed == (lease.expires_at < expires_at)
                    && after[key].expires_at == if lease.expires_at < expires_at {
                    expires_at
                } else {
                    lease.expires_at
                }
                &&& !changed ==> after == leases
                &&& after.dom() == leases.dom()
                &&& forall|other: (Seq<char>, Seq<char>)|
                    other != key ==> #[trigger] after[other] == leases[other]
            },
        },
{
    if let Some((after, _)) = LeaseRegistry::renewed(leases, key, token, expires_at, mode) {
        assert(after.dom() =~= leases.dom());
    }
}

/// Marking the leases that ran out leaves each of them in force, to be reaped, and
/// the others as they were.
pub proof fn marking_reaps_what_ran_out(
    leases: Map<(Seq<char>, Seq<char>), LeaseState>,
    now: u64,
    key: (Seq<char>, Seq<char>),
)
    ensures
        ({
            let after = LeaseRegistry::marked(leases, now);
            &&& after.contains_key(key) == leases.contains_key(key)
            &&& leases.contains_key(key) ==> {
                &&& after[key].token == leases[key].token
                &&& after[key].expires_at == leases[key].expires_at
                &&& after[key].cancelled == leases[key].cancelled
                &&& after[key].reaping == (leases[key].reaping || leases[key].expires_at <= now)
            }
        }),
{
}

/// The leases listed as run out are those of the registry that ran out, with their
/// tokens, and every one of them is listed.
pub proof fn listed_leases_ran_out(
    leases: Map<(Seq<char>, Seq<char>), LeaseState>,
    due: Seq<DueView>,
    now: u64,
)
    requires
        all_due(leases, due, now),
    ensures
        forall|i: int|
            0 <= i < due.len() ==> {
                let key = ((#[trigger] due[i]).queue, due[i].id);
                &&& leases.contains_key(key)
                &&& leases[key].token == due[i].token
                &&& leases[key].expires_at == due[i].expires_at
                &&& leases[key].expires_at <= now
            },
        forall|i: int, j: int|
            0 <= i < j < due.len() ==> ((#[trigger] due[i]).queue, due[i].id) != ((
            #[trigger] due[j]).queue, due[j].id),
        forall|key: (Seq<char>, Seq<char>)| #[trigger]
            leases.contains_key(key) && leases[key].expires_at <= now ==> exists|i: int|
                0 <= i < due.len() && (#[trigger] due[i]).queue == key.0 && due[i].id == key.1,
{
    assert forall|key: (Seq<char>, Seq<char>)| #[trigger]
        leases.contains_key(key) && leases[key].expires_at <= now implies exists|i: int|
        0 <= i < due.len() && (#[trigger] due[i]).queue == key.0 && due[i].id == key.1 by {
        assert(named(due, key));
    }
}

/// A lookup in a store reads its maps: a counter that was never written is zero, a
/// job without recorded attempts has none, and a job is the record its index entry
/// points to.
pub proof fn lookups_read_the_store(
    s: StoreView,
    queue: Seq<char>,
    status: JobStatus,
    id: Seq<char>,
)
    ensures
        s.counters.contains_key((queue, status)) ==> s.count(queue, status) == s.counters[(
        queue,
        status)],
        !s.counters.contains_key((queue, status)) ==> s.count(queue, status) == 0,
        s.history.contains_key(id) ==> s.attempts(id) == s.history[id],
        !s.history.contains_key(id) ==> s.attempts(id).len() == 0,
        s.index.contains_key(id) && s.records.contains_key(s.index[id]) ==> s.job(id) == Some(
            s.records[s.index[id]],
        ),
        !s.index.contains_key(id) || !s.records.contains_key(s.index[id]) ==> s.job(id) is None,
{
}

/// Operations are applied in order, and no operation leaves the store as it is.
pub proof fn operations_are_applied_in_order(s: StoreView, ops: Seq<OpView>, op: OpView)
    ensures
        apply(s, Seq::empty()) == s,
        apply(s, ops.push(op)) == apply_op(apply(s, ops), op),
{
    crate::store::apply_push(s, ops, op);
}

/// A decided transition takes every store that holds what was read to its outcome,
/// by the operations of its plan, and fails where its outcome is that failure. One
/// that is not decided asks for an entry that was not read.
pub proof fn plans_take_the_store_to_the_outcome<T: View>(
    r: Result<Plan<T>, Stop>,
    reads: Reads,
    outcome: spec_fn(StoreView) -> Result<(StoreView, T::V), ErrorView>,
    needed: spec_fn(NeedView) -> bool,
    s: StoreView,
)
    requires
        follows(r, reads, outcome, needed),
        reads.agrees(s),
    ensures
        r matches Ok(plan) ==> outcome(s) is Ok && outcome(s)->Ok_0.0 == apply(
            s,
            op_views(plan.ops@),
        ) && outcome(s)->Ok_0.1 == plan.value@,
        r matches Err(Stop::Fail(e)) ==> outcome(s) is Err && outcome(s)->Err_0 == e@,
        r matches Err(Stop::Need(need)) ==> !reads.knows(need@) && needed(need@),
{
}

/// What was read and agrees with a store is what the store holds, present or absent.
pub proof fn reads_agree_with_what_they_hold(
    reads: Reads,
    s: StoreView,
    id: Seq<char>,
    key: RecordKeyView,
    queue: Seq<char>,
    dk: Seq<char>,
    kv_key: Seq<u8>,
)
    requires
        reads.agrees(s),
    ensures
        reads.location(id) matches Some(None) ==> !s.index.contains_key(id),
        reads.location(id) matches Some(Some(place)) ==> s.index.contains_key(id) && s.index[id]
            == place,
        reads.record(key) matches Some(None) ==> !s.records.contains_key(key),
        reads.record(key) matches Some(Some(job)) ==> s.records.contains_key(key) && s.records[key]
            == job,
        reads.dedup(queue, dk) matches Some(None) ==> !s.dedup.contains_key((queue, dk)),
        reads.dedup(queue, dk) matches Some(Some(holder)) ==> s.dedup.contains_key((queue, dk))
            && s.dedup[(queue, dk)] == holder,
        reads.kv(kv_key) matches Some(None) ==> !s.kv.contains_key(kv_key),
        reads.kv(kv_key) matches Some(Some(value)) ==> s.kv.contains_key(kv_key) && s.kv[kv_key]
            == value,
{
}

/// What was read agrees with every store that has each entry read as it was read.
pub proof fn matching_stores_agree_with_reads(reads: Reads, s: StoreView)
    requires
        forall|id: Seq<char>|
            #![trigger reads.location(id)]
            reads.location(id) matches Some(place) ==> match place {
                Some(key) => s.index.contains_key(id) && s.index[id] == key,
                None => !s.index.contains_key(id),
            },
        forall|key: RecordKeyView|
            #![trigger reads.record(key)]
            reads.record(key) matches Some(record) ==> match record {
                Some(job) => s.records.contains_key(key) && s.records[key] == job,
                None => !s.records.contains_key(key),
            },
        forall|queue: Seq<char>, dk: Seq<char>|
            #![trigger reads.dedup(queue, dk)]
            reads.dedup(queue, dk) matches Some(holder) ==> match holder {
                Some(id) => s.dedup.contains_key((queue, dk)) && s.dedup[(queue, dk)] == id,
                None => !s.dedup.contains_key((queue, dk)),
            },
        forall|key: Seq<u8>|
            #![trigger reads.kv(key)]
            reads.kv(key) matches Some(value) ==> match value {
                Some(bytes) => s.kv.contains_key(key) && s.kv[key] == bytes,
                None => !s.kv.contains_key(key),
            },
    ensures
        reads.agrees(s),
{
}

} // verus!

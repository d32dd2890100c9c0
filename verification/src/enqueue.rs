//! Enqueuing jobs, alone, in batches and as effects of a settlement.

use crate::bytes::{copy_bytes, same_bytes, text_from_utf8};
use crate::error::{Error, ErrorView};
use crate::ids::{next_id, JobIds, TIME_VALUES};
use crate::job::{fresh_job, header_texts, opt_text, JobRecord, JobStatus, JobView};
use crate::keys::{name_fits, validate_queue_name, RecordKey, RecordKeyView};
use crate::options::{
    id_refusal, validate_id_override, validate_kv_value_size, EnqueueOptions, EnqueueRequest,
    QueueConfig, QueueConfigs, SettlementEffects, MAX_KV_VALUE_SIZE,
};
use crate::store::{entry, Op, StoreView};
use crate::time::UnixTime;
use crate::txn::{count_one, follows, put_job_record, Need, NeedView, Plan, Reads, Stop, Txn};
use vstd::prelude::*;

verus! {

/// What an enqueue came to.
#[derive(Debug, PartialEq, Eq)]
pub enum EnqueueResult {
    /// A new job was enqueued; its id.
    New(String),
    /// A pending or scheduled job holds the deduplication key; its id.
    /// Nothing was written.
    AlreadyEnqueued(String),
}

/// The contents of an [`EnqueueResult`].
pub enum EnqueueResultView {
    New(Seq<char>),
    AlreadyEnqueued(Seq<char>),
}

impl View for EnqueueResult {
    type V = EnqueueResultView;

    open spec fn view(&self) -> EnqueueResultView {
        match self {
            EnqueueResult::New(id) => EnqueueResultView::New(id@),
            EnqueueResult::AlreadyEnqueued(id) => EnqueueResultView::AlreadyEnqueued(id@),
        }
    }
}

impl Clone for EnqueueResult {
    fn clone(&self) -> (r: EnqueueResult)
        ensures
            r@ == self@,
    {
        match self {
            EnqueueResult::New(id) => EnqueueResult::New(id.clone()),
            EnqueueResult::AlreadyEnqueued(id) => EnqueueResult::AlreadyEnqueued(id.clone()),
        }
    }
}

impl EnqueueResultView {
    /// The id of the job, new or not.
    pub open spec fn id(self) -> Seq<char> {
        match self {
            EnqueueResultView::New(id) => id,
            EnqueueResultView::AlreadyEnqueued(id) => id,
        }
    }
}

impl EnqueueResult {
    /// The id of the job, new or not.
    pub fn id(&self) -> (r: &str)
        ensures
            r@ == self@.id(),
    {
        match self {
            EnqueueResult::New(id) => id.as_str(),
            EnqueueResult::AlreadyEnqueued(id) => id.as_str(),
        }
    }

    /// The id of the job, by value.
    pub fn into_id(self) -> (r: String)
        ensures
            r@ == self@.id(),
    {
        match self {
            EnqueueResult::New(id) => id,
            EnqueueResult::AlreadyEnqueued(id) => id,
        }
    }
}

/// The contents of a list of results.
pub open spec fn result_views(results: Seq<EnqueueResult>) -> Seq<EnqueueResultView> {
    Seq::new(results.len(), |i: int| results[i]@)
}

/// A job record ready to be written, with its place.
#[derive(Debug)]
pub struct PreparedJob {
    /// The record.
    pub job: JobRecord,
    /// Where it goes.
    pub key: RecordKey,
    /// Whether the caller supplied the id.
    pub id_override_used: bool,
}

/// The contents of a [`PreparedJob`].
pub struct PreparedView {
    pub job: JobView,
    pub key: RecordKeyView,
    pub id_override_used: bool,
}

impl View for PreparedJob {
    type V = PreparedView;

    open spec fn view(&self) -> PreparedView {
        PreparedView {
            job: self.job@,
            key: self.key@,
            id_override_used: self.id_override_used,
        }
    }
}

/// The contents of a list of prepared jobs.
pub open spec fn prepared_views(jobs: Seq<PreparedJob>) -> Seq<PreparedView> {
    Seq::new(jobs.len(), |i: int| jobs[i]@)
}

/// When a job is to run, where that is after `now`.
pub open spec fn due_at(run_at: Option<UnixTime>, now: u64) -> Option<u64> {
    match run_at {
        Some(when) if when.millis() > now => Some(when.millis() as u64),
        _ => None,
    }
}

/// The job that an enqueue of `payload` makes under the given id, and its
/// place.
pub open spec fn prepared_job(
    config: QueueConfig,
    queue: Seq<char>,
    payload: Seq<u8>,
    opts: EnqueueOptions,
    id: Seq<char>,
    now: u64,
) -> PreparedView {
    let run_at = due_at(opts.run_at, now);
    let max_attempts = match opts.max_attempts {
        Some(n) => n,
        None => config.max_attempts,
    };
    let priority = match opts.priority {
        Some(p) => p,
        None => config.default_priority,
    };
    PreparedView {
        job: JobView {
            headers: header_texts(opts.headers@),
            status: if run_at is Some {
                JobStatus::Scheduled
            } else {
                JobStatus::Pending
            },
            run_at,
            dedup_key: opt_text(opts.dedup_key),
            ..fresh_job(id, queue, payload, max_attempts, priority, now)
        },
        key: match run_at {
            Some(at) => RecordKeyView::Scheduled { run_at: at, queue, id },
            None => RecordKeyView::Pending { queue, priority, id },
        },
        id_override_used: opts.id_override is Some,
    }
}

/// Why an enqueue is refused before anything is read.
pub open spec fn prepare_refusal(queue: Seq<char>, opts: EnqueueOptions) -> Option<ErrorView> {
    if !name_fits(queue) {
        Some(
            ErrorView::InvalidQueueName {
                queue,
                reason: "queue name exceeds the maximum length of 255 bytes"@,
            },
        )
    } else {
        match opts.id_override {
            Some(id) => match id_refusal(id@) {
                Some(reason) => Some(ErrorView::InvalidId { id: id@, reason }),
                None => None,
            },
            None => None,
        }
    }
}

/// Whether the id of a prepared job is the supplied one, or was drawn from
/// the source of ids between `last` and `after`.
pub open spec fn id_drawn(
    last: u128,
    after: u128,
    now: u64,
    id_override: Option<String>,
    id: Seq<char>,
) -> bool {
    match id_override {
        Some(supplied) => id == supplied@ && after == last,
        None => next_id(last, after, now, id),
    }
}

/// Resolves the options of an enqueue against the queue's configuration and
/// builds the job record and its place.
pub fn prepare_job_record(
    configs: &QueueConfigs,
    ids: &mut JobIds,
    queue: &str,
    payload: Vec<u8>,
    opts: EnqueueOptions,
    now: u64,
) -> (r: Result<PreparedJob, Error>)
    requires
        opts.id_override is None ==> now < TIME_VALUES,
    ensures
        match r {
            Ok(p) => {
                &&& prepare_refusal(queue@, opts) is None
                &&& p@ == prepared_job(
                    configs.config(queue@),
                    queue@,
                    payload@,
                    opts,
                    p@.job.id,
                    now,
                )
                &&& id_drawn(old(ids)@, final(ids)@, now, opts.id_override, p@.job.id)
            },
            Err(e) => prepare_refusal(queue@, opts) == Some(e@) && final(ids)@ == old(ids)@,
        },
{
    if let Err(e) = validate_queue_name(queue) {
        return Err(e);
    }
    let config: &QueueConfig = configs.get(queue);
    let max_attempts: u32 = match opts.max_attempts {
        Some(n) => n,
        None => config.max_attempts,
    };
    let priority: u32 = match opts.priority {
        Some(p) => p,
        None => config.default_priority,
    };
    let run_at: Option<u64> = match &opts.run_at {
        Some(when) => {
            let ms: u64 = when.as_millis();
            if ms > now {
                Some(ms)
            } else {
                None
            }
        },
        None => None,
    };
    let (id, id_override_used) = match &opts.id_override {
        Some(supplied) => {
            if let Err(e) = validate_id_override(supplied.as_str()) {
                return Err(e);
            }
            (supplied.clone(), true)
        },
        None => (ids.next_job_id(now), false),
    };
    let (status, key) = match run_at {
        Some(ms) => (
            JobStatus::Scheduled,
            RecordKey::Scheduled { run_at: ms, queue: queue.to_owned(), id: id.clone() },
        ),
        None => (
            JobStatus::Pending,
            RecordKey::Pending { queue: queue.to_owned(), priority, id: id.clone() },
        ),
    };
    let mut job = JobRecord::new_pending(
        id,
        queue.to_owned(),
        payload,
        max_attempts,
        priority,
        now,
    );
    job.headers = opts.headers;
    job.status = status;
    job.run_at = run_at;
    job.dedup_key = opts.dedup_key;
    Ok(PreparedJob { job, key, id_override_used })
}

/// What enqueuing a prepared job does to the store, and what it comes to.
///
/// A job that holds the deduplication key blocks the enqueue; a supplied id
/// that is still indexed is refused.
pub open spec fn enqueued(s: StoreView, p: PreparedView) -> Result<
    (StoreView, EnqueueResultView),
    ErrorView,
> {
    let holder = match p.job.dedup_key {
        Some(dk) => entry(s.dedup, (p.job.queue, dk)),
        None => None,
    };
    if holder is Some {
        Ok((s, EnqueueResultView::AlreadyEnqueued(holder.unwrap())))
    } else if p.id_override_used && s.index.contains_key(p.job.id) {
        Err(ErrorView::DuplicateJobId { id: p.job.id })
    } else {
        Ok(
            (
                s.placed(p.key, p.job.stored()).held(
                    p.job.queue,
                    p.job.dedup_key,
                    p.job.id,
                ).counted(p.job.queue, p.job.status, 1),
                EnqueueResultView::New(p.job.id),
            ),
        )
    }
}

/// Whether `need` is an entry that enqueuing a prepared job depends on.
pub open spec fn needs_enqueue(p: PreparedView, need: NeedView) -> bool {
    ||| p.job.dedup_key matches Some(dk) && need == (NeedView::Dedup {
        queue: p.job.queue,
        dedup_key: dk,
    })
    ||| p.id_override_used && need == (NeedView::Location { id: p.job.id })
}

/// Stages the writes of one prepared job: its record, its index entry, its
/// deduplication entry and its counter. Where a job holds the deduplication
/// key nothing is staged.
pub fn stage_job_writes(txn: &mut Txn<'_>, prepared: &PreparedJob) -> (r: Result<
    EnqueueResult,
    Stop,
>)
    ensures
        *final(txn).known == *old(txn).known,
        match r {
            Ok(result) => forall|s: StoreView| #[trigger]
                old(txn).known.agrees(s) ==> enqueued(old(txn).result(s), prepared@) == Ok::<
                    (StoreView, EnqueueResultView),
                    ErrorView,
                >((final(txn).result(s), result@)),
            Err(Stop::Fail(e)) => forall|s: StoreView| #[trigger]
                old(txn).known.agrees(s) ==> enqueued(old(txn).result(s), prepared@) == Err::<
                    (StoreView, EnqueueResultView),
                    ErrorView,
                >(e@),
            Err(Stop::Need(need)) => !old(txn).known.knows(need@) && needs_enqueue(
                prepared@,
                need@,
            ),
        },
        r matches Ok(EnqueueResult::AlreadyEnqueued(_)) ==> *final(txn) == *old(txn),
        r is Err ==> *final(txn) == *old(txn),
{
    let job = &prepared.job;
    if let Some(dk) = &job.dedup_key {
        match txn.dedup(job.queue.as_str(), dk.as_str()) {
            Ok(Some(existing)) => {
                return Ok(EnqueueResult::AlreadyEnqueued(existing));
            },
            Ok(None) => {},
            Err(stop) => {
                return Err(stop);
            },
        }
    }
    if prepared.id_override_used {
        match txn.location(job.id.as_str()) {
            Ok(Some(_)) => {
                return Err(Stop::Fail(Error::DuplicateJobId { id: job.id.clone() }));
            },
            Ok(None) => {},
            Err(stop) => {
                return Err(stop);
            },
        }
    }
    put_job_record(txn, &prepared.key, job);
    if let Some(dk) = &job.dedup_key {
        txn.stage(
            Op::PutDedup { queue: job.queue.clone(), dedup_key: dk.clone(), id: job.id.clone() },
        );
    }
    count_one(txn, job.queue.as_str(), job.status, 1);
    Ok(EnqueueResult::New(job.id.clone()))
}

/// Settlement effects that were checked and prepared.
#[derive(Debug)]
pub struct PreparedEffects {
    /// Jobs to enqueue.
    pub jobs: Vec<PreparedJob>,
    /// Entries to write in the caller's key space.
    pub kv_writes: Vec<(Vec<u8>, Vec<u8>)>,
    /// Keys to delete from the caller's key space.
    pub kv_deletes: Vec<Vec<u8>>,
}

/// The contents of [`PreparedEffects`].
pub struct PreparedEffectsView {
    pub jobs: Seq<PreparedView>,
    pub kv_writes: Seq<(Seq<u8>, Seq<u8>)>,
    pub kv_deletes: Seq<Seq<u8>>,
}

/// The contents of a list of entries.
pub open spec fn kv_views(writes: Seq<(Vec<u8>, Vec<u8>)>) -> Seq<(Seq<u8>, Seq<u8>)> {
    Seq::new(writes.len(), |i: int| (writes[i].0@, writes[i].1@))
}

/// The contents of a list of keys.
pub open spec fn key_views(keys: Seq<Vec<u8>>) -> Seq<Seq<u8>> {
    Seq::new(keys.len(), |i: int| keys[i]@)
}

impl View for PreparedEffects {
    type V = PreparedEffectsView;

    open spec fn view(&self) -> PreparedEffectsView {
        PreparedEffectsView {
            jobs: prepared_views(self.jobs@),
            kv_writes: kv_views(self.kv_writes@),
            kv_deletes: key_views(self.kv_deletes@),
        }
    }
}

/// The refusal of the first value that is too large.
pub open spec fn kv_size_refusal(writes: Seq<(Seq<u8>, Seq<u8>)>) -> Option<ErrorView>
    decreases writes.len(),
{
    if writes.len() == 0 {
        None
    } else {
        match kv_size_refusal(writes.drop_last()) {
            Some(e) => Some(e),
            None => if writes.last().1.len() > MAX_KV_VALUE_SIZE {
                Some(
                    ErrorView::KvValueTooLarge {
                        size: writes.last().1.len(),
                        max: MAX_KV_VALUE_SIZE as nat,
                    },
                )
            } else {
                None
            },
        }
    }
}

/// Whether a list of entries writes `key`.
pub open spec fn writes_key(writes: Seq<(Seq<u8>, Seq<u8>)>, key: Seq<u8>) -> bool {
    exists|i: int| 0 <= i < writes.len() && (#[trigger] writes[i]).0 == key
}

/// The refusal of the first deleted key that is also written.
pub open spec fn conflict_refusal(
    deletes: Seq<Seq<u8>>,
    writes: Seq<(Seq<u8>, Seq<u8>)>,
) -> Option<ErrorView>
    decreases deletes.len(),
{
    if deletes.len() == 0 {
        None
    } else {
        match conflict_refusal(deletes.drop_last(), writes) {
            Some(e) => Some(e),
            None => if writes_key(writes, deletes.last()) {
                Some(ErrorView::ConflictingKvEffect { key: deletes.last() })
            } else {
                None
            },
        }
    }
}

/// The refusal of the first enqueue that is not acceptable.
pub open spec fn requests_refusal(requests: Seq<EnqueueRequest>) -> Option<ErrorView>
    decreases requests.len(),
{
    if requests.len() == 0 {
        None
    } else {
        match requests_refusal(requests.drop_last()) {
            Some(e) => Some(e),
            None => prepare_refusal(requests.last().queue@, requests.last().options),
        }
    }
}

/// Why effects are refused: an oversized value, then a key both written and
/// deleted, then an enqueue that is not acceptable.
pub open spec fn effects_refusal(effects: SettlementEffects) -> Option<ErrorView> {
    let writes = kv_views(effects.kv_writes@);
    match kv_size_refusal(writes) {
        Some(e) => Some(e),
        None => match conflict_refusal(key_views(effects.kv_deletes@), writes) {
            Some(e) => Some(e),
            None => requests_refusal(effects.enqueues@),
        },
    }
}

/// Whether `jobs` are what a list of enqueues makes, with ids drawn in order
/// from a source between `last` and `after`.
pub open spec fn requests_prepared(
    configs: QueueConfigs,
    requests: Seq<EnqueueRequest>,
    jobs: Seq<PreparedView>,
    last: u128,
    after: u128,
    now: u64,
) -> bool
    decreases requests.len(),
{
    if requests.len() == 0 {
        jobs.len() == 0 && after == last
    } else {
        let request = requests.last();
        &&& jobs.len() == requests.len()
        &&& jobs.last() == prepared_job(
            configs.config(request.queue@),
            request.queue@,
            request.payload@,
            request.options,
            jobs.last().job.id,
            now,
        )
        &&& exists|mid: u128|
            #![trigger id_drawn(mid, after, now, request.options.id_override, jobs.last().job.id)]
            {
                &&& requests_prepared(
                    configs,
                    requests.drop_last(),
                    jobs.drop_last(),
                    last,
                    mid,
                    now,
                )
                &&& id_drawn(mid, after, now, request.options.id_override, jobs.last().job.id)
            }
    }
}

/// Whether the first refused one of a list of enqueues left the source of ids,
/// from `last`, at `after`: those before it drew theirs.
pub open spec fn drawn_before_refusal(
    configs: QueueConfigs,
    requests: Seq<EnqueueRequest>,
    last: u128,
    after: u128,
    now: u64,
) -> bool {
    exists|n: int, jobs: Seq<PreparedView>|
        #![trigger requests_prepared(configs, requests.subrange(0, n), jobs, last, after, now)]
        {
            &&& 0 <= n < requests.len()
            &&& requests_refusal(requests.subrange(0, n)) is None
            &&& prepare_refusal(requests[n].queue@, requests[n].options) is Some
            &&& requests_prepared(configs, requests.subrange(0, n), jobs, last, after, now)
        }
}

fn check_kv_sizes(writes: &Vec<(Vec<u8>, Vec<u8>)>) -> (r: Result<(), Error>)
    ensures
        match r {
            Ok(()) => kv_size_refusal(kv_views(writes@)) is None,
            Err(e) => kv_size_refusal(kv_views(writes@)) == Some(e@),
        },
{
    let ghost all = kv_views(writes@);
    let mut i: usize = 0;
    while i < writes.len()
        invariant
            0 <= i <= writes@.len(),
            all == kv_views(writes@),
            kv_size_refusal(all.subrange(0, i as int)) is None,
        decreases writes@.len() - i,
    {
        proof {
            assert(all.subrange(0, i + 1).drop_last() =~= all.subrange(0, i as int));
        }
        if let Err(e) = validate_kv_value_size(writes[i].1.as_slice()) {
            proof {
                kv_size_refusal_is_first(all, i + 1);
            }
            return Err(e);
        }
        i += 1;
    }
    proof {
        assert(all.subrange(0, i as int) =~= all);
    }
    Ok(())
}

proof fn kv_size_refusal_is_first(writes: Seq<(Seq<u8>, Seq<u8>)>, n: int)
    requires
        0 <= n <= writes.len(),
        kv_size_refusal(writes.subrange(0, n)) is Some,
    ensures
        kv_size_refusal(writes) == kv_size_refusal(writes.subrange(0, n)),
    decreases writes.len() - n,
{
    if n < writes.len() {
        assert(writes.subrange(0, n + 1).drop_last() =~= writes.subrange(0, n));
        kv_size_refusal_is_first(writes, n + 1);
    } else {
        assert(writes.subrange(0, n) =~= writes);
    }
}

fn check_conflicts(deletes: &Vec<Vec<u8>>, writes: &Vec<(Vec<u8>, Vec<u8>)>) -> (r: Result<
    (),
    Error,
>)
    ensures
        match r {
            Ok(()) => conflict_refusal(key_views(deletes@), kv_views(writes@)) is None,
            Err(e) => conflict_refusal(key_views(deletes@), kv_views(writes@)) == Some(e@),
        },
{
    let ghost keys = key_views(deletes@);
    let ghost entries = kv_views(writes@);
    let mut i: usize = 0;
    while i < deletes.len()
        invariant
            0 <= i <= deletes@.len(),
            keys == key_views(deletes@),
            entries == kv_views(writes@),
            conflict_refusal(keys.subrange(0, i as int), entries) is None,
        decreases deletes@.len() - i,
    {
        proof {
            assert(keys.subrange(0, i + 1).drop_last() =~= keys.subrange(0, i as int));
        }
        let mut j: usize = 0;
        while j < writes.len()
            invariant
                0 <= j <= writes@.len(),
                i < deletes@.len(),
                keys == key_views(deletes@),
                entries == kv_views(writes@),
                conflict_refusal(keys.subrange(0, i as int), entries) is None,
                keys.subrange(0, i + 1).drop_last() == keys.subrange(0, i as int),
                forall|k: int| 0 <= k < j ==> (#[trigger] entries[k]).0 != keys[i as int],
            decreases writes@.len() - j,
        {
            if same_bytes(writes[j].0.as_slice(), deletes[i].as_slice()) {
                proof {
                    assert(entries[j as int].0 == keys[i as int]);
                    assert(keys.subrange(0, i + 1).last() == keys[i as int]);
                    conflict_refusal_is_first(keys, entries, i + 1);
                }
                return Err(
                    Error::ConflictingKvEffect { key: copy_bytes(deletes[i].as_slice()) },
                );
            }
            j += 1;
        }
        proof {
            assert(keys.subrange(0, i + 1).last() == keys[i as int]);
        }
        i += 1;
    }
    proof {
        assert(keys.subrange(0, i as int) =~= keys);
    }
    Ok(())
}

proof fn conflict_refusal_is_first(
    deletes: Seq<Seq<u8>>,
    writes: Seq<(Seq<u8>, Seq<u8>)>,
    n: int,
)
    requires
        0 <= n <= deletes.len(),
        conflict_refusal(deletes.subrange(0, n), writes) is Some,
    ensures
        conflict_refusal(deletes, writes) == conflict_refusal(deletes.subrange(0, n), writes),
    decreases deletes.len() - n,
{
    if n < deletes.len() {
        assert(deletes.subrange(0, n + 1).drop_last() =~= deletes.subrange(0, n));
        conflict_refusal_is_first(deletes, writes, n + 1);
    } else {
        assert(deletes.subrange(0, n) =~= deletes);
    }
}

proof fn requests_refusal_is_first(requests: Seq<EnqueueRequest>, n: int)
    requires
        0 <= n <= requests.len(),
        requests_refusal(requests.subrange(0, n)) is Some,
    ensures
        requests_refusal(requests) == requests_refusal(requests.subrange(0, n)),
    decreases requests.len() - n,
{
    if n < requests.len() {
        assert(requests.subrange(0, n + 1).drop_last() =~= requests.subrange(0, n));
        requests_refusal_is_first(requests, n + 1);
    } else {
        assert(requests.subrange(0, n) =~= requests);
    }
}

/// Checks settlement effects and builds the records of the jobs they
/// enqueue. This runs once, before the settlement's transaction, so that the
/// ids stay the same when the transaction is retried.
pub fn prepare_effects(
    configs: &QueueConfigs,
    ids: &mut JobIds,
    effects: SettlementEffects,
    now: u64,
) -> (r: Result<PreparedEffects, Error>)
    requires
        effects.enqueues@.len() > 0 ==> now < TIME_VALUES,
    ensures
        match r {
            Ok(p) => {
                &&& effects_refusal(effects) is None
                &&& p@.kv_writes == kv_views(effects.kv_writes@)
                &&& p@.kv_deletes == key_views(effects.kv_deletes@)
                &&& requests_prepared(
                    *configs,
                    effects.enqueues@,
                    p@.jobs,
                    old(ids)@,
                    final(ids)@,
                    now,
                )
            },
            Err(e) => {
                &&& effects_refusal(effects) == Some(e@)
                &&& if kv_size_refusal(kv_views(effects.kv_writes@)) is Some || conflict_refusal(
                    key_views(effects.kv_deletes@),
                    kv_views(effects.kv_writes@),
                ) is Some {
                    final(ids)@ == old(ids)@
                } else {
                    drawn_before_refusal(
                        *configs,
                        effects.enqueues@,
                        old(ids)@,
                        final(ids)@,
                        now,
                    )
                }
            },
        },
{
    if let Err(e) = check_kv_sizes(&effects.kv_writes) {
        return Err(e);
    }
    if let Err(e) = check_conflicts(&effects.kv_deletes, &effects.kv_writes) {
        return Err(e);
    }
    let SettlementEffects { enqueues, kv_writes, kv_deletes } = effects;
    let jobs = match prepare_requests(configs, ids, enqueues, now) {
        Ok(jobs) => jobs,
        Err(e) => {
            return Err(e);
        },
    };
    Ok(PreparedEffects { jobs, kv_writes, kv_deletes })
}

fn prepare_requests(
    configs: &QueueConfigs,
    ids: &mut JobIds,
    requests: Vec<EnqueueRequest>,
    now: u64,
) -> (r: Result<Vec<PreparedJob>, Error>)
    requires
        requests@.len() > 0 ==> now < TIME_VALUES,
    ensures
        match r {
            Ok(jobs) => {
                &&& requests_refusal(requests@) is None
                &&& requests_prepared(
                    *configs,
                    requests@,
                    prepared_views(jobs@),
                    old(ids)@,
                    final(ids)@,
                    now,
                )
            },
            Err(e) => requests_refusal(requests@) == Some(e@) && drawn_before_refusal(
                *configs,
                requests@,
                old(ids)@,
                final(ids)@,
                now,
            ),
        },
{
    let ghost all = requests@;
    let ghost last = ids@;
    let mut jobs: Vec<PreparedJob> = Vec::new();
    let mut rest = requests;
    reverse_requests(&mut rest);
    let ghost mut n: int = 0;
    proof {
        assert(all.subrange(0, 0) =~= Seq::empty());
        assert(prepared_views(jobs@) =~= Seq::empty());
    }
    while rest.len() > 0
        invariant
            all.len() > 0 ==> now < TIME_VALUES,
            all == requests@,
            last == old(ids)@,
            0 <= n <= all.len(),
            rest@.len() == all.len() - n,
            forall|i: int| 0 <= i < rest@.len() ==> #[trigger] rest@[i] == all[all.len() - 1 - i],
            requests_refusal(all.subrange(0, n)) is None,
            requests_prepared(
                *configs,
                all.subrange(0, n),
                prepared_views(jobs@),
                last,
                ids@,
                now,
            ),
            jobs@.len() == n,
        decreases rest@.len(),
    {
        let ghost before = prepared_views(jobs@);
        let ghost mid = ids@;
        proof {
            assert(all.subrange(0, n + 1).drop_last() =~= all.subrange(0, n));
            assert(rest@[rest@.len() - 1] == all[n]);
        }
        let request = rest.pop().unwrap();
        assert(request == all[n] && all.subrange(0, n + 1).last() == request);
        let EnqueueRequest { queue, payload, options } = request;
        match prepare_job_record(configs, ids, queue.as_str(), payload, options, now) {
            Ok(prepared) => {
                jobs.push(prepared);
                proof {
                    let now_all = prepared_views(jobs@);
                    assert(now_all.drop_last() =~= before);
                    assert(id_drawn(
                        mid,
                        ids@,
                        now,
                        all.subrange(0, n + 1).last().options.id_override,
                        now_all.last().job.id,
                    ));
                    assert(requests_prepared(
                        *configs,
                        all.subrange(0, n + 1).drop_last(),
                        now_all.drop_last(),
                        last,
                        mid,
                        now,
                    ));
                    assert(requests_prepared(
                        *configs,
                        all.subrange(0, n + 1),
                        now_all,
                        last,
                        ids@,
                        now,
                    ));
                }
            },
            Err(e) => {
                proof {
                    requests_refusal_is_first(all, n + 1);
                    assert(ids@ == mid);
                    assert(requests_prepared(
                        *configs,
                        all.subrange(0, n),
                        before,
                        last,
                        ids@,
                        now,
                    ));
                }
                return Err(e);
            },
        }
        proof {
            n = n + 1;
        }
    }
    proof {
        assert(all.subrange(0, n) =~= all);
    }
    Ok(jobs)
}

fn reverse_requests(requests: &mut Vec<EnqueueRequest>)
    ensures
        final(requests)@.len() == old(requests)@.len(),
        forall|i: int|
            0 <= i < old(requests)@.len() ==> #[trigger] final(requests)@[i] == old(
                requests,
            )@[old(requests)@.len() - 1 - i],
{
    let ghost all = requests@;
    let mut turned: Vec<EnqueueRequest> = Vec::new();
    while requests.len() > 0
        invariant
            requests@.len() + turned@.len() == all.len(),
            requests@ == all.subrange(0, requests@.len() as int),
            forall|i: int| 0 <= i < turned@.len() ==> #[trigger] turned@[i] == all[all.len() - 1 - i],
        decreases requests@.len(),
    {
        let request = requests.pop().unwrap();
        turned.push(request);
        assert(requests@ =~= all.subrange(0, requests@.len() as int));
    }
    *requests = turned;
}

/// What enqueuing a list of prepared jobs does to the store, and what each
/// comes to. One refusal refuses all.
pub open spec fn enqueued_all(s: StoreView, jobs: Seq<PreparedView>) -> Result<
    (StoreView, Seq<EnqueueResultView>),
    ErrorView,
>
    decreases jobs.len(),
{
    if jobs.len() == 0 {
        Ok((s, Seq::empty()))
    } else {
        match enqueued_all(s, jobs.drop_last()) {
            Err(e) => Err(e),
            Ok((before, results)) => match enqueued(before, jobs.last()) {
                Err(e) => Err(e),
                Ok((after, result)) => Ok((after, results.push(result))),
            },
        }
    }
}

/// The caller's entries after a list of writes, in order.
pub open spec fn kv_written(
    kv: Map<Seq<u8>, Seq<u8>>,
    writes: Seq<(Seq<u8>, Seq<u8>)>,
) -> Map<Seq<u8>, Seq<u8>>
    decreases writes.len(),
{
    if writes.len() == 0 {
        kv
    } else {
        kv_written(kv, writes.drop_last()).insert(writes.last().0, writes.last().1)
    }
}

/// The caller's entries without those of a list of keys.
pub open spec fn kv_deleted(kv: Map<Seq<u8>, Seq<u8>>, deletes: Seq<Seq<u8>>) -> Map<
    Seq<u8>,
    Seq<u8>,
>
    decreases deletes.len(),
{
    if deletes.len() == 0 {
        kv
    } else {
        kv_deleted(kv, deletes.drop_last()).remove(deletes.last())
    }
}

/// What settlement effects do to the store, and what their enqueues come to.
pub open spec fn effects_applied(s: StoreView, effects: PreparedEffectsView) -> Result<
    (StoreView, Seq<EnqueueResultView>),
    ErrorView,
> {
    match enqueued_all(s, effects.jobs) {
        Err(e) => Err(e),
        Ok((after, results)) => Ok(
            (
                StoreView {
                    kv: kv_deleted(kv_written(after.kv, effects.kv_writes), effects.kv_deletes),
                    ..after
                },
                results,
            ),
        ),
    }
}

/// Whether `need` is an entry that settlement effects depend on.
pub open spec fn needs_effects(jobs: Seq<PreparedView>, need: NeedView) -> bool {
    exists|i: int| 0 <= i < jobs.len() && needs_enqueue(#[trigger] jobs[i], need)
}

proof fn enqueue_refusal_is_final(s: StoreView, jobs: Seq<PreparedView>, n: int)
    requires
        0 <= n <= jobs.len(),
        enqueued_all(s, jobs.subrange(0, n)) is Err,
    ensures
        enqueued_all(s, jobs) == enqueued_all(s, jobs.subrange(0, n)),
    decreases jobs.len() - n,
{
    if n < jobs.len() {
        assert(jobs.subrange(0, n + 1).drop_last() =~= jobs.subrange(0, n));
        enqueue_refusal_is_final(s, jobs, n + 1);
    } else {
        assert(jobs.subrange(0, n) =~= jobs);
    }
}

fn stage_jobs(txn: &mut Txn<'_>, jobs: &Vec<PreparedJob>) -> (r: Result<Vec<EnqueueResult>, Stop>)
    ensures
        *final(txn).known == *old(txn).known,
        match r {
            Ok(results) => forall|s: StoreView| #[trigger]
                old(txn).known.agrees(s) ==> enqueued_all(old(txn).result(s), prepared_views(jobs@))
                    == Ok::<(StoreView, Seq<EnqueueResultView>), ErrorView>(
                    (final(txn).result(s), result_views(results@)),
                ),
            Err(Stop::Fail(e)) => forall|s: StoreView| #[trigger]
                old(txn).known.agrees(s) ==> enqueued_all(old(txn).result(s), prepared_views(jobs@))
                    == Err::<(StoreView, Seq<EnqueueResultView>), ErrorView>(e@),
            Err(Stop::Need(need)) => !old(txn).known.knows(need@) && needs_effects(
                prepared_views(jobs@),
                need@,
            ),
        },
{
    let ghost start = *txn;
    let ghost all = prepared_views(jobs@);
    let mut results: Vec<EnqueueResult> = Vec::new();
    let mut i: usize = 0;
    proof {
        assert(all.subrange(0, 0) =~= Seq::empty());
        assert(result_views(results@) =~= Seq::empty());
    }
    while i < jobs.len()
        invariant
            0 <= i <= jobs@.len(),
            all == prepared_views(jobs@),
            start == *old(txn),
            *txn.known == *start.known,
            forall|s: StoreView| #[trigger]
                start.known.agrees(s) ==> enqueued_all(
                    start.result(s),
                    all.subrange(0, i as int),
                ) == Ok::<(StoreView, Seq<EnqueueResultView>), ErrorView>(
                    (txn.result(s), result_views(results@)),
                ),
        decreases jobs@.len() - i,
    {
        let ghost before = *txn;
        let ghost so_far = result_views(results@);
        proof {
            assert(all.subrange(0, i + 1).drop_last() =~= all.subrange(0, i as int));
            assert(all.subrange(0, i + 1).last() == jobs@[i as int]@);
        }
        match stage_job_writes(txn, &jobs[i]) {
            Ok(result) => {
                let ghost view = result@;
                results.push(result);
                proof {
                    assert(result_views(results@) =~= so_far.push(view));
                }
            },
            Err(Stop::Fail(e)) => {
                proof {
                    assert forall|s: StoreView| #[trigger] start.known.agrees(s) implies enqueued_all(
                        start.result(s),
                        all,
                    ) == Err::<(StoreView, Seq<EnqueueResultView>), ErrorView>(e@) by {
                        assert(enqueued(before.result(s), jobs@[i as int]@) == Err::<
                            (StoreView, EnqueueResultView),
                            ErrorView,
                        >(e@));
                        enqueue_refusal_is_final(start.result(s), all, i + 1);
                    }
                }
                return Err(Stop::Fail(e));
            },
            Err(Stop::Need(need)) => {
                proof {
                    assert(needs_enqueue(all[i as int], need@));
                }
                return Err(Stop::Need(need));
            },
        }
        i += 1;
    }
    proof {
        assert(all.subrange(0, i as int) =~= all);
    }
    Ok(results)
}

fn stage_kv_writes(txn: &mut Txn<'_>, writes: &Vec<(Vec<u8>, Vec<u8>)>)
    ensures
        *final(txn).known == *old(txn).known,
        forall|s: StoreView| #[trigger]
            final(txn).result(s) == (StoreView {
                kv: kv_written(old(txn).result(s).kv, kv_views(writes@)),
                ..old(txn).result(s)
            }),
{
    let ghost start = *txn;
    let ghost all = kv_views(writes@);
    let mut i: usize = 0;
    proof {
        assert(all.subrange(0, 0) =~= Seq::empty());
    }
    while i < writes.len()
        invariant
            0 <= i <= writes@.len(),
            all == kv_views(writes@),
            *txn.known == *start.known,
            forall|s: StoreView| #[trigger]
                txn.result(s) == (StoreView {
                    kv: kv_written(start.result(s).kv, all.subrange(0, i as int)),
                    ..start.result(s)
                }),
        decreases writes@.len() - i,
    {
        proof {
            assert(all.subrange(0, i + 1).drop_last() =~= all.subrange(0, i as int));
        }
        txn.stage(
            Op::PutKv {
                kv_key: copy_bytes(writes[i].0.as_slice()),
                value: copy_bytes(writes[i].1.as_slice()),
            },
        );
        i += 1;
    }
    proof {
        assert(all.subrange(0, i as int) =~= all);
    }
}

fn stage_kv_deletes(txn: &mut Txn<'_>, deletes: &Vec<Vec<u8>>)
    ensures
        *final(txn).known == *old(txn).known,
        forall|s: StoreView| #[trigger]
            final(txn).result(s) == (StoreView {
                kv: kv_deleted(old(txn).result(s).kv, key_views(deletes@)),
                ..old(txn).result(s)
            }),
{
    let ghost start = *txn;
    let ghost all = key_views(deletes@);
    let mut i: usize = 0;
    proof {
        assert(all.subrange(0, 0) =~= Seq::empty());
    }
    while i < deletes.len()
        invariant
            0 <= i <= deletes@.len(),
            all == key_views(deletes@),
            *txn.known == *start.known,
            forall|s: StoreView| #[trigger]
                txn.result(s) == (StoreView {
                    kv: kv_deleted(start.result(s).kv, all.subrange(0, i as int)),
                    ..start.result(s)
                }),
        decreases deletes@.len() - i,
    {
        proof {
            assert(all.subrange(0, i + 1).drop_last() =~= all.subrange(0, i as int));
        }
        txn.stage(Op::DeleteKv { kv_key: copy_bytes(deletes[i].as_slice()) });
        i += 1;
    }
    proof {
        assert(all.subrange(0, i as int) =~= all);
    }
}

/// Stages prepared effects in a settlement's transaction. A deduplication
/// key that is held turns its enqueue into an
/// [`EnqueueResult::AlreadyEnqueued`] and leaves the rest as it is.
pub fn stage_effects(txn: &mut Txn<'_>, prepared: &PreparedEffects) -> (r: Result<
    Vec<EnqueueResult>,
    Stop,
>)
    ensures
        *final(txn).known == *old(txn).known,
        match r {
            Ok(results) => forall|s: StoreView| #[trigger]
                old(txn).known.agrees(s) ==> effects_applied(old(txn).result(s), prepared@) == Ok::<
                    (StoreView, Seq<EnqueueResultView>),
                    ErrorView,
                >((final(txn).result(s), result_views(results@))),
            Err(Stop::Fail(e)) => forall|s: StoreView| #[trigger]
                old(txn).known.agrees(s) ==> effects_applied(old(txn).result(s), prepared@)
                    == Err::<(StoreView, Seq<EnqueueResultView>), ErrorView>(e@),
            Err(Stop::Need(need)) => !old(txn).known.knows(need@) && needs_effects(
                prepared@.jobs,
                need@,
            ),
        },
{
    match stage_jobs(txn, &prepared.jobs) {
        Ok(results) => {
            stage_kv_writes(txn, &prepared.kv_writes);
            stage_kv_deletes(txn, &prepared.kv_deletes);
            Ok(results)
        },
        Err(stop) => Err(stop),
    }
}

/// What an enqueue with writes to the caller's key space does to the store:
/// where a job holds the deduplication key, nothing is written.
pub open spec fn enqueued_with_kv(
    s: StoreView,
    p: PreparedView,
    writes: Seq<(Seq<u8>, Seq<u8>)>,
) -> Result<(StoreView, EnqueueResultView), ErrorView> {
    match enqueued(s, p) {
        Ok((after, EnqueueResultView::New(id))) => Ok(
            (
                StoreView { kv: kv_written(after.kv, writes), ..after },
                EnqueueResultView::New(id),
            ),
        ),
        other => other,
    }
}

/// The transaction of an enqueue, with writes to the caller's key space.
pub fn write_job_txn(
    reads: &Reads,
    prepared: &PreparedJob,
    kv_writes: &Vec<(Vec<u8>, Vec<u8>)>,
) -> (r: Result<Plan<EnqueueResult>, Stop>)
    ensures
        follows(
            r,
            *reads,
            |s: StoreView| enqueued_with_kv(s, prepared@, kv_views(kv_writes@)),
            |need: NeedView| needs_enqueue(prepared@, need),
        ),
{
    let mut txn = Txn::new(reads);
    match stage_job_writes(&mut txn, prepared) {
        Ok(EnqueueResult::New(id)) => {
            stage_kv_writes(&mut txn, kv_writes);
            Ok(txn.plan(EnqueueResult::New(id)))
        },
        Ok(EnqueueResult::AlreadyEnqueued(id)) => Ok(
            txn.plan(EnqueueResult::AlreadyEnqueued(id)),
        ),
        Err(stop) => Err(stop),
    }
}

/// The job that a batch makes of a payload under the given id: pending, with
/// the queue's configured values.
pub open spec fn batch_job(
    config: QueueConfig,
    queue: Seq<char>,
    payload: Seq<u8>,
    id: Seq<char>,
    now: u64,
) -> PreparedView {
    PreparedView {
        job: fresh_job(id, queue, payload, config.max_attempts, config.default_priority, now),
        key: RecordKeyView::Pending { queue, priority: config.default_priority, id },
        id_override_used: false,
    }
}

/// Whether `jobs` are what a batch makes of a list of payloads, with ids drawn
/// in order from a source between `last` and `after`.
pub open spec fn batch_prepared(
    config: QueueConfig,
    queue: Seq<char>,
    payloads: Seq<Seq<u8>>,
    jobs: Seq<PreparedView>,
    last: u128,
    after: u128,
    now: u64,
) -> bool
    decreases payloads.len(),
{
    if payloads.len() == 0 {
        jobs.len() == 0 && after == last
    } else {
        &&& jobs.len() == payloads.len()
        &&& jobs.last() == batch_job(config, queue, payloads.last(), jobs.last().job.id, now)
        &&& exists|mid: u128|
            #![trigger next_id(mid, after, now, jobs.last().job.id)]
            {
                &&& batch_prepared(
                    config,
                    queue,
                    payloads.drop_last(),
                    jobs.drop_last(),
                    last,
                    mid,
                    now,
                )
                &&& next_id(mid, after, now, jobs.last().job.id)
            }
    }
}

/// Prepares a batch of jobs with the queue's configured values. An empty batch
/// is accepted for any name.
pub fn prepare_batch(
    configs: &QueueConfigs,
    ids: &mut JobIds,
    queue: &str,
    payloads: &Vec<Vec<u8>>,
    now: u64,
) -> (r: Result<Vec<PreparedJob>, Error>)
    requires
        payloads@.len() > 0 ==> now < TIME_VALUES,
    ensures
        match r {
            Ok(jobs) => {
                &&& payloads@.len() == 0 || name_fits(queue@)
                &&& batch_prepared(
                    configs.config(queue@),
                    queue@,
                    key_views(payloads@),
                    prepared_views(jobs@),
                    old(ids)@,
                    final(ids)@,
                    now,
                )
            },
            Err(e) => {
                &&& payloads@.len() > 0
                &&& !name_fits(queue@)
                &&& e@ == (ErrorView::InvalidQueueName {
                    queue: queue@,
                    reason: "queue name exceeds the maximum length of 255 bytes"@,
                })
                &&& final(ids)@ == old(ids)@
            },
        },
{
    let ghost all = key_views(payloads@);
    let ghost last = ids@;
    let ghost config = configs.config(queue@);
    let mut jobs: Vec<PreparedJob> = Vec::new();
    let mut i: usize = 0;
    proof {
        assert(all.subrange(0, 0) =~= Seq::empty());
        assert(prepared_views(jobs@) =~= Seq::empty());
    }
    while i < payloads.len()
        invariant
            payloads@.len() > 0 ==> now < TIME_VALUES,
            0 <= i <= payloads@.len(),
            all == key_views(payloads@),
            last == old(ids)@,
            config == configs.config(queue@),
            i > 0 ==> name_fits(queue@),
            batch_prepared(
                config,
                queue@,
                all.subrange(0, i as int),
                prepared_views(jobs@),
                last,
                ids@,
                now,
            ),
            jobs@.len() == i,
        decreases payloads@.len() - i,
    {
        let ghost before = prepared_views(jobs@);
        let ghost mid = ids@;
        proof {
            assert(all.subrange(0, i + 1).drop_last() =~= all.subrange(0, i as int));
            assert(all.subrange(0, i + 1).last() == payloads@[i as int]@);
        }
        let payload = copy_bytes(payloads[i].as_slice());
        let opts = EnqueueOptions::default();
        assert(header_texts(opts.headers@) =~= Seq::empty());
        match prepare_job_record(configs, ids, queue, payload, opts, now) {
            Ok(prepared) => {
                jobs.push(prepared);
                proof {
                    let grown = prepared_views(jobs@);
                    assert(grown.drop_last() =~= before);
                    assert(next_id(mid, ids@, now, grown.last().job.id));
                    assert(batch_prepared(
                        config,
                        queue@,
                        all.subrange(0, i + 1),
                        grown,
                        last,
                        ids@,
                        now,
                    ));
                }
            },
            Err(e) => {
                return Err(e);
            },
        }
        i += 1;
    }
    proof {
        assert(all.subrange(0, i as int) =~= all);
    }
    Ok(jobs)
}

/// What a batch of enqueues came to.
#[derive(Debug)]
pub struct BatchEnqueued {
    /// The results, which align with the jobs.
    pub results: Vec<EnqueueResult>,
}

/// The contents of [`BatchEnqueued`].
pub struct BatchEnqueuedView {
    pub results: Seq<EnqueueResultView>,
}

impl View for BatchEnqueued {
    type V = BatchEnqueuedView;

    open spec fn view(&self) -> BatchEnqueuedView {
        BatchEnqueuedView { results: result_views(self.results@) }
    }
}

/// What a batch of enqueues does to the store.
pub open spec fn batch_enqueued(s: StoreView, jobs: Seq<PreparedView>) -> Result<
    (StoreView, BatchEnqueuedView),
    ErrorView,
> {
    match enqueued_all(s, jobs) {
        Ok((after, results)) => Ok((after, BatchEnqueuedView { results })),
        Err(e) => Err(e),
    }
}

/// The transaction of a batch of enqueues.
pub fn enqueue_batch_txn(reads: &Reads, jobs: &Vec<PreparedJob>) -> (r: Result<
    Plan<BatchEnqueued>,
    Stop,
>)
    ensures
        follows(
            r,
            *reads,
            |s: StoreView| batch_enqueued(s, prepared_views(jobs@)),
            |need: NeedView| needs_effects(prepared_views(jobs@), need),
        ),
{
    let mut txn = Txn::new(reads);
    match stage_jobs(&mut txn, jobs) {
        Ok(results) => Ok(txn.plan(BatchEnqueued { results })),
        Err(stop) => Err(stop),
    }
}

/// A batch without deduplication keys and supplied ids is decided without a
/// read, is never refused, and every job of it is new.
pub proof fn plain_batch_is_all_new(s: StoreView, jobs: Seq<PreparedView>)
    requires
        forall|i: int|
            0 <= i < jobs.len() ==> (#[trigger] jobs[i]).job.dedup_key is None
                && !jobs[i].id_override_used,
    ensures
        forall|need: NeedView| !needs_effects(jobs, need),
        enqueued_all(s, jobs) matches Ok((_, results)) && results == Seq::new(
            jobs.len(),
            |i: int| EnqueueResultView::New(jobs[i].job.id),
        ),
    decreases jobs.len(),
{
    if jobs.len() > 0 {
        let rest = jobs.drop_last();
        assert forall|i: int| 0 <= i < rest.len() implies (#[trigger] rest[i]).job.dedup_key is None
            && !rest[i].id_override_used by {
            assert(rest[i] == jobs[i]);
        }
        plain_batch_is_all_new(s, rest);
        assert(jobs[jobs.len() - 1].job.dedup_key is None);
        let results = enqueued_all(s, jobs)->Ok_0.1;
        assert(results =~= Seq::new(
            jobs.len(),
            |i: int| EnqueueResultView::New(jobs[i].job.id),
        ));
    } else {
        assert(enqueued_all(s, jobs)->Ok_0.1 =~= Seq::new(
            jobs.len(),
            |i: int| EnqueueResultView::New(jobs[i].job.id),
        ));
    }
}

/// The job id that a deduplication entry holds; one that is not UTF-8 is
/// refused.
pub fn holder_from_bytes(bytes: Vec<u8>) -> (r: Result<String, Error>)
    ensures
        match r {
            Ok(id) => vstd::utf8::encode_utf8(id@) == bytes@,
            Err(e) => e == Error::InvalidState && !vstd::utf8::valid_utf8(bytes@),
        },
{
    match text_from_utf8(bytes) {
        Some(id) => Ok(id),
        None => Err(Error::InvalidState),
    }
}

} // verus!

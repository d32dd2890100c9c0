//! A queue over an in-memory ordered store, driven through the library's
//! transitions.

use std::cell::{Cell, Ref, RefCell, RefMut};
use std::collections::{BTreeMap, HashMap};
use std::ops::Deref;
use std::rc::Rc;
use std::sync::Arc;
use std::time::{Duration, SystemTime};

use bytes::Bytes;
use taquba::claim::{claim_wait_step, ClaimRow, ClaimRows, ClaimWait};
use taquba::enqueue::{
    enqueue_batch_txn, holder_from_bytes, prepare_batch, prepare_effects, prepare_job_record,
    write_job_txn, PreparedEffects, PreparedJob,
};
use taquba::keys::{
    attempt_history_key, claimed_key, cursor_key, job_index_key, pending_key, stats_key, tag_prefix, user_scoped_key,
    validate_queue_name, KeyTag, RecordKey,
};
use taquba::options::{validate_kv_value_size, MAX_ID_OVERRIDE_LEN};
use taquba::payload::{finish_effects, offload, unreferenced_after_write};
use taquba::queue_core::{
    absent_outcome, persist_cursor, restore_cursor, wait_start, waited_outcome, PersistedCursor,
    WaitStart,
};
use taquba::range::KeyBound;
use taquba::read::{
    dead_jobs_cursor, find_job, kv_scan_range, list_jobs_range, list_queues, looked_up,
    materialize, queue_stats, JobPager, KvPager, RawCounters,
};
use taquba::reaper::{reap_txn, requeue_interrupted_txn, sweep_victim_txn, Reaped, Sweep};
use taquba::scheduler::{promote_txn, Promotion};
use taquba::settle::{
    ack_txn, cancel_txn, check_nack_fits, dead_letter_txn, kv_compare_delete_txn,
    kv_compare_put_txn, nack_outcome, nack_txn, requeue_dead_job_txn, wake_scheduled_txn, Settled,
};
use taquba::stats::counter_bytes;
use taquba::store::Op;
use taquba::txn::{Need, Plan, Reads, Stop};
use taquba::worker::{
    process, worker_step, PoolAction, Settlement, WorkerAction, WorkerEvent, WorkerPool,
};
use taquba::{
    AttemptOutcome, CancelOutcome, EnqueueResult, Error, FailWith, JobAttempt, JobPage, JobRecord,
    JobStatus, KvPage, LeaseHandle, NackOutcome, PermanentFailure, QueueCore, QueueMergeOperator, QueueStats, UnixTime,
    WaitOutcome, WakeOutcome, Worker, WorkerError, MAX_KV_VALUE_SIZE, PRIORITY_HIGH, PRIORITY_LOW, PRIORITY_NORMAL,
};

/// A value of the store.
#[derive(Clone)]
enum Val {
    Record(JobRecord),
    Bytes(Vec<u8>),
    History(Vec<JobAttempt>),
    Cursor(Rc<PersistedCursor>),
}

#[derive(Default)]
struct StoreData {
    rows: BTreeMap<Vec<u8>, Val>,
    objects: BTreeMap<String, Vec<u8>>,
}

type Store = Rc<RefCell<StoreData>>;

fn make_store() -> Store {
    Rc::new(RefCell::new(StoreData::default()))
}

fn object_count(store: &Store, prefix: &str) -> usize {
    let lead = format!("{prefix}/");
    store.borrow().objects.keys().filter(|k| k.starts_with(&lead)).count()
}

#[derive(Clone, Debug)]
struct MockClock(Rc<Cell<u64>>);

impl MockClock {
    fn new(ms: u64) -> Self {
        Self(Rc::new(Cell::new(ms)))
    }

    fn advance(&self, by: Duration) {
        self.0.set(self.0.get() + by.as_millis() as u64);
    }

    fn now_ms(&self) -> u64 {
        self.0.get()
    }
}

fn span(d: Duration) -> taquba::Duration {
    taquba::Duration::from_nanos(d.as_nanos()).unwrap()
}

fn backoff_delay(attempts: u32, base: Duration, max: Duration) -> Duration {
    std_span(taquba::options::backoff_delay(attempts, span(base), span(max)))
}

#[derive(Clone, Debug)]
struct QueueConfig {
    max_attempts: u32,
    lease_duration: Duration,
    default_priority: u32,
    retry_backoff_base: Duration,
    retry_backoff_max: Duration,
    keep_done_jobs: Option<Duration>,
    dead_retention: Option<Duration>,
}

fn std_span(d: taquba::Duration) -> Duration {
    let nanos = d.as_nanos();
    Duration::new((nanos / 1_000_000_000) as u64, (nanos % 1_000_000_000) as u32)
}

impl Default for QueueConfig {
    fn default() -> Self {
        let c = taquba::QueueConfig::default();
        Self {
            max_attempts: c.max_attempts,
            lease_duration: std_span(c.lease_duration),
            default_priority: c.default_priority,
            retry_backoff_base: std_span(c.retry_backoff_base),
            retry_backoff_max: std_span(c.retry_backoff_max),
            keep_done_jobs: c.keep_done_jobs.map(std_span),
            dead_retention: c.dead_retention.map(std_span),
        }
    }
}

impl QueueConfig {
    fn config(&self) -> taquba::QueueConfig {
        taquba::QueueConfig {
            max_attempts: self.max_attempts,
            lease_duration: span(self.lease_duration),
            default_priority: self.default_priority,
            retry_backoff_base: span(self.retry_backoff_base),
            retry_backoff_max: span(self.retry_backoff_max),
            keep_done_jobs: self.keep_done_jobs.map(span),
            dead_retention: self.dead_retention.map(span),
        }
    }
}

#[derive(Clone)]
struct OpenOptions {
    reaper_interval: Duration,
    default_queue_config: QueueConfig,
    queue_configs: HashMap<String, QueueConfig>,
    clock: Arc<MockClock>,
    payload_offload_threshold: Option<usize>,
    payload_path: Option<String>,
}

impl Default for OpenOptions {
    fn default() -> Self {
        let now = SystemTime::now().duration_since(SystemTime::UNIX_EPOCH).unwrap();
        Self {
            reaper_interval: Duration::from_secs(5),
            default_queue_config: QueueConfig::default(),
            queue_configs: HashMap::new(),
            clock: Arc::new(MockClock::new(now.as_millis() as u64)),
            payload_offload_threshold: Some(taquba::DEFAULT_PAYLOAD_OFFLOAD_THRESHOLD),
            payload_path: None,
        }
    }
}

#[derive(Clone, Debug, Default)]
struct EnqueueOptions {
    max_attempts: Option<u32>,
    priority: Option<u32>,
    run_at: Option<SystemTime>,
    dedup_key: Option<String>,
    headers: HashMap<String, String>,
    id_override: Option<String>,
}

impl EnqueueOptions {
    fn options(self) -> taquba::EnqueueOptions {
        let mut headers: Vec<(String, String)> = self.headers.into_iter().collect();
        headers.sort();
        taquba::EnqueueOptions {
            max_attempts: self.max_attempts,
            priority: self.priority,
            run_at: self.run_at.map(|t| match t.duration_since(SystemTime::UNIX_EPOCH) {
                Ok(d) => UnixTime::SinceEpoch(span(d)),
                Err(_) => UnixTime::BeforeEpoch,
            }),
            dedup_key: self.dedup_key,
            headers,
            id_override: self.id_override,
        }
    }
}

#[derive(Clone, Debug)]
struct EnqueueRequest {
    queue: String,
    payload: Vec<u8>,
    options: EnqueueOptions,
}

#[derive(Clone, Debug, Default)]
struct SettlementEffects {
    enqueues: Vec<EnqueueRequest>,
    kv_writes: HashMap<Vec<u8>, Vec<u8>>,
    kv_deletes: Vec<Vec<u8>>,
}

impl From<SettlementEffects> for taquba::SettlementEffects {
    fn from(effects: SettlementEffects) -> Self {
        Self {
            enqueues: effects
                .enqueues
                .into_iter()
                .map(|r| taquba::EnqueueRequest {
                    queue: r.queue,
                    payload: r.payload,
                    options: r.options.options(),
                })
                .collect(),
            kv_writes: effects.kv_writes.into_iter().collect(),
            kv_deletes: effects.kv_deletes,
        }
    }
}

/// A cancellation token that a claim holds.
#[derive(Clone, Debug)]
struct CancelToken(Rc<Cell<bool>>);

impl CancelToken {
    fn is_cancelled(&self) -> bool {
        self.0.get()
    }
}

#[derive(Debug)]
struct Claim {
    inner: taquba::Claim,
    cancel: CancelToken,
}

impl Claim {
    fn job(&self) -> &JobRecord {
        self.inner.job()
    }

    fn token(&self) -> u64 {
        self.inner.token()
    }

    fn cancel_token(&self) -> &CancelToken {
        &self.cancel
    }

    fn into_job(self) -> JobRecord {
        self.inner.job
    }
}

impl Deref for Claim {
    type Target = JobRecord;

    fn deref(&self) -> &JobRecord {
        self.inner.job()
    }
}

struct Queue {
    core: RefCell<QueueCore>,
    store: Store,
    payload_path: String,
    clock: Arc<MockClock>,
    tokens: RefCell<HashMap<u64, CancelToken>>,
    outcomes: RefCell<Vec<(String, WaitOutcome)>>,
}

/// The handle a worker extends its lease with.
struct Lease<'a> {
    queue: &'a Queue,
    handle: LeaseHandle,
    cancel: CancelToken,
}

impl Lease<'_> {
    fn ensure_at_least(&self, d: Duration) -> Result<(), Error> {
        let now = self.queue.now_ms();
        self.handle
            .ensure_at_least(
                &mut self.queue.state_mut().lease_registry,
                self.cancel.is_cancelled(),
                now,
                span(d),
            )
            .map(|_| ())
    }
}

fn in_bounds(suffix: &[u8], start: &KeyBound, end: &KeyBound) -> bool {
    let past = match start {
        KeyBound::Unbounded => true,
        KeyBound::Included(b) => suffix >= b.as_slice(),
        KeyBound::Excluded(b) => suffix > b.as_slice(),
    };
    let short = match end {
        KeyBound::Unbounded => true,
        KeyBound::Included(b) => suffix <= b.as_slice(),
        KeyBound::Excluded(b) => suffix < b.as_slice(),
    };
    past && short
}

impl Queue {
    fn open(store: Store, path: &str) -> Result<Self, Error> {
        Self::open_with_options(store, path, OpenOptions::default())
    }

    fn open_with_options(store: Store, path: &str, opts: OpenOptions) -> Result<Self, Error> {
        let core = QueueCore::new(
            opts.default_queue_config.config(),
            opts.queue_configs.iter().map(|(k, v)| (k.clone(), v.config())).collect(),
            opts.payload_offload_threshold,
        );
        let q = Self {
            core: RefCell::new(core),
            store,
            payload_path: opts.payload_path.unwrap_or_else(|| format!("{path}-payloads")),
            clock: opts.clock,
            tokens: RefCell::new(HashMap::new()),
            outcomes: RefCell::new(Vec::new()),
        };
        let kept = q.scan(&tag_prefix(KeyTag::Cursor), &KeyBound::Unbounded, &KeyBound::Unbounded);
        for (key, value) in kept {
            if let Val::Cursor(record) = value {
                let record = PersistedCursor {
                    queue: record.queue.clone(),
                    bound_key: record.bound_key.clone(),
                    bound_inclusive: record.bound_inclusive,
                    known_empty: record.known_empty,
                };
                restore_cursor(&mut q.state_mut().claim_cursor, record);
            }
            q.store.borrow_mut().rows.remove(&key);
        }
        let held = q.scan(&tag_prefix(KeyTag::Claimed), &KeyBound::Unbounded, &KeyBound::Unbounded);
        for (_, value) in held {
            if let Val::Record(job) = value {
                let plan = requeue_interrupted_txn(&job, q.now_ms());
                q.apply(plan.ops);
                if let Some(key) = &plan.value.pending_key {
                    q.state_mut().note_pending(key);
                }
            }
        }
        Ok(q)
    }

    fn close(self) -> Result<(), Error> {
        let states = self.state().claim_cursor.export();
        for (queue, state) in states {
            let key = cursor_key(&queue);
            let record = Val::Cursor(Rc::new(persist_cursor(queue, state)));
            self.store.borrow_mut().rows.insert(key, record);
        }
        Ok(())
    }

    fn state(&self) -> Ref<'_, QueueCore> {
        self.core.borrow()
    }

    fn state_mut(&self) -> RefMut<'_, QueueCore> {
        self.core.borrow_mut()
    }

    fn view(&self) -> View<'_> {
        View(self)
    }

    fn now_ms(&self) -> u64 {
        self.clock.now_ms()
    }

    fn clock(&self) -> Arc<MockClock> {
        self.clock.clone()
    }

    fn scan(&self, prefix: &[u8], start: &KeyBound, end: &KeyBound) -> Vec<(Vec<u8>, Val)> {
        self.store
            .borrow()
            .rows
            .range(prefix.to_vec()..)
            .take_while(|(k, _)| k.starts_with(prefix))
            .filter(|(k, _)| in_bounds(&k[prefix.len()..], start, end))
            .map(|(k, v)| (k.clone(), v.clone()))
            .collect()
    }

    fn get(&self, key: &[u8]) -> Option<Val> {
        self.store.borrow().rows.get(key).cloned()
    }

    fn bytes(&self, key: &[u8]) -> Option<Vec<u8>> {
        match self.get(key) {
            Some(Val::Bytes(b)) => Some(b),
            _ => None,
        }
    }

    fn apply(&self, ops: Vec<Op>) {
        let mut store = self.store.borrow_mut();
        for op in ops {
            let key = op.target();
            match op {
                Op::PutRecord { record, .. } => {
                    store.rows.insert(key, Val::Record(record));
                }
                Op::PutIndex { key: place, .. } => {
                    store.rows.insert(key, Val::Bytes(place.encode()));
                }
                Op::PutDedup { id, .. } => {
                    store.rows.insert(key, Val::Bytes(id.into_bytes()));
                }
                Op::AddStat { delta, .. } => {
                    let existing = match store.rows.get(&key) {
                        Some(Val::Bytes(b)) => Some(b.clone()),
                        _ => None,
                    };
                    let total = QueueMergeOperator
                        .merge(&key, existing.as_deref(), counter_bytes(delta))
                        .unwrap();
                    store.rows.insert(key, Val::Bytes(total));
                }
                Op::AppendAttempt { attempt, .. } => {
                    let mut list = match store.rows.remove(&key) {
                        Some(Val::History(list)) => list,
                        _ => Vec::new(),
                    };
                    list.push(attempt);
                    store.rows.insert(key, Val::History(list));
                }
                Op::PutKv { value, .. } => {
                    store.rows.insert(key, Val::Bytes(value));
                }
                Op::DeleteRecord { .. }
                | Op::DeleteIndex { .. }
                | Op::DeleteDedup { .. }
                | Op::DeleteHistory { .. }
                | Op::DeleteKv { .. } => {
                    store.rows.remove(&key);
                }
            }
        }
    }

    fn load(&self, reads: &mut Reads, need: Need) -> Result<(), Error> {
        let found = self.get(&need.key());
        match need {
            Need::Location { id } => {
                let place = match found {
                    Some(Val::Bytes(b)) => Some(RecordKey::decode(&b).ok_or(Error::InvalidState)?),
                    _ => None,
                };
                reads.learn_location(id, place);
            }
            Need::Record { key } => {
                let job = match found {
                    Some(Val::Record(job)) => Some(job),
                    Some(_) => return Err(Error::InvalidState),
                    None => None,
                };
                reads.learn_record(key, job);
            }
            Need::Dedup { queue, dedup_key } => {
                let holder = match found {
                    Some(Val::Bytes(b)) => Some(holder_from_bytes(b)?),
                    _ => None,
                };
                reads.learn_dedup(queue, dedup_key, holder);
            }
            Need::Kv { kv_key } => {
                let value = match found {
                    Some(Val::Bytes(b)) => Some(b),
                    _ => None,
                };
                reads.learn_kv(kv_key, value);
            }
        }
        Ok(())
    }

    /// Decides a transition, reading what it asks for, and commits it.
    fn run<T>(
        &self,
        decide: impl Fn(&QueueCore, &Reads) -> Result<Plan<T>, Stop>,
    ) -> Result<T, Error> {
        let mut reads = Reads::new();
        loop {
            let decided = decide(&self.state(), &reads);
            match decided {
                Ok(Plan { ops, value }) => {
                    self.apply(ops);
                    return Ok(value);
                }
                Err(Stop::Need(need)) => self.load(&mut reads, need)?,
                Err(Stop::Fail(e)) => return Err(e),
            }
        }
    }

    fn object_path(&self, name: &str) -> String {
        format!("{}/{name}", self.payload_path)
    }

    fn offload(&self, job: &mut JobRecord) {
        let threshold = self.state().payload_offload_threshold;
        if let Some(object) = offload(job, threshold, self.now_ms()) {
            self.store
                .borrow_mut()
                .objects
                .insert(self.object_path(&object.name), object.bytes);
        }
    }

    fn fetch(&self, job: &JobRecord) -> Option<Vec<u8>> {
        let name = job.payload_ref.as_ref()?;
        self.store.borrow().objects.get(&self.object_path(name)).cloned()
    }

    fn delete_object(&self, name: Option<String>) {
        if let Some(name) = name {
            self.store.borrow_mut().objects.remove(&self.object_path(&name));
        }
    }

    fn settle_waiters(&self, id: &str, outcome: WaitOutcome) {
        self.outcomes.borrow_mut().push((id.to_string(), outcome));
    }

    /// The outcome delivered to those who wait for a job.
    fn delivered(&self, id: &str) -> Option<WaitOutcome> {
        let mut outcomes = self.outcomes.borrow_mut();
        let at = outcomes.iter().position(|(job, _)| job == id)?;
        Some(outcomes.remove(at).1)
    }

    fn prepare(
        &self,
        queue: &str,
        payload: Vec<u8>,
        opts: EnqueueOptions,
    ) -> Result<PreparedJob, Error> {
        let now = self.now_ms();
        let mut core = self.state_mut();
        let core = &mut *core;
        prepare_job_record(&core.configs, &mut core.ids, queue, payload, opts.options(), now)
    }

    fn next_job_id(&self) -> String {
        let now = self.now_ms();
        self.state_mut().ids.next_job_id(now)
    }

    fn enqueue(&self, queue: &str, payload: Vec<u8>) -> Result<String, Error> {
        self.enqueue_with(queue, payload, EnqueueOptions::default())
    }

    fn enqueue_with(
        &self,
        queue: &str,
        payload: Vec<u8>,
        opts: EnqueueOptions,
    ) -> Result<String, Error> {
        self.enqueue_with_kv(queue, payload, opts, HashMap::new())
            .map(EnqueueResult::into_id)
    }

    fn enqueue_with_kv(
        &self,
        queue: &str,
        payload: Vec<u8>,
        opts: EnqueueOptions,
        kv_writes: HashMap<Vec<u8>, Vec<u8>>,
    ) -> Result<EnqueueResult, Error> {
        for value in kv_writes.values() {
            validate_kv_value_size(value)?;
        }
        let mut prepared = self.prepare(queue, payload, opts)?;
        self.offload(&mut prepared.job);
        let writes: Vec<(Vec<u8>, Vec<u8>)> = kv_writes.into_iter().collect();
        let result = self.run(|_, reads| write_job_txn(reads, &prepared, &writes));
        self.delete_object(unreferenced_after_write(&prepared.job, result.as_ref().ok()));
        let result = result?;
        self.state_mut().note_enqueued(&vec![prepared], &vec![result.clone()]);
        Ok(result)
    }

    fn enqueue_batch(&self, queue: &str, payloads: Vec<Vec<u8>>) -> Result<Vec<String>, Error> {
        let now = self.now_ms();
        let mut jobs = {
            let mut core = self.state_mut();
            let core = &mut *core;
            prepare_batch(&core.configs, &mut core.ids, queue, &payloads, now)?
        };
        for prepared in &mut jobs {
            self.offload(&mut prepared.job);
        }
        let results = self.run(|_, reads| enqueue_batch_txn(reads, &jobs))?.results;
        self.state_mut().note_enqueued(&jobs, &results);
        Ok(results.into_iter().map(EnqueueResult::into_id).collect())
    }

    fn prepare_effects(
        &self,
        effects: impl Into<taquba::SettlementEffects>,
    ) -> Result<PreparedEffects, Error> {
        let now = self.now_ms();
        let mut prepared = {
            let mut core = self.state_mut();
            let core = &mut *core;
            prepare_effects(&core.configs, &mut core.ids, effects.into(), now)?
        };
        for job in &mut prepared.jobs {
            self.offload(&mut job.job);
        }
        Ok(prepared)
    }

    fn release_effects(&self, prepared: &PreparedEffects, results: Option<&Vec<EnqueueResult>>) {
        for name in finish_effects(&prepared.jobs, results) {
            self.delete_object(Some(name));
        }
        if let Some(results) = results {
            self.state_mut().note_enqueued(&prepared.jobs, results);
        }
    }

    fn queue_config(&self, queue: &str) -> taquba::QueueConfig {
        *self.state().queue_config(queue)
    }

    fn claim_next(&self, queue: &str) -> Result<Option<Claim>, Error> {
        let lease = std_span(self.state().queue_lease_duration(queue));
        self.claim(queue, lease)
    }

    fn claim(&self, queue: &str, lease: Duration) -> Result<Option<Claim>, Error> {
        Ok(self.claim_batch(queue, 1, lease)?.pop())
    }

    /// Claims a job, waiting for one for at most `max_wait`. What happens while
    /// it waits is up to `wait`, which is told how long it may take.
    fn claim_with_wait(
        &self,
        queue: &str,
        lease: Duration,
        max_wait: Duration,
        wait: impl Fn(Duration),
    ) -> Result<Option<Claim>, Error> {
        let begun = self.now_ms();
        loop {
            let claim = self.claim(queue, lease)?;
            let elapsed = Duration::from_millis(self.now_ms() - begun);
            match claim_wait_step(claim.is_some(), span(elapsed), span(max_wait)) {
                ClaimWait::Deliver => return Ok(claim),
                ClaimWait::GiveUp => return Ok(None),
                ClaimWait::WaitFor(left) => wait(std_span(left)),
            }
        }
    }

    fn claim_batch(
        &self,
        queue: &str,
        max_jobs: usize,
        lease: Duration,
    ) -> Result<Vec<Claim>, Error> {
        let Some(start) = self.state().claim_batch_begin(queue, max_jobs)? else {
            return Ok(Vec::new());
        };
        let mut rows = ClaimRows::new(max_jobs);
        let found = self.scan(&start.prefix, &start.start, &KeyBound::Unbounded);
        let mut found = found.into_iter();
        while !rows.is_complete() {
            let next = match found.next() {
                Some((key, Val::Record(job))) => {
                    Some(ClaimRow { key: RecordKey::decode(&key).unwrap(), job })
                }
                Some(_) => return Err(Error::InvalidState),
                None => None,
            };
            rows = rows.take(next);
        }
        let taken = rows.finish();
        let now = self.now_ms();
        let commit =
            self.state_mut().claim_batch_locked(queue, &start.scan, &taken, span(lease), now);
        let Some(commit) = commit else {
            return Ok(Vec::new());
        };
        self.apply(commit.plan.ops);
        self.state_mut().claim_committed(
            queue,
            &start.scan,
            &commit.last_key,
            commit.drained,
        );
        let mut claims = Vec::new();
        for claim in commit.plan.value {
            let cancel = CancelToken(Rc::new(Cell::new(claim.job.cancel_requested)));
            self.tokens.borrow_mut().insert(claim.token, cancel.clone());
            let fetched = self.fetch(&claim.job);
            let job = materialize(claim.job, fetched)?;
            claims.push(Claim { inner: taquba::Claim { job, token: claim.token }, cancel });
        }
        Ok(claims)
    }

    fn ack(&self, claim: &Claim) -> Result<(), Error> {
        self.ack_with(claim, SettlementEffects::default()).map(|_| ())
    }

    fn ack_with(
        &self,
        claim: &Claim,
        effects: impl Into<taquba::SettlementEffects>,
    ) -> Result<Vec<EnqueueResult>, Error> {
        let prepared = self.prepare_effects(effects)?;
        let keep = self.state().queue_keep_done_jobs(&claim.queue).is_some();
        let now = self.now_ms();
        let settled = self.run(|core, reads| {
            ack_txn(
                reads,
                &core.lease_registry,
                &claim.queue,
                &claim.id,
                claim.token(),
                now,
                keep,
                &prepared,
            )
        });
        let settled = self.finish(claim, &prepared, keep, settled)?;
        Ok(settled.results.unwrap())
    }

    fn nack(&self, claim: &Claim, error: &str) -> Result<(), Error> {
        self.nack_with(claim, error, SettlementEffects::default()).map(|_| ())
    }

    fn nack_with(
        &self,
        claim: &Claim,
        error: &str,
        effects: impl Into<taquba::SettlementEffects>,
    ) -> Result<NackOutcome, Error> {
        let prepared = self.prepare_effects(effects)?;
        let now = self.now_ms();
        let settled = self.run(|core, reads| {
            // A retry time that does not fit is refused before anything is done.
            let fits = check_nack_fits(
                reads,
                &core.lease_registry,
                &core.configs,
                &claim.queue,
                &claim.id,
                claim.token(),
                now,
            );
            if !fits {
                return Err(Stop::Fail(Error::InvalidState));
            }
            nack_txn(
                reads,
                &core.lease_registry,
                &core.configs,
                &claim.queue,
                &claim.id,
                claim.token(),
                error,
                now,
                &prepared,
            )
        });
        let settled = self.finish(claim, &prepared, true, settled)?;
        Ok(nack_outcome(settled.results))
    }

    fn dead_letter(&self, claim: &Claim, reason: &str) -> Result<(), Error> {
        self.dead_letter_with(claim, reason, SettlementEffects::default()).map(|_| ())
    }

    fn dead_letter_with(
        &self,
        claim: &Claim,
        reason: &str,
        effects: impl Into<taquba::SettlementEffects>,
    ) -> Result<Vec<EnqueueResult>, Error> {
        let prepared = self.prepare_effects(effects)?;
        let now = self.now_ms();
        let settled = self.run(|core, reads| {
            dead_letter_txn(
                reads,
                &core.lease_registry,
                &claim.queue,
                &claim.id,
                claim.token(),
                now,
                reason,
                &prepared,
            )
        });
        let settled = self.finish(claim, &prepared, true, settled)?;
        Ok(settled.results.unwrap())
    }

    fn finish(
        &self,
        claim: &Claim,
        prepared: &PreparedEffects,
        keep: bool,
        settled: Result<Settled, Error>,
    ) -> Result<Settled, Error> {
        let results = match &settled {
            Ok(s) => s.results.as_ref(),
            Err(_) => None,
        };
        self.release_effects(prepared, results);
        let settled = settled?;
        let finish = self.state_mut().finish_claim_end(
            &settled.job,
            keep,
            claim.token(),
            &settled.pending_key,
        );
        self.delete_object(finish.delete_payload);
        if finish.terminal {
            let delivered = taquba::job::delivered_record(&settled.job, &claim.inner);
            let outcome = taquba::queue_core::terminal_outcome(delivered);
            self.settle_waiters(&settled.job.id, outcome);
        }
        Ok(settled)
    }

    fn cancel(&self, id: &str) -> Result<CancelOutcome, Error> {
        self.cancel_with(id, SettlementEffects::default()).map(|(outcome, _)| outcome)
    }

    fn cancel_with(
        &self,
        id: &str,
        effects: impl Into<taquba::SettlementEffects>,
    ) -> Result<(CancelOutcome, Vec<EnqueueResult>), Error> {
        let prepared = self.prepare_effects(effects)?;
        let cancelled = self.run(|_, reads| cancel_txn(reads, id, &prepared));
        let removed = match &cancelled {
            Ok(c) if c.outcome == CancelOutcome::Removed => Some(&c.results),
            _ => None,
        };
        self.release_effects(&prepared, removed);
        let cancelled = cancelled?;
        let finish = self.state_mut().finish_cancel(id, &cancelled);
        if let Some(token) = finish.fire {
            if let Some(cancel) = self.tokens.borrow().get(&token) {
                cancel.0.set(true);
            }
        }
        self.delete_object(finish.delete_payload);
        if let Some(outcome) = finish.outcome {
            self.settle_waiters(id, outcome);
        }
        Ok((cancelled.outcome, cancelled.results))
    }

    fn wake_scheduled(
        &self,
        id: &str,
        wake_payload: Option<Vec<u8>>,
    ) -> Result<WakeOutcome, Error> {
        let now = self.now_ms();
        let woken = self.run(|_, reads| wake_scheduled_txn(reads, id, &wake_payload, now))?;
        if let Some((_, key)) = &woken.moved {
            self.state_mut().note_pending(key);
        }
        Ok(woken.outcome)
    }

    fn requeue_dead_job(&self, job: JobRecord) -> Result<(), Error> {
        let now = self.now_ms();
        let key = self.run(|_, reads| requeue_dead_job_txn(reads, &job, now))?;
        self.state_mut().note_pending(&key);
        Ok(())
    }

    fn renew_lease(&self, claim: &Claim, extension: Duration) -> Result<u64, Error> {
        let now = self.now_ms();
        self.state_mut().renew_lease(
            &claim.queue,
            &claim.id,
            claim.token(),
            claim.cancel_token().is_cancelled(),
            now,
            span(extension),
        )
    }

    fn lease_expiry(&self, queue: &str, id: &str) -> Option<u64> {
        self.state().lease_expiry(queue, id)
    }

    fn lease_handle<'a>(&'a self, claim: &Claim) -> Lease<'a> {
        Lease {
            queue: self,
            handle: LeaseHandle {
                queue: claim.queue.clone(),
                id: claim.id.clone(),
                token: claim.token(),
            },
            cancel: claim.cancel.clone(),
        }
    }

    fn reap_now(&self) -> Result<(), Error> {
        let now = self.now_ms();
        let due = self.state_mut().lease_registry.take_due(now);
        for lease in due {
            let reaped = self.run(|core, reads| {
                reap_txn(reads, &core.lease_registry, &lease.queue, &lease.id, lease.token, now)
            });
            match reaped {
                Ok(Reaped::Superseded) => {}
                Ok(Reaped::Orphaned) => {
                    self.state_mut().lease_registry.remove(&lease.queue, &lease.id, lease.token)
                }
                Ok(Reaped::Ended(settled)) => {
                    let finish = self.state_mut().finish_claim_end(
                        &settled.job,
                        true,
                        lease.token,
                        &settled.pending_key,
                    );
                    if finish.terminal {
                        let fetched = self.fetch(&settled.job);
                        let job = materialize(settled.job, fetched)?;
                        let id = job.id.clone();
                        let outcome = taquba::queue_core::terminal_outcome(job);
                        self.settle_waiters(&id, outcome);
                    }
                }
                Err(_) => {}
            }
        }
        Ok(())
    }

    fn sweep(&self, status: JobStatus) -> Result<(), Error> {
        let now = self.now_ms();
        let Some(mut sweep) = Sweep::begin(&self.state().configs, status, now)? else {
            return Ok(());
        };
        let rows =
            self.scan(&tag_prefix(sweep.tag()), &KeyBound::Unbounded, &KeyBound::Unbounded);
        for (key, value) in rows {
            let row = match (RecordKey::decode(&key), value) {
                (Some(place), Val::Record(job)) => Some((place, job)),
                _ => None,
            };
            if !sweep.visit(&self.state().configs, &key, row) {
                break;
            }
        }
        for victim in sweep.into_victims() {
            if self.run(|_, reads| sweep_victim_txn(reads, &victim))? {
                self.delete_object(victim.payload_ref.clone());
            }
        }
        Ok(())
    }

    /// One pass of the background tasks.
    fn tick(&self) {
        self.reap_now().unwrap();
        self.sweep(JobStatus::Done).unwrap();
        self.sweep(JobStatus::Dead).unwrap();
        self.promote_scheduled_now().unwrap();
    }

    fn promote_scheduled_now(&self) -> Result<(), Error> {
        let now = self.now_ms();
        let pass = Promotion::begin(&mut self.state_mut().scheduled_bound, now);
        let Some(mut pass) = pass else {
            return Ok(());
        };
        let rows =
            self.scan(&tag_prefix(KeyTag::Scheduled), &pass.start(), &KeyBound::Unbounded);
        for (key, _) in rows {
            if !pass.visit(&key) {
                break;
            }
        }
        let (due, scan) = pass.into_due();
        for key in due {
            let place = RecordKey::decode(&key).unwrap();
            let promoted = self.run(|_, reads| promote_txn(reads, &place))?;
            if let Some((_, pending)) = &promoted.moved {
                self.state_mut().note_pending(pending);
            }
        }
        scan.complete(&mut self.state_mut().scheduled_bound);
        Ok(())
    }

    fn stats(&self, queue: &str) -> Result<QueueStats, Error> {
        validate_queue_name(queue)?;
        let read = |status| self.bytes(&stats_key(queue, status));
        queue_stats(
            queue,
            &RawCounters {
                pending: read(JobStatus::Pending),
                claimed: read(JobStatus::Claimed),
                done: read(JobStatus::Done),
                dead: read(JobStatus::Dead),
                scheduled: read(JobStatus::Scheduled),
            },
        )
    }

    fn list_queues(&self) -> Result<Vec<String>, Error> {
        let keys = self
            .scan(&tag_prefix(KeyTag::Stats), &KeyBound::Unbounded, &KeyBound::Unbounded)
            .into_iter()
            .map(|(k, _)| k)
            .collect();
        Ok(list_queues(&keys))
    }

    fn list_stored(
        &self,
        queue: &str,
        status: JobStatus,
        cursor: Option<&[u8]>,
        limit: usize,
    ) -> Result<JobPage, Error> {
        let Some(range) = list_jobs_range(queue, status, cursor, limit)? else {
            return Ok(JobPage { jobs: Vec::new(), next_cursor: None });
        };
        let filter = if range.filter_queue { Some(queue.to_string()) } else { None };
        let mut pager = JobPager::new(filter, limit);
        for (key, value) in self.scan(&range.prefix, &range.start, &KeyBound::Unbounded) {
            let Val::Record(job) = value else {
                return Err(Error::InvalidState);
            };
            let (next, more) = pager.push(&key, job);
            pager = next;
            if !more {
                break;
            }
        }
        Ok(pager.finish())
    }

    fn list_jobs(
        &self,
        queue: &str,
        status: JobStatus,
        cursor: Option<&[u8]>,
        limit: usize,
    ) -> Result<JobPage, Error> {
        let page = self.list_stored(queue, status, cursor, limit)?;
        let mut jobs = Vec::new();
        for job in page.jobs {
            let fetched = self.fetch(&job);
            jobs.push(materialize(job, fetched)?);
        }
        Ok(JobPage { jobs, next_cursor: page.next_cursor })
    }

    fn dead_jobs(
        &self,
        queue: &str,
        after: Option<&str>,
        limit: usize,
    ) -> Result<Vec<JobRecord>, Error> {
        let cursor = dead_jobs_cursor(queue, after)?;
        Ok(self.list_jobs(queue, JobStatus::Dead, cursor.as_deref(), limit)?.jobs)
    }

    fn get_job(&self, id: &str) -> Result<Option<JobRecord>, Error> {
        let mut reads = Reads::new();
        let found = loop {
            match find_job(&reads, id) {
                Ok(found) => break found,
                Err(Stop::Need(need)) => self.load(&mut reads, need)?,
                Err(Stop::Fail(e)) => return Err(e),
            }
        };
        let Some(job) = found else {
            return Ok(None);
        };
        let fetched = self.fetch(&job);
        let indexed = self.get(&job_index_key(id)).is_some();
        looked_up(materialize(job, fetched), indexed)
    }

    fn attempt_history(&self, id: &str) -> Result<Vec<JobAttempt>, Error> {
        match self.get(&attempt_history_key(id)) {
            Some(Val::History(list)) => Ok(list),
            _ => Ok(Vec::new()),
        }
    }

    fn wait_for_completion(&self, id: &str, _timeout: Duration) -> Result<WaitOutcome, Error> {
        Ok(match wait_start(self.get_job(id)?) {
            WaitStart::Known(outcome) => outcome,
            WaitStart::Absent => absent_outcome(None),
            WaitStart::Pending => waited_outcome(None),
        })
    }

    fn kv_get(&self, key: &[u8]) -> Result<Option<Bytes>, Error> {
        Ok(self.bytes(&user_scoped_key(key)).map(Bytes::from))
    }

    fn kv_put(&self, key: &[u8], value: &[u8]) -> Result<(), Error> {
        validate_kv_value_size(value)?;
        self.store
            .borrow_mut()
            .rows
            .insert(user_scoped_key(key), Val::Bytes(value.to_vec()));
        Ok(())
    }

    fn kv_delete(&self, key: &[u8]) -> Result<(), Error> {
        self.store.borrow_mut().rows.remove(&user_scoped_key(key));
        Ok(())
    }

    fn kv_compare_delete(&self, key: &[u8], expected: &[u8]) -> Result<bool, Error> {
        self.run(|_, reads| kv_compare_delete_txn(reads, key, expected))
    }

    fn kv_compare_put(
        &self,
        key: &[u8],
        expected: Option<&[u8]>,
        value: &[u8],
    ) -> Result<bool, Error> {
        self.run(|_, reads| kv_compare_put_txn(reads, key, expected, value))
    }

    fn kv_range(
        &self,
        prefix: &[u8],
        start: KeyBound,
        end: KeyBound,
        limit: usize,
    ) -> Result<KvPage, Error> {
        let Some((scoped, from, to)) = kv_scan_range(prefix, &start, &end, limit) else {
            return Ok(KvPage { entries: Vec::new(), more: false, next_cursor: None });
        };
        let mut pager = KvPager::new(limit);
        for (key, value) in self.scan(&scoped, &from, &to) {
            let Val::Bytes(value) = value else {
                return Err(Error::InvalidState);
            };
            let (next, more) = pager.push(&key, value);
            pager = next;
            if !more {
                break;
            }
        }
        Ok(pager.finish())
    }

    fn kv_scan(
        &self,
        prefix: &[u8],
        cursor: Option<&[u8]>,
        limit: usize,
    ) -> Result<KvPage, Error> {
        let start = match cursor {
            Some(c) => KeyBound::Excluded(c.to_vec()),
            None => KeyBound::Unbounded,
        };
        self.kv_range(prefix, start, KeyBound::Unbounded, limit)
    }
}

/// Runs a worker until `done`, as the loop of a worker process does.
fn run_worker<W: Worker>(q: &Queue, queue: &str, worker: &W, done: impl Fn() -> bool) {
    let mut event = WorkerEvent::Started;
    let mut claim = None;
    loop {
        event = match worker_step(event) {
            WorkerAction::Claim => {
                claim = q.claim_next(queue).unwrap();
                if claim.is_some() {
                    WorkerEvent::Claimed
                } else {
                    WorkerEvent::Empty
                }
            }
            WorkerAction::Process => {
                process_and_settle(q, worker, &claim.take().unwrap());
                WorkerEvent::Settled { shutdown: done() }
            }
            WorkerAction::Wait => {
                q.tick();
                WorkerEvent::Waited { shutdown: done() }
            }
            WorkerAction::Stop => return,
        };
    }
}

/// Runs up to `concurrency` jobs at once until `done`; jobs end in the order in
/// which they were claimed.
fn run_worker_concurrent<W: Worker>(
    q: &Queue,
    queue: &str,
    worker: &W,
    concurrency: usize,
    done: impl Fn() -> bool,
) {
    let mut pool = WorkerPool::new(concurrency);
    let mut running: Vec<Claim> = Vec::new();
    loop {
        match pool.next() {
            PoolAction::Claim(free) => {
                let lease = std_span(q.state().queue_lease_duration(queue));
                let claims = q.claim_batch(queue, free, lease).unwrap();
                let started = claims.len();
                running.extend(claims);
                assert!(running.len() <= concurrency);
                pool.claimed(started, done());
            }
            PoolAction::AwaitSlot | PoolAction::Drain => {
                process_and_settle(q, worker, &running.remove(0));
                pool.ended();
            }
            PoolAction::Wait => {
                if !running.is_empty() {
                    process_and_settle(q, worker, &running.remove(0));
                    pool.ended();
                }
                pool.waited(done());
            }
            PoolAction::Finished => return,
        }
    }
}

/// Has a worker process a claim and settles it. A settlement that fails
/// concerns the one job only.
fn process_and_settle<W: Worker>(q: &Queue, worker: &W, claim: &Claim) {
    let handle = q.lease_handle(claim).handle;
    let _ = match process(worker, claim.job(), &handle) {
        Settlement::Ack(effects) => q.ack_with(claim, effects).map(|_| ()),
        Settlement::DeadLetter { reason, effects } => {
            q.dead_letter_with(claim, &reason, effects).map(|_| ())
        }
        Settlement::Nack { reason, effects } => {
            q.nack_with(claim, &reason, effects).map(|_| ())
        }
    };
}

/// The read-only side of a queue, which lists records as they are stored.
struct View<'a>(&'a Queue);

impl View<'_> {
    fn stats(&self, queue: &str) -> Result<QueueStats, Error> {
        self.0.stats(queue)
    }

    fn list_queues(&self) -> Result<Vec<String>, Error> {
        self.0.list_queues()
    }

    fn list_jobs(
        &self,
        queue: &str,
        status: JobStatus,
        cursor: Option<&[u8]>,
        limit: usize,
    ) -> Result<JobPage, Error> {
        self.0.list_stored(queue, status, cursor, limit)
    }

    fn dead_jobs(
        &self,
        queue: &str,
        after: Option<&str>,
        limit: usize,
    ) -> Result<Vec<JobRecord>, Error> {
        let cursor = dead_jobs_cursor(queue, after)?;
        Ok(self.list_jobs(queue, JobStatus::Dead, cursor.as_deref(), limit)?.jobs)
    }

    fn get_job(&self, id: &str) -> Result<Option<JobRecord>, Error> {
        self.0.get_job(id)
    }

    fn attempt_history(&self, id: &str) -> Result<Vec<JobAttempt>, Error> {
        self.0.attempt_history(id)
    }

    fn kv_get(&self, key: &[u8]) -> Result<Option<Bytes>, Error> {
        self.0.kv_get(key)
    }
}

fn no_backoff_opts() -> OpenOptions {
    OpenOptions {
        default_queue_config: QueueConfig {
            retry_backoff_base: Duration::ZERO,
            retry_backoff_max: Duration::ZERO,
            ..QueueConfig::default()
        },
        ..OpenOptions::default()
    }
}

fn offload_opts() -> OpenOptions {
    OpenOptions {
        payload_offload_threshold: Some(64),
        default_queue_config: QueueConfig {
            retry_backoff_base: Duration::ZERO,
            retry_backoff_max: Duration::ZERO,
            ..QueueConfig::default()
        },
        ..OpenOptions::default()
    }
}

fn offloaded_follow_up() -> SettlementEffects {
    SettlementEffects {
        enqueues: vec![EnqueueRequest {
            queue: "notify".to_string(),
            payload: vec![1u8; 256],
            options: EnqueueOptions::default(),
        }],
        ..SettlementEffects::default()
    }
}

#[test]
fn claim_finds_job_enqueued_after_empty_polls() {
    let q = Queue::open(make_store(), "test").unwrap();
    let lease = Duration::from_secs(5);
    assert!(q.claim("work", lease).unwrap().is_none());
    assert!(q.claim("work", lease).unwrap().is_none());

    q.enqueue("work", b"job".to_vec()).unwrap();

    let job = q.claim("work", lease).unwrap().unwrap();
    assert_eq!(job.payload, b"job");
    q.ack(&job).unwrap();
    q.close().unwrap();
}

#[test]
fn claim_finds_batch_enqueued_after_queue_drained() {
    let q = Queue::open(make_store(), "test").unwrap();
    let lease = Duration::from_secs(5);
    q.enqueue("work", b"first".to_vec()).unwrap();
    let first = q.claim("work", lease).unwrap().unwrap();
    q.ack(&first).unwrap();
    assert!(q.claim("work", lease).unwrap().is_none());
    assert!(q.claim("work", lease).unwrap().is_none());

    q.enqueue_batch("work", vec![b"second".to_vec()])
        .unwrap();

    let second = q.claim("work", lease).unwrap().unwrap();
    assert_eq!(second.payload, b"second");
    q.ack(&second).unwrap();
    q.close().unwrap();
}

#[test]
fn claim_batch_claims_in_order_up_to_max() {
    let q = Queue::open(make_store(), "test").unwrap();
    let lease = Duration::from_secs(5);
    for payload in [b"a", b"b", b"c", b"d", b"e"] {
        q.enqueue("work", payload.to_vec()).unwrap();
    }

    let first = q.claim_batch("work", 3, lease).unwrap();
    assert_eq!(
        first
            .iter()
            .map(|j| j.payload.as_slice())
            .collect::<Vec<_>>(),
        [b"a", b"b", b"c"],
    );
    for job in &first {
        assert_eq!(job.status, JobStatus::Claimed);
        assert_eq!(job.attempts, 1);
        assert!(q.lease_expiry("work", &job.id).is_some());
    }

    let rest = q.claim_batch("work", 3, lease).unwrap();
    assert_eq!(
        rest.iter()
            .map(|j| j.payload.as_slice())
            .collect::<Vec<_>>(),
        [b"d", b"e"],
    );

    for job in first.iter().chain(rest.iter()) {
        q.ack(job).unwrap();
    }
    q.close().unwrap();
}

#[test]
fn claim_batch_zero_max_claims_nothing() {
    let q = Queue::open(make_store(), "test").unwrap();
    q.enqueue("work", b"job".to_vec()).unwrap();

    assert!(
        q.claim_batch("work", 0, Duration::from_secs(5))
            .unwrap()
            .is_empty(),
    );

    let job = q
        .claim("work", Duration::from_secs(5))
        .unwrap()
        .unwrap();
    q.ack(&job).unwrap();
    q.close().unwrap();
}

#[test]
fn partial_claim_batch_marks_empty_until_next_enqueue() {
    let q = Queue::open(make_store(), "test").unwrap();
    let lease = Duration::from_secs(5);
    q.enqueue("work", b"only".to_vec()).unwrap();

    let batch = q.claim_batch("work", 8, lease).unwrap();
    assert_eq!(batch.len(), 1);
    assert!(q.claim("work", lease).unwrap().is_none());

    q.enqueue("work", b"next".to_vec()).unwrap();
    let next = q.claim("work", lease).unwrap().unwrap();
    assert_eq!(next.payload, b"next");

    q.ack(&batch[0]).unwrap();
    q.ack(&next).unwrap();
    q.close().unwrap();
}

#[test]
fn claim_finds_job_requeued_by_nack_after_empty_poll() {
    let q = Queue::open_with_options(make_store(), "test", no_backoff_opts())
        .unwrap();
    let lease = Duration::from_secs(5);
    q.enqueue("work", b"job".to_vec()).unwrap();
    let job = q.claim("work", lease).unwrap().unwrap();
    assert!(q.claim("work", lease).unwrap().is_none());

    q.nack(&job, "retry").unwrap();

    let retried = q.claim("work", lease).unwrap().unwrap();
    assert_eq!(retried.payload, b"job");
    assert_eq!(retried.attempts, 2);
    q.ack(&retried).unwrap();
    q.close().unwrap();
}

#[test]
fn clock_accessor_returns_the_configured_clock() {
    let clock = MockClock::new(1_700_000_000_000);
    let opts = OpenOptions {
        clock: Arc::new(clock.clone()),
        ..OpenOptions::default()
    };
    let q = Queue::open_with_options(make_store(), "test", opts)
        .unwrap();

    assert_eq!(q.clock().now_ms(), 1_700_000_000_000);
    clock.advance(Duration::from_secs(60));
    assert_eq!(q.clock().now_ms(), 1_700_000_060_000);

    q.close().unwrap();
}

#[test]
fn test_enqueue_and_claim() {
    let q = Queue::open(make_store(), "test").unwrap();

    let id = q.enqueue("email", b"hello".to_vec()).unwrap();
    let job = q
        .claim("email", Duration::from_secs(30))
        .unwrap()
        .unwrap();

    assert_eq!(job.id, id);
    assert_eq!(job.queue, "email");
    assert_eq!(job.payload, b"hello");
    assert_eq!(job.status, JobStatus::Claimed);
    assert_eq!(job.attempts, 1);
    assert!(job.claimed_at.is_some());
    assert!(q.lease_expiry("email", &job.id).is_some());

    q.close().unwrap();
}

#[test]
fn test_enqueue_with_id_override_uses_supplied_id() {
    let q = Queue::open(make_store(), "test").unwrap();

    let returned = q
        .enqueue_with(
            "email",
            b"hello".to_vec(),
            EnqueueOptions {
                id_override: Some("user-42-welcome".to_string()),
                ..EnqueueOptions::default()
            },
        )
        .unwrap();
    assert_eq!(returned, "user-42-welcome");

    let job = q
        .claim("email", Duration::from_secs(30))
        .unwrap()
        .unwrap();
    assert_eq!(job.id, "user-42-welcome");

    q.close().unwrap();
}

#[test]
fn test_enqueue_with_kv_id_override_uses_supplied_id() {
    let q = Queue::open(make_store(), "test").unwrap();

    let kv = HashMap::from([(b"meta/key".to_vec(), b"value".to_vec())]);
    let outcome = q
        .enqueue_with_kv(
            "email",
            b"hello".to_vec(),
            EnqueueOptions {
                id_override: Some("custom-id-01HXYZ".to_string()),
                ..EnqueueOptions::default()
            },
            kv,
        )
        .unwrap();
    assert_eq!(outcome, EnqueueResult::New("custom-id-01HXYZ".to_string()));

    let job = q.get_job("custom-id-01HXYZ").unwrap().unwrap();
    assert_eq!(job.id, "custom-id-01HXYZ");

    q.close().unwrap();
}

#[test]
fn test_enqueue_with_invalid_id_override_rejected() {
    let q = Queue::open(make_store(), "test").unwrap();

    let bad_ids: &[(&str, &str)] = &[
        ("", "empty"),
        ("has:colon", "delimiter"),
        ("has space", "space"),
        ("has/slash", "slash"),
    ];
    for (bad, label) in bad_ids {
        let err = q
            .enqueue_with(
                "email",
                b"x".to_vec(),
                EnqueueOptions {
                    id_override: Some((*bad).to_string()),
                    ..EnqueueOptions::default()
                },
            )
            .unwrap_err();
        assert!(
            matches!(err, Error::InvalidId { .. }),
            "expected InvalidId for {label} (id={bad:?}), got {err:?}"
        );
    }

    let too_long = "a".repeat(MAX_ID_OVERRIDE_LEN + 1);
    let err = q
        .enqueue_with(
            "email",
            b"x".to_vec(),
            EnqueueOptions {
                id_override: Some(too_long),
                ..EnqueueOptions::default()
            },
        )
        .unwrap_err();
    assert!(matches!(err, Error::InvalidId { .. }));

    // No job should have been written for any of the rejected ids.
    assert!(
        q.claim("email", Duration::from_secs(30))
            .unwrap()
            .is_none()
    );

    q.close().unwrap();
}

#[test]
fn test_enqueue_with_duplicate_id_override_rejected() {
    let q = Queue::open(make_store(), "test").unwrap();

    let id = q
        .enqueue_with(
            "email",
            b"first".to_vec(),
            EnqueueOptions {
                id_override: Some("duplicate-id".to_string()),
                ..EnqueueOptions::default()
            },
        )
        .unwrap();
    assert_eq!(id, "duplicate-id");

    let err = q
        .enqueue_with(
            "email",
            b"second".to_vec(),
            EnqueueOptions {
                id_override: Some("duplicate-id".to_string()),
                ..EnqueueOptions::default()
            },
        )
        .unwrap_err();
    assert!(matches!(err, Error::DuplicateJobId { id } if id == "duplicate-id"));

    let job = q
        .claim("email", Duration::from_secs(30))
        .unwrap()
        .unwrap();
    assert_eq!(job.id, "duplicate-id");
    assert_eq!(job.payload, b"first");
    assert!(
        q.claim("email", Duration::from_secs(30))
            .unwrap()
            .is_none()
    );

    q.close().unwrap();
}

#[test]
fn test_enqueue_with_kv_duplicate_id_override_rejects_kv_writes() {
    let q = Queue::open(make_store(), "test").unwrap();

    q.enqueue_with(
        "email",
        b"first".to_vec(),
        EnqueueOptions {
            id_override: Some("duplicate-kv-id".to_string()),
            ..EnqueueOptions::default()
        },
    )
    .unwrap();

    let err = q
        .enqueue_with_kv(
            "email",
            b"second".to_vec(),
            EnqueueOptions {
                id_override: Some("duplicate-kv-id".to_string()),
                ..EnqueueOptions::default()
            },
            HashMap::from([(b"meta/duplicate".to_vec(), b"written".to_vec())]),
        )
        .unwrap_err();
    assert!(matches!(err, Error::DuplicateJobId { id } if id == "duplicate-kv-id"));
    assert!(q.kv_get(b"meta/duplicate").unwrap().is_none());

    let job = q
        .claim("email", Duration::from_secs(30))
        .unwrap()
        .unwrap();
    assert_eq!(job.id, "duplicate-kv-id");
    assert_eq!(job.payload, b"first");

    q.close().unwrap();
}

#[test]
fn test_enqueue_without_id_override_generates_ulid() {
    let q = Queue::open(make_store(), "test").unwrap();

    let id = q
        .enqueue_with("email", b"hello".to_vec(), EnqueueOptions::default())
        .unwrap();
    ulid::Ulid::from_string(&id).expect("default enqueue should produce a parseable ULID");

    q.close().unwrap();
}

#[test]
fn test_claim_empty_queue_returns_none() {
    let q = Queue::open(make_store(), "test").unwrap();
    assert!(
        q.claim("email", Duration::from_secs(30))
            .unwrap()
            .is_none()
    );
    q.close().unwrap();
}

#[test]
fn test_ack_moves_job_to_done() {
    let q = Queue::open(make_store(), "test").unwrap();

    q.enqueue("email", b"hello".to_vec()).unwrap();
    let job = q
        .claim("email", Duration::from_secs(30))
        .unwrap()
        .unwrap();
    q.ack(&job).unwrap();

    assert!(
        q.claim("email", Duration::from_secs(30))
            .unwrap()
            .is_none()
    );
    q.close().unwrap();
}

#[test]
fn test_nack_requeues_job() {
    let q = Queue::open_with_options(make_store(), "test", no_backoff_opts())
        .unwrap();

    q.enqueue_with(
        "email",
        b"hello".to_vec(),
        EnqueueOptions {
            max_attempts: Some(3),
            ..Default::default()
        },
    )
    .unwrap();
    let job = q
        .claim("email", Duration::from_secs(30))
        .unwrap()
        .unwrap();
    assert_eq!(job.attempts, 1);

    q.nack(&job, "transient error").unwrap();

    let retried = q
        .claim("email", Duration::from_secs(30))
        .unwrap()
        .unwrap();
    assert_eq!(retried.attempts, 2);
    assert_eq!(retried.last_error.as_deref(), Some("transient error"));
    assert_eq!(retried.status, JobStatus::Claimed);

    q.close().unwrap();
}

#[test]
fn test_nack_dead_letters_after_max_attempts() {
    let q = Queue::open_with_options(make_store(), "test", no_backoff_opts())
        .unwrap();

    q.enqueue_with(
        "email",
        b"hello".to_vec(),
        EnqueueOptions {
            max_attempts: Some(2),
            ..Default::default()
        },
    )
    .unwrap();
    for _ in 0..2 {
        let job = q
            .claim("email", Duration::from_secs(30))
            .unwrap()
            .unwrap();
        q.nack(&job, "persistent error").unwrap();
    }
    assert!(
        q.claim("email", Duration::from_secs(30))
            .unwrap()
            .is_none()
    );

    q.close().unwrap();
}

#[test]
fn test_fifo_ordering() {
    let q = Queue::open(make_store(), "test").unwrap();

    let id_a = q.enqueue("work", b"first".to_vec()).unwrap();
    let id_b = q.enqueue("work", b"second".to_vec()).unwrap();
    let id_c = q.enqueue("work", b"third".to_vec()).unwrap();

    let j1 = q
        .claim("work", Duration::from_secs(30))
        .unwrap()
        .unwrap();
    let j2 = q
        .claim("work", Duration::from_secs(30))
        .unwrap()
        .unwrap();
    let j3 = q
        .claim("work", Duration::from_secs(30))
        .unwrap()
        .unwrap();

    assert_eq!(j1.id, id_a);
    assert_eq!(j2.id, id_b);
    assert_eq!(j3.id, id_c);

    q.close().unwrap();
}

#[test]
fn test_queue_isolation() {
    let q = Queue::open(make_store(), "test").unwrap();

    let id_email = q.enqueue("email", b"email job".to_vec()).unwrap();
    let id_resize = q.enqueue("resize", b"resize job".to_vec()).unwrap();

    let email_job = q
        .claim("email", Duration::from_secs(30))
        .unwrap()
        .unwrap();
    let resize_job = q
        .claim("resize", Duration::from_secs(30))
        .unwrap()
        .unwrap();

    assert_eq!(email_job.id, id_email);
    assert_eq!(resize_job.id, id_resize);
    assert!(
        q.claim("email", Duration::from_secs(30))
            .unwrap()
            .is_none()
    );
    assert!(
        q.claim("resize", Duration::from_secs(30))
            .unwrap()
            .is_none()
    );

    q.close().unwrap();
}

#[test]
fn test_reaper_requeues_expired_job() {
    let q = Queue::open(make_store(), "test").unwrap();

    q.enqueue_with(
        "work",
        b"payload".to_vec(),
        EnqueueOptions {
            max_attempts: Some(3),
            ..Default::default()
        },
    )
    .unwrap();
    let job = q
        .claim("work", Duration::from_millis(0))
        .unwrap()
        .unwrap();
    assert_eq!(job.attempts, 1);

    assert!(
        q.claim("work", Duration::from_secs(30))
            .unwrap()
            .is_none()
    );

    q.reap_now().unwrap();

    let reclaimed = q
        .claim("work", Duration::from_secs(30))
        .unwrap()
        .unwrap();
    assert_eq!(reclaimed.id, job.id);
    assert_eq!(reclaimed.attempts, 2);
    assert_eq!(reclaimed.status, JobStatus::Claimed);

    q.close().unwrap();
}

#[test]
fn test_reaper_dead_letters_after_max_attempts() {
    let q = Queue::open(make_store(), "test").unwrap();

    q.enqueue_with(
        "work",
        b"payload".to_vec(),
        EnqueueOptions {
            max_attempts: Some(2),
            ..Default::default()
        },
    )
    .unwrap();

    let _job = q
        .claim("work", Duration::from_millis(0))
        .unwrap()
        .unwrap();
    q.reap_now().unwrap();

    let _job = q
        .claim("work", Duration::from_millis(0))
        .unwrap()
        .unwrap();
    q.reap_now().unwrap();

    assert!(
        q.claim("work", Duration::from_secs(30))
            .unwrap()
            .is_none()
    );

    q.close().unwrap();
}

#[test]
fn test_reaper_skips_active_leases() {
    let q = Queue::open(make_store(), "test").unwrap();

    q.enqueue("work", b"payload".to_vec()).unwrap();
    let job = q
        .claim("work", Duration::from_secs(300))
        .unwrap()
        .unwrap();

    q.reap_now().unwrap();

    assert!(
        q.claim("work", Duration::from_secs(300))
            .unwrap()
            .is_none()
    );

    q.ack(&job).unwrap();
    q.close().unwrap();
}

#[test]
fn test_reaper_ignores_already_acked_job() {
    let q = Queue::open(make_store(), "test").unwrap();

    q.enqueue("work", b"payload".to_vec()).unwrap();
    let job = q
        .claim("work", Duration::from_millis(0))
        .unwrap()
        .unwrap();
    q.ack(&job).unwrap();

    q.reap_now().unwrap();

    assert!(
        q.claim("work", Duration::from_secs(30))
            .unwrap()
            .is_none()
    );
    q.close().unwrap();
}

#[test]
fn test_stats_track_job_lifecycle() {
    let q = Queue::open(make_store(), "test").unwrap();

    q.enqueue("email", b"a".to_vec()).unwrap();
    q.enqueue("email", b"b".to_vec()).unwrap();

    let s = q.stats("email").unwrap();
    assert_eq!(s.pending, 2);
    assert_eq!(s.claimed, 0);

    let job = q
        .claim("email", Duration::from_secs(30))
        .unwrap()
        .unwrap();
    let s = q.stats("email").unwrap();
    assert_eq!(s.pending, 1);
    assert_eq!(s.claimed, 1);

    q.ack(&job).unwrap();
    let s = q.stats("email").unwrap();
    assert_eq!(s.pending, 1);
    assert_eq!(s.claimed, 0);
    assert_eq!(s.done, 1);

    q.close().unwrap();
}

#[test]
fn test_stats_nack_dead_letter() {
    let q = Queue::open(make_store(), "test").unwrap();

    q.enqueue_with(
        "email",
        b"x".to_vec(),
        EnqueueOptions {
            max_attempts: Some(1),
            ..Default::default()
        },
    )
    .unwrap();
    let job = q
        .claim("email", Duration::from_secs(30))
        .unwrap()
        .unwrap();
    q.nack(&job, "fail").unwrap();

    let s = q.stats("email").unwrap();
    assert_eq!(s.pending, 0);
    assert_eq!(s.claimed, 0);
    assert_eq!(s.dead, 1);

    q.close().unwrap();
}

#[test]
fn test_dead_jobs_and_requeue() {
    let q = Queue::open(make_store(), "test").unwrap();

    let id = q
        .enqueue_with(
            "work",
            b"payload".to_vec(),
            EnqueueOptions {
                max_attempts: Some(1),
                ..Default::default()
            },
        )
        .unwrap();
    let job = q
        .claim("work", Duration::from_secs(30))
        .unwrap()
        .unwrap();
    q.nack(&job, "fatal").unwrap();

    let dead = q.dead_jobs("work", None, 100).unwrap();
    assert_eq!(dead.len(), 1);
    assert_eq!(dead[0].id, id);
    assert_eq!(dead[0].status, JobStatus::Dead);

    // Requeue and verify it's workable again
    q.requeue_dead_job(dead.into_iter().next().unwrap())
        .unwrap();

    let revived = q
        .claim("work", Duration::from_secs(30))
        .unwrap()
        .unwrap();
    assert_eq!(revived.id, id);
    assert_eq!(revived.attempts, 1); // fresh attempt after reset
    assert!(revived.last_error.is_none());

    q.close().unwrap();
}

#[test]
fn test_per_queue_config() {
    let mut opts = OpenOptions::default();
    opts.queue_configs.insert(
        "fast".to_string(),
        QueueConfig {
            max_attempts: 1,
            lease_duration: Duration::from_secs(5),
            ..QueueConfig::default()
        },
    );
    let q = Queue::open_with_options(make_store(), "test", opts)
        .unwrap();

    // "fast" queue inherits max_attempts=1
    q.enqueue("fast", b"x".to_vec()).unwrap();
    let job = q.claim_next("fast").unwrap().unwrap();
    assert_eq!(job.max_attempts, 1);
    // Lease is 5s
    let lease_expires_at = q.lease_expiry("fast", &job.id).unwrap();
    let claimed_at = job.claimed_at.unwrap();
    assert!(lease_expires_at - claimed_at <= 5_001); // within 5s + 1ms tolerance

    q.ack(&job).unwrap();
    q.close().unwrap();
}

#[test]
fn test_priority_ordering() {
    let q = Queue::open(make_store(), "test").unwrap();

    // Enqueue in reverse priority order to prove ordering is by priority, not insertion.
    let id_low = q
        .enqueue_with(
            "jobs",
            b"low".to_vec(),
            EnqueueOptions {
                priority: Some(PRIORITY_LOW),
                ..Default::default()
            },
        )
        .unwrap();
    let id_normal = q
        .enqueue_with(
            "jobs",
            b"normal".to_vec(),
            EnqueueOptions {
                priority: Some(PRIORITY_NORMAL),
                ..Default::default()
            },
        )
        .unwrap();
    let id_high = q
        .enqueue_with(
            "jobs",
            b"high".to_vec(),
            EnqueueOptions {
                priority: Some(PRIORITY_HIGH),
                ..Default::default()
            },
        )
        .unwrap();

    let j1 = q
        .claim("jobs", Duration::from_secs(30))
        .unwrap()
        .unwrap();
    let j2 = q
        .claim("jobs", Duration::from_secs(30))
        .unwrap()
        .unwrap();
    let j3 = q
        .claim("jobs", Duration::from_secs(30))
        .unwrap()
        .unwrap();

    assert_eq!(j1.id, id_high);
    assert_eq!(j2.id, id_normal);
    assert_eq!(j3.id, id_low);

    q.close().unwrap();
}

#[test]
fn test_priority_fifo_within_same_priority() {
    let q = Queue::open(make_store(), "test").unwrap();

    // Two jobs at the same priority must come out in insertion (FIFO) order.
    let id_first = q
        .enqueue_with(
            "jobs",
            b"first".to_vec(),
            EnqueueOptions {
                priority: Some(PRIORITY_NORMAL),
                ..Default::default()
            },
        )
        .unwrap();
    let id_second = q
        .enqueue_with(
            "jobs",
            b"second".to_vec(),
            EnqueueOptions {
                priority: Some(PRIORITY_NORMAL),
                ..Default::default()
            },
        )
        .unwrap();

    let j1 = q
        .claim("jobs", Duration::from_secs(30))
        .unwrap()
        .unwrap();
    let j2 = q
        .claim("jobs", Duration::from_secs(30))
        .unwrap()
        .unwrap();

    assert_eq!(j1.id, id_first);
    assert_eq!(j2.id, id_second);

    q.close().unwrap();
}

#[test]
fn test_ids_increase_within_one_millisecond() {
    // A clock that never advances puts every id in one millisecond,
    // which is the case a non-monotonic id source orders arbitrarily.
    let clock = MockClock::new(1_700_000_000_000);
    let q = Queue::open_with_options(
        make_store(),
        "test",
        OpenOptions {
            clock: Arc::new(clock.clone()),
            ..OpenOptions::default()
        },
    )
    .unwrap();

    let ids: Vec<String> = (0..10).map(|_| q.next_job_id()).collect();

    // The first ten characters of a ULID are its millisecond timestamp.
    assert!(
        ids.iter().all(|id| id[..10] == ids[0][..10]),
        "every id must carry the frozen clock's millisecond"
    );
    assert!(
        ids.windows(2).all(|w| w[0] < w[1]),
        "ids must increase with generation order"
    );

    q.close().unwrap();
}

#[test]
fn test_fifo_holds_across_a_claim_batch() {
    let q = Queue::open(make_store(), "test").unwrap();

    let mut enqueued = Vec::new();
    for i in 0..20 {
        enqueued.push(
            q.enqueue("jobs", format!("job-{i}").into_bytes())
                .unwrap(),
        );
    }

    let claimed = q
        .claim_batch("jobs", 20, Duration::from_secs(30))
        .unwrap();
    let claimed_ids: Vec<String> = claimed.into_iter().map(|c| c.into_job().id).collect();
    assert_eq!(claimed_ids, enqueued);

    q.close().unwrap();
}

#[test]
fn test_priority_preserved_after_nack() {
    let q = Queue::open_with_options(make_store(), "test", no_backoff_opts())
        .unwrap();

    // A high-priority job that is nacked should still come back before a normal job.
    let id_high = q
        .enqueue_with(
            "jobs",
            b"high".to_vec(),
            EnqueueOptions {
                priority: Some(PRIORITY_HIGH),
                ..Default::default()
            },
        )
        .unwrap();
    let _id_normal = q
        .enqueue_with(
            "jobs",
            b"normal".to_vec(),
            EnqueueOptions {
                priority: Some(PRIORITY_NORMAL),
                ..Default::default()
            },
        )
        .unwrap();

    let job = q
        .claim("jobs", Duration::from_secs(30))
        .unwrap()
        .unwrap();
    assert_eq!(job.id, id_high);

    q.nack(&job, "retry me").unwrap();

    // High-priority job should be claimed again before the normal one.
    let reclaimed = q
        .claim("jobs", Duration::from_secs(30))
        .unwrap()
        .unwrap();
    assert_eq!(reclaimed.id, id_high);
    assert_eq!(reclaimed.priority, PRIORITY_HIGH);

    q.close().unwrap();
}

#[test]
fn test_priority_stored_on_job_record() {
    let q = Queue::open(make_store(), "test").unwrap();

    q.enqueue_with(
        "jobs",
        b"x".to_vec(),
        EnqueueOptions {
            priority: Some(PRIORITY_HIGH),
            ..Default::default()
        },
    )
    .unwrap();
    let job = q
        .claim("jobs", Duration::from_secs(30))
        .unwrap()
        .unwrap();

    assert_eq!(job.priority, PRIORITY_HIGH);

    q.close().unwrap();
}

#[test]
fn test_enqueue_at_future_not_immediately_claimable() {
    let q = Queue::open(make_store(), "test").unwrap();

    let run_at = std::time::SystemTime::now() + Duration::from_secs(3600);
    q.enqueue_with(
        "jobs",
        b"future".to_vec(),
        EnqueueOptions {
            run_at: Some(run_at),
            ..Default::default()
        },
    )
    .unwrap();

    // Job is not yet claimable.
    assert!(
        q.claim("jobs", Duration::from_secs(30))
            .unwrap()
            .is_none()
    );

    let s = q.stats("jobs").unwrap();
    assert_eq!(s.scheduled, 1);
    assert_eq!(s.pending, 0);

    q.close().unwrap();
}

#[test]
fn test_wake_scheduled_without_payload() {
    let initial = 1_700_000_000_000u64;
    let clock = MockClock::new(initial);
    let opts = OpenOptions {
        clock: Arc::new(clock.clone()),
        ..OpenOptions::default()
    };
    let q = Queue::open_with_options(make_store(), "test", opts)
        .unwrap();

    let run_at = std::time::UNIX_EPOCH + Duration::from_millis(initial + 60_000);
    let id = q
        .enqueue_with(
            "jobs",
            b"waiting".to_vec(),
            EnqueueOptions {
                run_at: Some(run_at),
                ..Default::default()
            },
        )
        .unwrap();

    assert_eq!(
        q.wake_scheduled(&id, None).unwrap(),
        WakeOutcome::Woken
    );

    let job = q
        .claim("jobs", Duration::from_secs(30))
        .unwrap()
        .unwrap();
    assert!(job.wake_payload.is_none());
    assert_eq!(job.woken_at, Some(initial));

    q.close().unwrap();
}

#[test]
fn test_kv_put_roundtrip_and_size_cap() {
    let q = Queue::open(make_store(), "test").unwrap();

    q.kv_put(b"config", b"v1").unwrap();
    assert_eq!(
        q.kv_get(b"config").unwrap().as_deref(),
        Some(b"v1".as_slice())
    );

    let oversized = vec![0u8; MAX_KV_VALUE_SIZE + 1];
    assert!(matches!(
        q.kv_put(b"blob", &oversized),
        Err(Error::KvValueTooLarge { .. })
    ));

    q.close().unwrap();
}

#[test]
fn test_kv_compare_delete() {
    let q = Queue::open(make_store(), "test").unwrap();

    q.kv_put(b"latch", b"v1").unwrap();

    assert!(!q.kv_compare_delete(b"latch", b"v2").unwrap());
    assert_eq!(
        q.kv_get(b"latch").unwrap().as_deref(),
        Some(b"v1".as_slice())
    );

    assert!(q.kv_compare_delete(b"latch", b"v1").unwrap());
    assert!(q.kv_get(b"latch").unwrap().is_none());

    assert!(!q.kv_compare_delete(b"latch", b"v1").unwrap());

    q.close().unwrap();
}

#[test]
fn test_kv_compare_put() {
    let q = Queue::open(make_store(), "test").unwrap();

    assert!(!q.kv_compare_put(b"slot", Some(b"v1"), b"v2").unwrap());
    assert!(q.kv_get(b"slot").unwrap().is_none());

    assert!(q.kv_compare_put(b"slot", None, b"v1").unwrap());
    assert_eq!(
        q.kv_get(b"slot").unwrap().as_deref(),
        Some(b"v1".as_slice())
    );

    assert!(!q.kv_compare_put(b"slot", None, b"v2").unwrap());
    assert_eq!(
        q.kv_get(b"slot").unwrap().as_deref(),
        Some(b"v1".as_slice())
    );

    assert!(!q.kv_compare_put(b"slot", Some(b"v0"), b"v2").unwrap());
    assert_eq!(
        q.kv_get(b"slot").unwrap().as_deref(),
        Some(b"v1".as_slice())
    );

    assert!(q.kv_compare_put(b"slot", Some(b"v1"), b"v2").unwrap());
    assert_eq!(
        q.kv_get(b"slot").unwrap().as_deref(),
        Some(b"v2".as_slice())
    );

    let oversized = vec![0u8; MAX_KV_VALUE_SIZE + 1];
    assert!(matches!(
        q.kv_compare_put(b"slot", Some(b"v2"), &oversized),
        Err(Error::KvValueTooLarge { .. })
    ));

    q.close().unwrap();
}

#[test]
fn test_kv_scan_pages_and_filters_by_prefix() {
    let q = Queue::open(make_store(), "test").unwrap();

    for i in 0..5u8 {
        q.kv_put(&[b"runs/".as_slice(), &[b'0' + i]].concat(), &[i])
            .unwrap();
    }
    q.kv_put(b"config", b"c").unwrap();

    let page = q.kv_scan(b"runs/", None, 3).unwrap();
    assert_eq!(page.entries.len(), 3);
    assert_eq!(page.entries[0].0, b"runs/0");
    assert!(page.next_cursor.is_some());

    let rest = q
        .kv_scan(b"runs/", page.next_cursor.as_deref(), 10)
        .unwrap();
    assert_eq!(rest.entries.len(), 2);
    assert_eq!(rest.entries[1].0, b"runs/4");
    assert!(rest.next_cursor.is_none());

    let all = q.kv_scan(b"", None, 100).unwrap();
    assert_eq!(all.entries.len(), 6);
    assert_eq!(all.entries[0].0, b"config");

    let empty = q.kv_scan(b"", None, 0).unwrap();
    assert!(empty.entries.is_empty() && empty.next_cursor.is_none());

    let foreign = q
        .kv_scan(b"other/", page.next_cursor.as_deref(), 10)
        .unwrap();
    assert!(foreign.entries.is_empty() && foreign.next_cursor.is_none());

    q.close().unwrap();
}

#[test]
fn test_kv_scan_excludes_internal_keys() {
    let q = Queue::open(make_store(), "test").unwrap();

    q.enqueue("jobs", b"payload".to_vec()).unwrap();
    q.enqueue_with(
        "jobs",
        b"later".to_vec(),
        EnqueueOptions {
            run_at: Some(std::time::SystemTime::now() + Duration::from_secs(3600)),
            ..Default::default()
        },
    )
    .unwrap();
    q.kv_put(b"only", b"entry").unwrap();

    let page = q.kv_scan(b"", None, 100).unwrap();
    assert_eq!(page.entries.len(), 1);
    assert_eq!(page.entries[0].0, b"only");

    q.close().unwrap();
}

#[test]
fn test_kv_state_survives_crash_reopen() {
    let store = make_store();
    let q = Queue::open(store.clone(), "test").unwrap();
    q.kv_put(b"standalone", b"v1").unwrap();
    let mut kv = HashMap::new();
    kv.insert(b"coupled".to_vec(), b"v2".to_vec());
    q.enqueue_with_kv("jobs", b"p".to_vec(), EnqueueOptions::default(), kv)
        .unwrap();
    drop(q);

    let q = Queue::open(store, "test").unwrap();
    assert_eq!(
        q.kv_get(b"standalone").unwrap().as_deref(),
        Some(b"v1".as_slice())
    );
    assert_eq!(
        q.kv_get(b"coupled").unwrap().as_deref(),
        Some(b"v2".as_slice())
    );
    assert_eq!(q.stats("jobs").unwrap().pending, 1);
    q.close().unwrap();
}

#[test]
fn test_enqueue_in_convenience() {
    let q = Queue::open(make_store(), "test").unwrap();

    q.enqueue_with(
        "jobs",
        b"delayed".to_vec(),
        EnqueueOptions {
            run_at: Some(std::time::SystemTime::now() + Duration::from_secs(3600)),
            ..Default::default()
        },
    )
    .unwrap();

    let s = q.stats("jobs").unwrap();
    assert_eq!(s.scheduled, 1);
    assert_eq!(s.pending, 0);

    q.close().unwrap();
}

#[test]
fn test_dead_letter_skips_attempts_check() {
    // dead_letter() should move a job claimed -> dead unconditionally,
    // without bumping attempts or honouring max_attempts.
    let q = Queue::open_with_options(
        make_store(),
        "test",
        OpenOptions {
            queue_configs: HashMap::from([(
                "work".to_string(),
                QueueConfig {
                    max_attempts: 5,
                    ..QueueConfig::default()
                },
            )]),
            ..OpenOptions::default()
        },
    )
    .unwrap();

    let id = q.enqueue("work", b"payload".to_vec()).unwrap();
    let claimed = q
        .claim("work", Duration::from_secs(30))
        .unwrap()
        .unwrap();
    assert_eq!(claimed.attempts, 1);

    q.dead_letter(&claimed, "permanent failure").unwrap();

    let job = q.get_job(&id).unwrap().unwrap();
    assert_eq!(job.status, JobStatus::Dead);
    assert_eq!(job.attempts, 1, "attempts should not be incremented");
    assert_eq!(job.last_error.as_deref(), Some("permanent failure"));
    assert!(job.failed_at.is_some());

    let stats = q.stats("work").unwrap();
    assert_eq!(stats.dead, 1);
    assert_eq!(stats.claimed, 0);
}

#[test]
fn test_get_job_tracks_lifecycle() {
    // Opt in to keeping done jobs so get_job can resolve them after ack.
    let opts = OpenOptions {
        default_queue_config: QueueConfig {
            keep_done_jobs: Some(Duration::from_secs(60)),
            ..QueueConfig::default()
        },
        ..OpenOptions::default()
    };
    let q = Queue::open_with_options(make_store(), "test", opts)
        .unwrap();

    let id = q.enqueue("work", b"payload".to_vec()).unwrap();

    // Pending
    let job = q.get_job(&id).unwrap().unwrap();
    assert_eq!(job.status, JobStatus::Pending);

    // Claimed
    let claimed = q
        .claim("work", Duration::from_secs(30))
        .unwrap()
        .unwrap();
    let job = q.get_job(&id).unwrap().unwrap();
    assert_eq!(job.status, JobStatus::Claimed);

    // Done
    q.ack(&claimed).unwrap();
    let job = q.get_job(&id).unwrap().unwrap();
    assert_eq!(job.status, JobStatus::Done);

    q.close().unwrap();
}

#[test]
fn test_ack_deletes_job_by_default() {
    // Default config: ack drops the job entirely. The done counter still
    // increments, but the ID is no longer findable via get_job.
    let q = Queue::open(make_store(), "test").unwrap();

    let id = q.enqueue("work", b"payload".to_vec()).unwrap();
    let job = q
        .claim("work", Duration::from_secs(30))
        .unwrap()
        .unwrap();
    q.ack(&job).unwrap();

    assert!(
        q.get_job(&id).unwrap().is_none(),
        "ack must drop the index by default"
    );
    let s = q.stats("work").unwrap();
    assert_eq!(s.done, 1, "done counter still tracks throughput");
    assert_eq!(s.pending, 0);
    assert_eq!(s.claimed, 0);

    q.close().unwrap();
}

#[test]
fn test_done_retention_sweeps_old_jobs() {
    // `MockClock` virtualises the retention cutoff: `now_ms` reads
    // the clock instead of `SystemTime::now()`.
    let clock = MockClock::new(1_700_000_000_000);
    let reaper_interval = Duration::from_millis(10);
    let retention = Duration::from_millis(20);
    let opts = OpenOptions {
        reaper_interval,
        default_queue_config: QueueConfig {
            keep_done_jobs: Some(retention),
            ..QueueConfig::default()
        },
        clock: Arc::new(clock.clone()),
        ..OpenOptions::default()
    };
    let q = Queue::open_with_options(make_store(), "test", opts)
        .unwrap();

    let id = q.enqueue("work", b"payload".to_vec()).unwrap();
    let job = q
        .claim("work", Duration::from_secs(30))
        .unwrap()
        .unwrap();
    q.ack(&job).unwrap();
    // Visible immediately after ack.
    assert!(q.get_job(&id).unwrap().is_some());

    clock.advance(retention + Duration::from_millis(10));
    q.tick();

    assert!(
        q.get_job(&id).unwrap().is_none(),
        "retention sweep must purge expired done jobs"
    );

    q.close().unwrap();
}

#[test]
fn test_requeue_dead_resets_failed_at() {
    let q = Queue::open(make_store(), "test").unwrap();

    q.enqueue_with(
        "work",
        b"payload".to_vec(),
        EnqueueOptions {
            max_attempts: Some(1),
            ..Default::default()
        },
    )
    .unwrap();
    let job = q
        .claim("work", Duration::from_secs(30))
        .unwrap()
        .unwrap();
    q.nack(&job, "fatal").unwrap();

    let dead = q.dead_jobs("work", None, 100).unwrap().pop().unwrap();
    assert!(dead.failed_at.is_some());

    q.requeue_dead_job(dead).unwrap();
    let pending = q
        .claim("work", Duration::from_secs(30))
        .unwrap()
        .unwrap();
    assert!(
        pending.failed_at.is_none(),
        "requeue must clear failed_at so a re-fail starts a fresh retention window"
    );

    q.close().unwrap();
}

#[test]
fn test_get_job_returns_none_for_unknown_id() {
    let q = Queue::open(make_store(), "test").unwrap();
    assert!(q.get_job("nonexistent").unwrap().is_none());
    q.close().unwrap();
}

#[test]
fn test_get_job_after_nack_to_dead() {
    let q = Queue::open(make_store(), "test").unwrap();

    q.enqueue_with(
        "work",
        b"x".to_vec(),
        EnqueueOptions {
            max_attempts: Some(1),
            ..Default::default()
        },
    )
    .unwrap();
    let job = q
        .claim("work", Duration::from_secs(30))
        .unwrap()
        .unwrap();
    let id = job.id.clone();
    q.nack(&job, "fatal").unwrap();

    let dead = q.get_job(&id).unwrap().unwrap();
    assert_eq!(dead.status, JobStatus::Dead);

    q.close().unwrap();
}

#[test]
fn test_renew_lease() {
    let clock = MockClock::new(1_700_000_000_000);
    let opts = OpenOptions {
        clock: Arc::new(clock.clone()),
        ..OpenOptions::default()
    };
    let q = Queue::open_with_options(make_store(), "test", opts)
        .unwrap();

    q.enqueue("work", b"payload".to_vec()).unwrap();
    let job = q
        .claim("work", Duration::from_millis(1))
        .unwrap()
        .unwrap();
    let original_expiry = q.lease_expiry("work", &job.id).unwrap();

    let new_expiry = q.renew_lease(&job, Duration::from_secs(30)).unwrap();
    assert!(new_expiry > original_expiry, "renewed expiry must be later");

    // Reaper skips the renewed lease even once the original expiry
    // has passed.
    clock.advance(Duration::from_secs(1));
    q.reap_now().unwrap();
    assert!(
        q.claim("work", Duration::from_secs(30))
            .unwrap()
            .is_none()
    );

    let fetched = q.get_job(&job.id).unwrap().unwrap();
    assert_eq!(fetched.status, JobStatus::Claimed);
    // The claim still holds, so the original handle settles it.
    q.ack(&job).unwrap();

    q.close().unwrap();
}

#[test]
fn renewal_is_refused_once_cancellation_is_requested() {
    let clock = MockClock::new(1_700_000_000_000);
    let opts = OpenOptions {
        clock: Arc::new(clock.clone()),
        ..OpenOptions::default()
    };
    let q = Queue::open_with_options(make_store(), "test", opts)
        .unwrap();

    q.enqueue("work", b"payload".to_vec()).unwrap();
    let job = q
        .claim("work", Duration::from_secs(30))
        .unwrap()
        .unwrap();
    let lease = q.lease_handle(&job);
    lease.ensure_at_least(Duration::from_secs(60)).unwrap();

    assert_eq!(q.cancel(&job.id).unwrap(), CancelOutcome::Requested);

    let expiry = q.lease_expiry("work", &job.id);
    assert!(matches!(
        q.renew_lease(&job, Duration::from_secs(600)),
        Err(Error::CancelRequested)
    ));
    assert!(matches!(
        lease.ensure_at_least(Duration::from_secs(600)),
        Err(Error::CancelRequested)
    ));
    assert_eq!(q.lease_expiry("work", &job.id), expiry);

    // The claim is still held, so the delivery settles as usual.
    q.nack(&job, "cancelled").unwrap();

    q.close().unwrap();
}

#[test]
fn renewal_leaves_the_claim_settleable() {
    let clock = MockClock::new(1_700_000_000_000);
    let opts = OpenOptions {
        clock: Arc::new(clock.clone()),
        ..OpenOptions::default()
    };
    let q = Queue::open_with_options(make_store(), "test", opts)
        .unwrap();

    q.enqueue("work", b"payload".to_vec()).unwrap();
    let job = q
        .claim("work", Duration::from_secs(30))
        .unwrap()
        .unwrap();

    clock.advance(Duration::from_secs(10));
    let renewed = q.renew_lease(&job, Duration::from_secs(60)).unwrap();
    assert_eq!(q.lease_expiry("work", &job.id), Some(renewed));

    // The claim taken before the renewal keeps its token, so it
    // still settles the delivery.
    q.ack(&job).unwrap();

    let stats = q.stats("work").unwrap();
    assert_eq!(stats.done, 1);
    assert_eq!(stats.claimed, 0);

    q.close().unwrap();
}

#[test]
fn stale_settlement_after_a_reclaim_is_rejected() {
    let clock = MockClock::new(1_700_000_000_000);
    let opts = OpenOptions {
        clock: Arc::new(clock.clone()),
        ..OpenOptions::default()
    };
    let q = Queue::open_with_options(make_store(), "test", opts)
        .unwrap();

    let id = q.enqueue("work", b"payload".to_vec()).unwrap();
    let stale = q
        .claim("work", Duration::from_millis(1))
        .unwrap()
        .unwrap();

    clock.advance(Duration::from_millis(2));
    q.reap_now().unwrap();

    // The re-claim writes the same claimed key the stale copy names,
    // so only the claim token separates the two deliveries.
    let fresh = q
        .claim("work", Duration::from_secs(30))
        .unwrap()
        .unwrap();
    assert_eq!(fresh.id, id);

    assert!(matches!(q.ack(&stale), Err(Error::ClaimLost)));
    assert!(matches!(
        q.nack(&stale, "late failure"),
        Err(Error::ClaimLost)
    ));
    assert!(matches!(
        q.dead_letter(&stale, "late permanent failure"),
        Err(Error::ClaimLost)
    ));

    // The live claim is untouched by the rejected settlements.
    let stats = q.stats("work").unwrap();
    assert_eq!(stats.claimed, 1);
    assert_eq!(stats.done, 0);
    assert_eq!(stats.dead, 0);
    q.ack(&fresh).unwrap();

    q.close().unwrap();
}

#[test]
fn settling_after_renewal_leaves_no_lease_entry() {
    let clock = MockClock::new(1_700_000_000_000);
    let opts = OpenOptions {
        clock: Arc::new(clock.clone()),
        ..OpenOptions::default()
    };
    let q = Queue::open_with_options(make_store(), "test", opts)
        .unwrap();

    q.enqueue("work", b"payload".to_vec()).unwrap();
    let job = q
        .claim("work", Duration::from_secs(30))
        .unwrap()
        .unwrap();
    let renewed = q.renew_lease(&job, Duration::from_secs(60)).unwrap();

    // The ack removes the lease entry the renewal moved.
    q.ack(&job).unwrap();
    assert!(q.state().lease_registry.current("work", &job.id).is_none());
    assert!(q.lease_expiry("work", &job.id).is_none());

    // Nothing is left to come due, so the reaper requeues nothing,
    // even past the renewed expiry.
    assert!(renewed > clock.now_ms());
    clock.advance(Duration::from_secs(61));
    q.reap_now().unwrap();
    let stats = q.stats("work").unwrap();
    assert_eq!(stats.done, 1);
    assert_eq!(stats.pending, 0);
    assert_eq!(stats.dead, 0);

    q.close().unwrap();
}

#[test]
fn settlement_is_rejected_when_the_registry_entry_outlives_the_claim() {
    let clock = MockClock::new(1_700_000_000_000);
    let opts = OpenOptions {
        clock: Arc::new(clock.clone()),
        ..OpenOptions::default()
    };
    let q = Queue::open_with_options(make_store(), "test", opts)
        .unwrap();

    q.enqueue("work", b"payload".to_vec()).unwrap();
    let claim = q
        .claim("work", Duration::from_secs(30))
        .unwrap()
        .unwrap();
    q.ack(&claim).unwrap();

    // The registry lags the store: an entry is removed only after
    // the commit that ends its claim, so a settlement transaction
    // begun inside that lag passes the token check and conflicts
    // with nothing. Recreate the lagging entry and require the
    // in-transaction record read to reject the settlement.
    q.state_mut().lease_registry.insert(
        "work",
        &claim.id,
        clock.now_ms() + 30_000,
        claim.token(),
        claim.cancel_token().is_cancelled(),
    );
    assert!(matches!(
        q.nack(&claim, "late failure"),
        Err(Error::ClaimLost)
    ));
    assert!(matches!(q.ack(&claim), Err(Error::ClaimLost)));

    let stats = q.stats("work").unwrap();
    assert_eq!(stats.done, 1);
    assert_eq!(stats.pending, 0);
    assert_eq!(stats.dead, 0);
    assert_eq!(stats.claimed, 0);
    q.close().unwrap();
}

#[test]
fn lease_expiry_reports_the_renewed_expiry_not_the_claim_time_one() {
    let clock = MockClock::new(1_700_000_000_000);
    let opts = OpenOptions {
        clock: Arc::new(clock.clone()),
        ..OpenOptions::default()
    };
    let q = Queue::open_with_options(make_store(), "test", opts)
        .unwrap();

    q.enqueue("work", b"payload".to_vec()).unwrap();
    let job = q
        .claim("work", Duration::from_secs(30))
        .unwrap()
        .unwrap();
    let claim_time_expiry = q.lease_expiry("work", &job.id).unwrap();

    clock.advance(Duration::from_secs(10));
    let renewed = q.renew_lease(&job, Duration::from_secs(60)).unwrap();
    assert!(renewed > claim_time_expiry);
    assert_eq!(q.lease_expiry("work", &job.id), Some(renewed));

    q.close().unwrap();
}

#[test]
fn test_cancel_pending_job() {
    let q = Queue::open(make_store(), "test").unwrap();

    let id = q.enqueue("work", b"payload".to_vec()).unwrap();

    assert_eq!(q.cancel(&id).unwrap(), CancelOutcome::Removed);

    // No longer claimable.
    assert!(
        q.claim("work", Duration::from_secs(30))
            .unwrap()
            .is_none()
    );

    // No longer findable by ID.
    assert!(q.get_job(&id).unwrap().is_none());

    // Stats reflect the removal.
    assert_eq!(q.stats("work").unwrap().pending, 0);

    q.close().unwrap();
}

#[test]
fn test_cancel_scheduled_job() {
    let q = Queue::open(make_store(), "test").unwrap();

    let id = q
        .enqueue_with(
            "work",
            b"payload".to_vec(),
            EnqueueOptions {
                run_at: Some(std::time::SystemTime::now() + Duration::from_secs(3600)),
                ..Default::default()
            },
        )
        .unwrap();

    assert_eq!(q.stats("work").unwrap().scheduled, 1);
    assert_eq!(q.cancel(&id).unwrap(), CancelOutcome::Removed);
    assert_eq!(q.stats("work").unwrap().scheduled, 0);
    assert!(q.get_job(&id).unwrap().is_none());

    q.close().unwrap();
}

#[test]
fn test_cancel_claimed_job_fires_token() {
    let q = Queue::open(make_store(), "test").unwrap();

    q.enqueue("work", b"payload".to_vec()).unwrap();
    let job = q
        .claim("work", Duration::from_secs(30))
        .unwrap()
        .unwrap();

    let token = job.cancel_token().clone();
    assert!(!token.is_cancelled());

    // Cooperative cancel: token fires, persisted flag is set.
    assert_eq!(q.cancel(&job.id).unwrap(), CancelOutcome::Requested);
    assert!(token.is_cancelled());

    // Worker can still ack normally; cancellation is cooperative.
    q.ack(&job).unwrap();
    q.close().unwrap();
}

#[test]
fn test_cancel_terminal_job_is_not_found() {
    let q = Queue::open(make_store(), "test").unwrap();

    let id = q.enqueue("work", b"payload".to_vec()).unwrap();
    let job = q
        .claim("work", Duration::from_secs(30))
        .unwrap()
        .unwrap();
    q.ack(&job).unwrap();
    // Once Done (or fully deleted on default ack), cancel is a no-op.
    assert_eq!(q.cancel(&id).unwrap(), CancelOutcome::NotFound);

    q.close().unwrap();
}

#[test]
fn a_reclaim_after_a_nack_is_cancellable() {
    let q = Queue::open_with_options(make_store(), "test", no_backoff_opts())
        .unwrap();

    let id = q.enqueue("work", b"payload".to_vec()).unwrap();
    let first = q
        .claim("work", Duration::from_secs(30))
        .unwrap()
        .unwrap();
    let first_token = first.cancel_token().clone();
    q.nack(&first, "transient").unwrap();

    let second = q
        .claim("work", Duration::from_secs(30))
        .unwrap()
        .unwrap();
    assert!(!second.cancel_token().is_cancelled());

    assert_eq!(q.cancel(&id).unwrap(), CancelOutcome::Requested);
    assert!(second.cancel_token().is_cancelled());
    assert!(!first_token.is_cancelled());

    q.ack(&second).unwrap();
    q.close().unwrap();
}

#[test]
fn a_cancel_requested_during_the_delivery_survives_a_nack() {
    let q = Queue::open_with_options(make_store(), "test", no_backoff_opts())
        .unwrap();

    let id = q.enqueue("work", b"payload".to_vec()).unwrap();
    let claim = q
        .claim("work", Duration::from_secs(30))
        .unwrap()
        .unwrap();
    assert_eq!(q.cancel(&id).unwrap(), CancelOutcome::Requested);

    q.nack(&claim, "transient").unwrap();

    let requeued = q.get_job(&id).unwrap().unwrap();
    assert_eq!(requeued.status, JobStatus::Pending);
    assert!(
        requeued.cancel_requested,
        "the nack must not overwrite the persisted cancel request",
    );

    let reclaim = q
        .claim("work", Duration::from_secs(30))
        .unwrap()
        .unwrap();
    assert!(reclaim.cancel_requested);
    assert!(
        reclaim.cancel_token().is_cancelled(),
        "the re-claim must surface a pre-cancelled token",
    );

    q.ack(&reclaim).unwrap();
    q.close().unwrap();
}

#[test]
fn a_cancel_requested_during_the_delivery_survives_a_dead_letter() {
    let q = Queue::open_with_options(make_store(), "test", no_backoff_opts())
        .unwrap();

    let id = q.enqueue("work", b"payload".to_vec()).unwrap();
    let claim = q
        .claim("work", Duration::from_secs(30))
        .unwrap()
        .unwrap();
    assert_eq!(q.cancel(&id).unwrap(), CancelOutcome::Requested);

    q.dead_letter(&claim, "permanent").unwrap();

    let dead = q.get_job(&id).unwrap().unwrap();
    assert_eq!(dead.status, JobStatus::Dead);
    assert!(dead.cancel_requested);
    q.close().unwrap();
}

#[test]
fn test_wait_for_completion_unknown_id_is_not_found() {
    let q = Queue::open(make_store(), "test").unwrap();
    let outcome = q
        .wait_for_completion("does-not-exist", Duration::from_millis(50))
        .unwrap();
    assert!(matches!(outcome, WaitOutcome::NotFound), "{outcome:?}");
    q.close().unwrap();
}

#[test]
fn test_wait_for_completion_pending_times_out() {
    let q = Queue::open(make_store(), "test").unwrap();
    let id = q.enqueue("work", b"payload".to_vec()).unwrap();
    let outcome = q
        .wait_for_completion(&id, Duration::from_secs(60))
        .unwrap();
    assert!(matches!(outcome, WaitOutcome::TimedOut), "{outcome:?}");
    q.close().unwrap();
}

#[test]
fn test_wait_for_completion_returns_immediately_when_already_terminal() {
    let q = Queue::open(make_store(), "test").unwrap();
    q.enqueue("work", b"payload".to_vec()).unwrap();
    let job = q
        .claim("work", Duration::from_secs(30))
        .unwrap()
        .unwrap();
    let id = job.id.clone();
    q.dead_letter(&job, "permanent").unwrap();

    match q
        .wait_for_completion(&id, Duration::from_millis(0))
        .unwrap()
    {
        WaitOutcome::Dead(record) => {
            assert_eq!(record.id, id);
            assert_eq!(record.status, JobStatus::Dead);
        }
        other => panic!("expected Dead(record), got {other:?}"),
    }
    q.close().unwrap();
}

#[test]
fn test_cancel_nonexistent_is_not_found() {
    let q = Queue::open(make_store(), "test").unwrap();
    assert_eq!(
        q.cancel("does-not-exist").unwrap(),
        CancelOutcome::NotFound,
    );
    q.close().unwrap();
}

#[test]
fn test_enqueue_batch_atomic() {
    let q = Queue::open(make_store(), "test").unwrap();

    let payloads = vec![b"a".to_vec(), b"b".to_vec(), b"c".to_vec()];
    let ids = q.enqueue_batch("work", payloads).unwrap();
    assert_eq!(ids.len(), 3);

    let s = q.stats("work").unwrap();
    assert_eq!(s.pending, 3);

    // All jobs are findable and ordered FIFO.
    let j1 = q
        .claim("work", Duration::from_secs(30))
        .unwrap()
        .unwrap();
    let j2 = q
        .claim("work", Duration::from_secs(30))
        .unwrap()
        .unwrap();
    let j3 = q
        .claim("work", Duration::from_secs(30))
        .unwrap()
        .unwrap();
    assert_eq!(j1.id, ids[0]);
    assert_eq!(j2.id, ids[1]);
    assert_eq!(j3.id, ids[2]);

    q.close().unwrap();
}

#[test]
fn test_enqueue_batch_empty_is_noop() {
    let q = Queue::open(make_store(), "test").unwrap();
    let ids = q.enqueue_batch("work", vec![]).unwrap();
    assert!(ids.is_empty());
    assert_eq!(q.stats("work").unwrap().pending, 0);
    q.close().unwrap();
}

#[test]
fn test_enqueue_unique_deduplicates() {
    let q = Queue::open(make_store(), "test").unwrap();

    let id1 = q
        .enqueue_with(
            "work",
            b"first".to_vec(),
            EnqueueOptions {
                dedup_key: Some("my-key".to_string()),
                ..Default::default()
            },
        )
        .unwrap();
    // Second call with the same key must return the existing ID.
    let id2 = q
        .enqueue_with(
            "work",
            b"second".to_vec(),
            EnqueueOptions {
                dedup_key: Some("my-key".to_string()),
                ..Default::default()
            },
        )
        .unwrap();

    assert_eq!(id1, id2);
    assert_eq!(q.stats("work").unwrap().pending, 1);

    q.close().unwrap();
}

#[test]
fn test_enqueue_unique_allows_reenqueue_after_claim() {
    let q = Queue::open(make_store(), "test").unwrap();

    let id1 = q
        .enqueue_with(
            "work",
            b"payload".to_vec(),
            EnqueueOptions {
                dedup_key: Some("my-key".to_string()),
                ..Default::default()
            },
        )
        .unwrap();

    // Claim the job, which releases the dedup key.
    let job = q
        .claim("work", Duration::from_secs(30))
        .unwrap()
        .unwrap();
    assert_eq!(job.id, id1);

    // Now a new enqueue with the same key is accepted.
    let id2 = q
        .enqueue_with(
            "work",
            b"payload".to_vec(),
            EnqueueOptions {
                dedup_key: Some("my-key".to_string()),
                ..Default::default()
            },
        )
        .unwrap();
    assert_ne!(id1, id2);
    assert_eq!(q.stats("work").unwrap().pending, 1);

    q.close().unwrap();
}

#[test]
fn test_enqueue_unique_nack_then_reenqueue_does_not_corrupt_dedup() {
    let q = Queue::open_with_options(make_store(), "test", no_backoff_opts())
        .unwrap();

    let id1 = q
        .enqueue_with(
            "work",
            b"payload".to_vec(),
            EnqueueOptions {
                dedup_key: Some("user-42".to_string()),
                ..Default::default()
            },
        )
        .unwrap();

    // Claim and nack the first job; with no backoff it goes back to pending.
    let job = q
        .claim("work", Duration::from_secs(30))
        .unwrap()
        .unwrap();
    // After claim, dedup_key must be cleared on the record so a future
    // claim doesn't try to release the (now reused) index.
    assert!(job.dedup_key.is_none());
    q.nack(&job, "transient").unwrap();

    // A fresh enqueue_unique with the same key should be accepted now
    // (claim released the index) and create a different job.
    let id2 = q
        .enqueue_with(
            "work",
            b"payload".to_vec(),
            EnqueueOptions {
                dedup_key: Some("user-42".to_string()),
                ..Default::default()
            },
        )
        .unwrap();
    assert_ne!(id1, id2);

    // Drain both jobs; both must complete and the second job's dedup
    // index must remain intact while it sits in pending.
    let j1 = q
        .claim("work", Duration::from_secs(30))
        .unwrap()
        .unwrap();
    // While j1 is claimed (and may be the retry of id1), a third
    // enqueue_unique with the same key must STILL be blocked by id2's
    // index entry.
    let id3 = q
        .enqueue_with(
            "work",
            b"payload".to_vec(),
            EnqueueOptions {
                dedup_key: Some("user-42".to_string()),
                ..Default::default()
            },
        )
        .unwrap();
    assert_eq!(
        id3, id2,
        "id2's dedup index must still block the third enqueue while id2 is pending"
    );
    q.ack(&j1).unwrap();

    let j2 = q
        .claim("work", Duration::from_secs(30))
        .unwrap()
        .unwrap();
    q.ack(&j2).unwrap();

    assert_eq!(q.stats("work").unwrap().pending, 0);
    q.close().unwrap();
}

#[test]
fn test_nack_with_backoff_parks_in_scheduled() {
    // Default config has retry_backoff_base = 1s, so a nack should move the
    // job into the scheduled space rather than immediately back to pending.
    let q = Queue::open(make_store(), "test").unwrap();

    q.enqueue_with(
        "work",
        b"payload".to_vec(),
        EnqueueOptions {
            max_attempts: Some(3),
            ..Default::default()
        },
    )
    .unwrap();
    let job = q
        .claim("work", Duration::from_secs(30))
        .unwrap()
        .unwrap();
    q.nack(&job, "transient").unwrap();

    let s = q.stats("work").unwrap();
    assert_eq!(s.pending, 0, "must not be pending immediately");
    assert_eq!(s.claimed, 0);
    assert_eq!(s.scheduled, 1, "must be parked in scheduled");

    // Not yet claimable.
    assert!(
        q.claim("work", Duration::from_secs(30))
            .unwrap()
            .is_none()
    );

    q.close().unwrap();
}

#[test]
fn test_backoff_delay_calculation() {
    let base = Duration::from_secs(1);
    let max = Duration::from_secs(60);

    assert_eq!(backoff_delay(1, base, max), Duration::from_secs(1));
    assert_eq!(backoff_delay(2, base, max), Duration::from_secs(2));
    assert_eq!(backoff_delay(3, base, max), Duration::from_secs(4));
    assert_eq!(backoff_delay(4, base, max), Duration::from_secs(8));
    // Caps at max.
    assert_eq!(backoff_delay(20, base, max), max);
    // Zero base: no backoff regardless of attempts.
    assert_eq!(
        backoff_delay(5, Duration::ZERO, Duration::from_secs(10)),
        Duration::ZERO
    );
}

#[test]
fn test_enqueue_with_kv_new_writes_apply() {
    let q = Queue::open(make_store(), "test").unwrap();
    let mut kv = HashMap::new();
    kv.insert(b"runs/abc".to_vec(), b"submitted".to_vec());

    let outcome = q
        .enqueue_with_kv("work", b"payload".to_vec(), EnqueueOptions::default(), kv)
        .unwrap();
    let id = match outcome {
        EnqueueResult::New(id) => id,
        other => panic!("expected New, got {other:?}"),
    };

    let s = q.stats("work").unwrap();
    assert_eq!(s.pending, 1);

    let claimed = q
        .claim("work", Duration::from_secs(30))
        .unwrap()
        .unwrap();
    assert_eq!(claimed.id, id);
    assert_eq!(claimed.payload, b"payload");

    let v = q.kv_get(b"runs/abc").unwrap();
    assert_eq!(v.as_deref(), Some(b"submitted".as_slice()));

    q.close().unwrap();
}

#[test]
fn test_enqueue_with_kv_dedup_hit_skips_kv_writes() {
    let q = Queue::open(make_store(), "test").unwrap();

    let first_outcome = q
        .enqueue_with_kv(
            "work",
            b"first".to_vec(),
            EnqueueOptions {
                dedup_key: Some("run-abc".into()),
                ..Default::default()
            },
            HashMap::from([(b"runs/abc".to_vec(), b"first-record".to_vec())]),
        )
        .unwrap();
    let first_id = match first_outcome {
        EnqueueResult::New(id) => id,
        other => panic!("expected New, got {other:?}"),
    };

    let second_outcome = q
        .enqueue_with_kv(
            "work",
            b"second".to_vec(),
            EnqueueOptions {
                dedup_key: Some("run-abc".into()),
                ..Default::default()
            },
            HashMap::from([(b"runs/abc".to_vec(), b"second-record".to_vec())]),
        )
        .unwrap();
    match second_outcome {
        EnqueueResult::AlreadyEnqueued(id) => assert_eq!(id, first_id),
        other => panic!("expected AlreadyEnqueued, got {other:?}"),
    }

    // Only one job was enqueued.
    let s = q.stats("work").unwrap();
    assert_eq!(s.pending, 1);

    // First write applied; second was a dedup hit so it did NOT
    // overwrite the KV value.
    let v = q.kv_get(b"runs/abc").unwrap();
    assert_eq!(v.as_deref(), Some(b"first-record".as_slice()));

    q.close().unwrap();
}

#[test]
fn test_enqueue_with_kv_rejects_oversized_value() {
    let q = Queue::open(make_store(), "test").unwrap();
    let oversized = vec![0u8; MAX_KV_VALUE_SIZE + 1];
    let err = q
        .enqueue_with_kv(
            "work",
            b"x".to_vec(),
            EnqueueOptions::default(),
            HashMap::from([(b"big".to_vec(), oversized)]),
        )
        .unwrap_err();
    match err {
        Error::KvValueTooLarge { size, max } => {
            assert_eq!(size, MAX_KV_VALUE_SIZE + 1);
            assert_eq!(max, MAX_KV_VALUE_SIZE);
        }
        other => panic!("expected KvValueTooLarge, got {other:?}"),
    }
    // Nothing enqueued: validation runs before the transaction.
    assert_eq!(q.stats("work").unwrap().pending, 0);
    q.close().unwrap();
}

#[test]
fn test_kv_keys_cannot_collide_with_internal_layout() {
    let q = Queue::open(make_store(), "test").unwrap();

    // Enqueue a real job so the internal pending key space is in use.
    q.enqueue("work", b"payload".to_vec()).unwrap();

    // A user key that matches a real internal key byte-for-byte is
    // scoped under the user tag and cannot interfere with queue state.
    q.enqueue_with_kv(
        "other",
        b"sentinel".to_vec(),
        EnqueueOptions::default(),
        HashMap::from([(pending_key("work", 1, "fake-id"), b"trickery".to_vec())]),
    )
    .unwrap();

    // The original job is still claimable from the original queue.
    let s = q.stats("work").unwrap();
    assert_eq!(s.pending, 1);
    let claimed = q
        .claim("work", Duration::from_secs(30))
        .unwrap()
        .unwrap();
    assert_eq!(claimed.payload, b"payload");

    // The user-visible key still reads back fine.
    let v = q.kv_get(&pending_key("work", 1, "fake-id")).unwrap();
    assert_eq!(v.as_deref(), Some(b"trickery".as_slice()));

    q.close().unwrap();
}

#[test]
fn test_kv_delete_removes_value() {
    let q = Queue::open(make_store(), "test").unwrap();
    q.enqueue_with_kv(
        "work",
        b"x".to_vec(),
        EnqueueOptions::default(),
        HashMap::from([(b"runs/xyz".to_vec(), b"active".to_vec())]),
    )
    .unwrap();

    assert_eq!(
        q.kv_get(b"runs/xyz").unwrap().as_deref(),
        Some(b"active".as_slice())
    );

    q.kv_delete(b"runs/xyz").unwrap();
    assert!(q.kv_get(b"runs/xyz").unwrap().is_none());

    q.close().unwrap();
}

#[test]
fn ack_with_applies_enqueue_and_kv_effects_atomically() {
    let q = Queue::open(make_store(), "test").unwrap();
    let lease = Duration::from_secs(5);
    q.enqueue_with_kv(
        "work",
        b"first".to_vec(),
        EnqueueOptions::default(),
        HashMap::from([(b"runs/1".to_vec(), b"active".to_vec())]),
    )
    .unwrap();
    let job = q.claim("work", lease).unwrap().unwrap();

    let results = q
        .ack_with(
            &job,
            SettlementEffects {
                enqueues: vec![EnqueueRequest {
                    queue: "next".to_string(),
                    payload: b"second".to_vec(),
                    options: EnqueueOptions::default(),
                }],
                kv_writes: HashMap::from([(b"runs/2".to_vec(), b"done".to_vec())]),
                kv_deletes: vec![b"runs/1".to_vec()],
            },
        )
        .unwrap();
    assert_eq!(results.len(), 1);
    assert!(matches!(results[0], EnqueueResult::New(_)));

    let follow_up = q.claim("next", lease).unwrap().unwrap();
    assert_eq!(follow_up.payload, b"second");
    q.ack(&follow_up).unwrap();
    assert!(q.kv_get(b"runs/1").unwrap().is_none());
    assert_eq!(
        q.kv_get(b"runs/2").unwrap().as_deref(),
        Some(b"done".as_slice()),
    );
    assert_eq!(q.stats("work").unwrap().done, 1);
    q.close().unwrap();
}

#[test]
fn ack_with_applies_no_effects_when_the_claim_is_gone() {
    let q = Queue::open(make_store(), "test").unwrap();
    let lease = Duration::from_secs(5);
    q.enqueue("work", b"job".to_vec()).unwrap();
    let job = q.claim("work", lease).unwrap().unwrap();
    q.ack(&job).unwrap();

    let err = q
        .ack_with(
            &job,
            SettlementEffects {
                enqueues: vec![EnqueueRequest {
                    queue: "next".to_string(),
                    payload: b"x".to_vec(),
                    options: EnqueueOptions::default(),
                }],
                kv_writes: HashMap::from([(b"k".to_vec(), b"v".to_vec())]),
                kv_deletes: Vec::new(),
            },
        )
        .unwrap_err();
    assert!(matches!(err, Error::ClaimLost));
    assert!(q.claim("next", lease).unwrap().is_none());
    assert!(q.kv_get(b"k").unwrap().is_none());
    q.close().unwrap();
}

#[test]
fn ack_with_dedup_hit_downgrades_one_request() {
    let q = Queue::open(make_store(), "test").unwrap();
    let lease = Duration::from_secs(5);
    let existing_id = q
        .enqueue_with(
            "next",
            b"existing".to_vec(),
            EnqueueOptions {
                dedup_key: Some("dk".to_string()),
                ..EnqueueOptions::default()
            },
        )
        .unwrap();
    q.enqueue("work", b"job".to_vec()).unwrap();
    let job = q.claim("work", lease).unwrap().unwrap();

    let results = q
        .ack_with(
            &job,
            SettlementEffects {
                enqueues: vec![
                    EnqueueRequest {
                        queue: "next".to_string(),
                        payload: b"dup".to_vec(),
                        options: EnqueueOptions {
                            dedup_key: Some("dk".to_string()),
                            ..EnqueueOptions::default()
                        },
                    },
                    EnqueueRequest {
                        queue: "next".to_string(),
                        payload: b"fresh".to_vec(),
                        options: EnqueueOptions::default(),
                    },
                ],
                ..SettlementEffects::default()
            },
        )
        .unwrap();
    assert!(matches!(&results[0], EnqueueResult::AlreadyEnqueued(id) if *id == existing_id));
    assert!(matches!(&results[1], EnqueueResult::New(_)));
    assert_eq!(q.stats("next").unwrap().pending, 2);
    assert_eq!(q.stats("work").unwrap().done, 1);
    q.close().unwrap();
}

#[test]
fn dead_letter_with_applies_enqueue_and_kv_effects_atomically() {
    let q = Queue::open(make_store(), "test").unwrap();
    let lease = Duration::from_secs(5);
    assert!(q.claim("notify", lease).unwrap().is_none());
    q.enqueue("work", b"job".to_vec()).unwrap();
    let job = q.claim("work", lease).unwrap().unwrap();

    let results = q
        .dead_letter_with(
            &job,
            "bad input",
            SettlementEffects {
                enqueues: vec![EnqueueRequest {
                    queue: "notify".to_string(),
                    payload: b"failed".to_vec(),
                    options: EnqueueOptions::default(),
                }],
                kv_writes: HashMap::from([(b"runs/1".to_vec(), b"failed".to_vec())]),
                kv_deletes: Vec::new(),
            },
        )
        .unwrap();
    assert_eq!(results.len(), 1);
    assert!(matches!(results[0], EnqueueResult::New(_)));

    assert_eq!(q.stats("work").unwrap().dead, 1);
    assert_eq!(q.stats("notify").unwrap().pending, 1);
    assert_eq!(
        q.kv_get(b"runs/1").unwrap().as_deref(),
        Some(b"failed".as_slice()),
    );
    let follow_up = q.claim("notify", lease).unwrap().unwrap();
    assert_eq!(follow_up.payload, b"failed");
    q.ack(&follow_up).unwrap();
    q.close().unwrap();
}

#[test]
fn dead_letter_with_applies_no_effects_when_the_claim_is_gone() {
    let q = Queue::open(make_store(), "test").unwrap();
    let lease = Duration::from_secs(5);
    q.enqueue("work", b"job".to_vec()).unwrap();
    let job = q.claim("work", lease).unwrap().unwrap();
    q.ack(&job).unwrap();

    let err = q
        .dead_letter_with(
            &job,
            "late failure",
            SettlementEffects {
                enqueues: vec![EnqueueRequest {
                    queue: "notify".to_string(),
                    payload: b"x".to_vec(),
                    options: EnqueueOptions::default(),
                }],
                kv_writes: HashMap::from([(b"k".to_vec(), b"v".to_vec())]),
                kv_deletes: Vec::new(),
            },
        )
        .unwrap_err();
    assert!(matches!(err, Error::ClaimLost));
    assert_eq!(q.stats("notify").unwrap().pending, 0);
    assert!(q.kv_get(b"k").unwrap().is_none());
    q.close().unwrap();
}

#[test]
fn nack_with_discards_effects_while_attempts_remain() {
    let q = Queue::open(make_store(), "test").unwrap();
    let lease = Duration::from_secs(5);
    q.enqueue("work", b"job".to_vec()).unwrap();
    let job = q.claim("work", lease).unwrap().unwrap();

    let outcome = q
        .nack_with(
            &job,
            "transient",
            SettlementEffects {
                enqueues: vec![EnqueueRequest {
                    queue: "notify".to_string(),
                    payload: b"x".to_vec(),
                    options: EnqueueOptions::default(),
                }],
                kv_writes: HashMap::from([(b"k".to_vec(), b"v".to_vec())]),
                kv_deletes: Vec::new(),
            },
        )
        .unwrap();
    assert_eq!(outcome, NackOutcome::Retried);

    let stats = q.stats("work").unwrap();
    assert_eq!(stats.scheduled, 1);
    assert_eq!(stats.dead, 0);
    assert_eq!(q.stats("notify").unwrap().pending, 0);
    assert!(q.kv_get(b"k").unwrap().is_none());
    q.close().unwrap();
}

#[test]
fn nack_with_applies_effects_when_it_dead_letters() {
    let q = Queue::open(make_store(), "test").unwrap();
    let lease = Duration::from_secs(5);
    assert!(q.claim("notify", lease).unwrap().is_none());
    q.enqueue_with(
        "work",
        b"job".to_vec(),
        EnqueueOptions {
            max_attempts: Some(1),
            ..EnqueueOptions::default()
        },
    )
    .unwrap();
    let job = q.claim("work", lease).unwrap().unwrap();

    let outcome = q
        .nack_with(
            &job,
            "final failure",
            SettlementEffects {
                enqueues: vec![EnqueueRequest {
                    queue: "notify".to_string(),
                    payload: b"failed".to_vec(),
                    options: EnqueueOptions::default(),
                }],
                kv_writes: HashMap::from([(b"runs/1".to_vec(), b"failed".to_vec())]),
                kv_deletes: Vec::new(),
            },
        )
        .unwrap();
    let NackOutcome::DeadLettered(results) = outcome else {
        panic!("expected a dead-lettering nack, got {outcome:?}");
    };
    assert!(matches!(results[0], EnqueueResult::New(_)));

    assert_eq!(q.stats("work").unwrap().dead, 1);
    assert_eq!(q.stats("notify").unwrap().pending, 1);
    assert_eq!(
        q.kv_get(b"runs/1").unwrap().as_deref(),
        Some(b"failed".as_slice()),
    );
    let follow_up = q.claim("notify", lease).unwrap().unwrap();
    assert_eq!(follow_up.payload, b"failed");
    q.ack(&follow_up).unwrap();
    q.close().unwrap();
}

#[test]
fn cancel_with_applies_effects_with_the_removal() {
    let q = Queue::open(make_store(), "test").unwrap();
    let lease = Duration::from_secs(5);
    assert!(q.claim("notify", lease).unwrap().is_none());
    let id = q.enqueue("work", b"job".to_vec()).unwrap();

    let (outcome, results) = q
        .cancel_with(
            &id,
            SettlementEffects {
                enqueues: vec![EnqueueRequest {
                    queue: "notify".to_string(),
                    payload: b"cancelled".to_vec(),
                    options: EnqueueOptions::default(),
                }],
                kv_writes: HashMap::new(),
                kv_deletes: vec![b"runs/1".to_vec()],
            },
        )
        .unwrap();
    assert_eq!(outcome, CancelOutcome::Removed);
    assert!(matches!(results[0], EnqueueResult::New(_)));

    assert_eq!(q.stats("work").unwrap().pending, 0);
    assert_eq!(q.stats("notify").unwrap().pending, 1);
    assert!(q.get_job(&id).unwrap().is_none());
    let follow_up = q.claim("notify", lease).unwrap().unwrap();
    assert_eq!(follow_up.payload, b"cancelled");
    q.ack(&follow_up).unwrap();
    q.close().unwrap();
}

#[test]
fn cancel_with_discards_effects_on_a_claimed_job() {
    let q = Queue::open(make_store(), "test").unwrap();
    let lease = Duration::from_secs(5);
    let id = q.enqueue("work", b"job".to_vec()).unwrap();
    let job = q.claim("work", lease).unwrap().unwrap();

    let (outcome, results) = q
        .cancel_with(
            &id,
            SettlementEffects {
                enqueues: vec![EnqueueRequest {
                    queue: "notify".to_string(),
                    payload: b"x".to_vec(),
                    options: EnqueueOptions::default(),
                }],
                kv_writes: HashMap::from([(b"k".to_vec(), b"v".to_vec())]),
                kv_deletes: Vec::new(),
            },
        )
        .unwrap();
    assert_eq!(outcome, CancelOutcome::Requested);
    assert!(results.is_empty());
    assert_eq!(q.stats("notify").unwrap().pending, 0);
    assert!(q.kv_get(b"k").unwrap().is_none());

    q.ack(&job).unwrap();
    q.close().unwrap();
}

#[test]
fn cancel_with_discards_effects_on_an_unknown_job() {
    let q = Queue::open(make_store(), "test").unwrap();

    let (outcome, results) = q
        .cancel_with(
            "missing",
            SettlementEffects {
                kv_writes: HashMap::from([(b"k".to_vec(), b"v".to_vec())]),
                ..SettlementEffects::default()
            },
        )
        .unwrap();
    assert_eq!(outcome, CancelOutcome::NotFound);
    assert!(results.is_empty());
    assert!(q.kv_get(b"k").unwrap().is_none());
    q.close().unwrap();
}

#[test]
fn cancel_with_deletes_the_payload_object_of_a_discarded_follow_up() {
    let store = make_store();
    let q = Queue::open_with_options(store.clone(), "test", offload_opts())
        .unwrap();
    let id = q.enqueue("work", b"job".to_vec()).unwrap();
    let job = q
        .claim("work", Duration::from_secs(30))
        .unwrap()
        .unwrap();

    let (outcome, _) = q
        .cancel_with(
            &id,
            SettlementEffects {
                enqueues: vec![EnqueueRequest {
                    queue: "notify".to_string(),
                    payload: vec![1u8; 256],
                    options: EnqueueOptions::default(),
                }],
                ..SettlementEffects::default()
            },
        )
        .unwrap();
    assert_eq!(outcome, CancelOutcome::Requested);
    assert_eq!(
        object_count(&store, "test-payloads"),
        0,
        "the discarded follow-up's offloaded object is removed"
    );

    q.ack(&job).unwrap();
    q.close().unwrap();
}

#[test]
fn a_key_both_written_and_deleted_is_rejected_before_the_settlement() {
    let q = Queue::open(make_store(), "test").unwrap();
    q.enqueue("work", b"job".to_vec()).unwrap();
    let job = q
        .claim("work", Duration::from_secs(5))
        .unwrap()
        .unwrap();

    let effects = SettlementEffects {
        kv_writes: HashMap::from([(b"k".to_vec(), b"v".to_vec())]),
        kv_deletes: vec![b"k".to_vec()],
        ..SettlementEffects::default()
    };
    let err = q.ack_with(&job, effects.clone()).unwrap_err();
    assert!(matches!(err, Error::ConflictingKvEffect { ref key } if key == b"k"));
    assert!(q.kv_get(b"k").unwrap().is_none());
    assert_eq!(
        q.stats("work").unwrap().claimed,
        1,
        "the claim is untouched"
    );

    let err = q.nack_with(&job, "e", effects.clone()).unwrap_err();
    assert!(matches!(err, Error::ConflictingKvEffect { .. }));
    let err = q.dead_letter_with(&job, "e", effects).unwrap_err();
    assert!(matches!(err, Error::ConflictingKvEffect { .. }));

    q.ack(&job).unwrap();
    q.close().unwrap();
}

#[test]
fn an_exhausted_nack_clears_claimed_at_on_the_dead_record() {
    let q = Queue::open(make_store(), "test").unwrap();
    let id = q
        .enqueue_with(
            "work",
            b"job".to_vec(),
            EnqueueOptions {
                max_attempts: Some(1),
                ..EnqueueOptions::default()
            },
        )
        .unwrap();
    let job = q
        .claim("work", Duration::from_secs(5))
        .unwrap()
        .unwrap();
    assert!(job.claimed_at.is_some());

    q.nack(&job, "fatal").unwrap();
    let dead = q.get_job(&id).unwrap().unwrap();
    assert_eq!(dead.status, JobStatus::Dead);
    assert!(dead.claimed_at.is_none());
    q.close().unwrap();
}

#[test]
fn nack_with_deletes_the_payload_object_of_a_discarded_follow_up() {
    let store = make_store();
    let q = Queue::open_with_options(store.clone(), "test", offload_opts())
        .unwrap();
    q.enqueue("work", b"job".to_vec()).unwrap();
    let job = q
        .claim("work", Duration::from_secs(30))
        .unwrap()
        .unwrap();

    let outcome = q
        .nack_with(&job, "transient", offloaded_follow_up())
        .unwrap();
    assert_eq!(outcome, NackOutcome::Retried);
    assert_eq!(object_count(&store, "test-payloads"), 0);
    q.close().unwrap();
}

#[test]
fn a_lost_claim_deletes_the_payload_object_of_a_prepared_follow_up() {
    let store = make_store();
    let q = Queue::open_with_options(store.clone(), "test", offload_opts())
        .unwrap();
    q.enqueue("work", b"job".to_vec()).unwrap();
    let job = q
        .claim("work", Duration::from_secs(30))
        .unwrap()
        .unwrap();
    q.ack(&job).unwrap();

    let err = q
        .dead_letter_with(&job, "late", offloaded_follow_up())
        .unwrap_err();
    assert!(matches!(err, Error::ClaimLost));
    assert_eq!(object_count(&store, "test-payloads"), 0);

    let err = q
        .nack_with(&job, "late", offloaded_follow_up())
        .unwrap_err();
    assert!(matches!(err, Error::ClaimLost));
    assert_eq!(object_count(&store, "test-payloads"), 0);
    q.close().unwrap();
}

#[test]
fn cancel_with_deletes_the_payload_object_when_the_job_is_unknown() {
    let store = make_store();
    let q = Queue::open_with_options(store.clone(), "test", offload_opts())
        .unwrap();

    let (outcome, _) = q
        .cancel_with("no-such-job", offloaded_follow_up())
        .unwrap();
    assert_eq!(outcome, CancelOutcome::NotFound);
    assert_eq!(object_count(&store, "test-payloads"), 0);
    q.close().unwrap();
}

#[test]
fn ack_with_schedules_a_future_effect() {
    let q = Queue::open(make_store(), "test").unwrap();
    let lease = Duration::from_secs(5);
    q.enqueue("work", b"job".to_vec()).unwrap();
    let job = q.claim("work", lease).unwrap().unwrap();

    q.ack_with(
        &job,
        SettlementEffects {
            enqueues: vec![EnqueueRequest {
                queue: "next".to_string(),
                payload: b"later".to_vec(),
                options: EnqueueOptions {
                    run_at: Some(std::time::SystemTime::now() + Duration::from_secs(300)),
                    ..EnqueueOptions::default()
                },
            }],
            ..SettlementEffects::default()
        },
    )
    .unwrap();

    assert_eq!(q.stats("next").unwrap().scheduled, 1);
    assert!(q.claim("next", lease).unwrap().is_none());
    q.close().unwrap();
}

#[test]
fn cursor_emptiness_persists_across_a_clean_close() {
    let store = make_store();
    let lease = Duration::from_secs(5);
    let q = Queue::open(store.clone(), "test").unwrap();
    q.enqueue("work", b"only".to_vec()).unwrap();
    let job = q.claim("work", lease).unwrap().unwrap();
    q.ack(&job).unwrap();
    assert!(q.claim("work", lease).unwrap().is_none());
    q.close().unwrap();

    let q = Queue::open(store, "test").unwrap();
    assert!(q.state().claim_cursor.begin_claim("work").known_empty);

    q.enqueue("work", b"revives".to_vec()).unwrap();
    let job = q.claim("work", lease).unwrap().unwrap();
    assert_eq!(job.payload, b"revives");
    q.ack(&job).unwrap();
    q.close().unwrap();
}

#[test]
fn restored_bound_moves_back_for_an_insert_behind_it() {
    let store = make_store();
    let lease = Duration::from_secs(5);
    let q = Queue::open(store.clone(), "test").unwrap();
    q.enqueue("work", b"normal-1".to_vec()).unwrap();
    q.enqueue("work", b"normal-2".to_vec()).unwrap();
    let job = q.claim("work", lease).unwrap().unwrap();
    q.ack(&job).unwrap();
    q.close().unwrap();

    // A high-priority job sorts before the restored bound, which
    // sits in the normal-priority band.
    let q = Queue::open(store, "test").unwrap();
    q.enqueue_with(
        "work",
        b"urgent".to_vec(),
        EnqueueOptions {
            priority: Some(PRIORITY_HIGH),
            ..EnqueueOptions::default()
        },
    )
    .unwrap();

    let job = q.claim("work", lease).unwrap().unwrap();
    assert_eq!(job.payload, b"urgent");
    q.ack(&job).unwrap();
    q.close().unwrap();
}

#[test]
fn offloaded_payload_round_trips_through_claim() {
    let store = make_store();
    let q = Queue::open_with_options(store.clone(), "test", offload_opts())
        .unwrap();

    let payload = vec![7u8; 1024];
    let id = q.enqueue("work", payload.clone()).unwrap();
    assert_eq!(object_count(&store, "test-payloads"), 1);

    let read = q.get_job(&id).unwrap().unwrap();
    assert!(read.payload_ref.is_some());
    assert_eq!(read.payload, payload);

    let job = q.claim("work", Duration::from_secs(30)).unwrap();
    let job = job.unwrap();
    assert!(job.payload_ref.is_some());
    assert_eq!(job.payload, payload);

    q.ack(&job).unwrap();
    q.close().unwrap();
}

#[test]
fn offloaded_payload_survives_nack_and_reclaim() {
    let store = make_store();
    let q = Queue::open_with_options(store.clone(), "test", offload_opts())
        .unwrap();

    let payload = vec![3u8; 512];
    q.enqueue("work", payload.clone()).unwrap();

    let job = q
        .claim("work", Duration::from_secs(30))
        .unwrap()
        .unwrap();
    q.nack(&job, "retry").unwrap();
    assert_eq!(
        object_count(&store, "test-payloads"),
        1,
        "a nack must not rewrite or remove the payload object"
    );

    let job = q
        .claim("work", Duration::from_secs(30))
        .unwrap()
        .unwrap();
    assert_eq!(job.payload, payload);
    q.ack(&job).unwrap();
    q.close().unwrap();
}

#[test]
fn ack_with_deletes_the_payload_object_of_a_deduplicated_follow_up() {
    let store = make_store();
    let q = Queue::open_with_options(store.clone(), "test", offload_opts())
        .unwrap();

    q.enqueue_with(
        "next",
        vec![1u8; 256],
        EnqueueOptions {
            dedup_key: Some("dk".to_string()),
            ..EnqueueOptions::default()
        },
    )
    .unwrap();
    q.enqueue("work", b"job".to_vec()).unwrap();
    assert_eq!(object_count(&store, "test-payloads"), 1);

    let job = q
        .claim("work", Duration::from_secs(30))
        .unwrap()
        .unwrap();
    let results = q
        .ack_with(
            &job,
            SettlementEffects {
                enqueues: vec![EnqueueRequest {
                    queue: "next".to_string(),
                    payload: vec![2u8; 256],
                    options: EnqueueOptions {
                        dedup_key: Some("dk".to_string()),
                        ..EnqueueOptions::default()
                    },
                }],
                ..SettlementEffects::default()
            },
        )
        .unwrap();

    assert!(matches!(&results[0], EnqueueResult::AlreadyEnqueued(_)));
    assert_eq!(
        object_count(&store, "test-payloads"),
        1,
        "the downgraded follow-up's object is removed, leaving only the existing job's"
    );
    q.close().unwrap();
}

#[test]
fn ack_without_done_retention_deletes_the_payload_object() {
    let store = make_store();
    let q = Queue::open_with_options(store.clone(), "test", offload_opts())
        .unwrap();

    q.enqueue("work", vec![1u8; 256]).unwrap();
    let job = q
        .claim("work", Duration::from_secs(30))
        .unwrap()
        .unwrap();
    q.ack(&job).unwrap();
    assert_eq!(object_count(&store, "test-payloads"), 0);
    q.close().unwrap();
}

#[test]
fn dead_lettered_payload_survives_requeue_and_redelivery() {
    let store = make_store();
    let q = Queue::open_with_options(store.clone(), "test", offload_opts())
        .unwrap();

    let payload = vec![8u8; 512];
    q.enqueue("work", payload.clone()).unwrap();
    let job = q
        .claim("work", Duration::from_secs(30))
        .unwrap()
        .unwrap();
    q.dead_letter(&job, "permanent").unwrap();

    let dead = q.dead_jobs("work", None, 10).unwrap();
    assert_eq!(dead.len(), 1);
    assert_eq!(dead[0].payload, payload, "dead_jobs materializes payloads");

    q.requeue_dead_job(dead.into_iter().next().unwrap())
        .unwrap();
    let job = q
        .claim("work", Duration::from_secs(30))
        .unwrap()
        .unwrap();
    assert_eq!(job.payload, payload);
    q.ack(&job).unwrap();
    assert_eq!(object_count(&store, "test-payloads"), 0);
    q.close().unwrap();
}

#[test]
fn duplicate_id_rejection_preserves_the_existing_payload_object() {
    let store = make_store();
    let q = Queue::open_with_options(store.clone(), "test", offload_opts())
        .unwrap();

    let payload = vec![1u8; 256];
    let opts_with_id = || EnqueueOptions {
        id_override: Some("fixed-id".to_string()),
        ..EnqueueOptions::default()
    };
    q.enqueue_with("work", payload.clone(), opts_with_id())
        .unwrap();
    let err = q
        .enqueue_with("work", vec![2u8; 256], opts_with_id())
        .unwrap_err();
    assert!(matches!(err, Error::DuplicateJobId { .. }));

    // The rejected enqueue's object is removed; the live job's object
    // is untouched and still readable.
    assert_eq!(object_count(&store, "test-payloads"), 1);
    let job = q
        .claim("work", Duration::from_secs(30))
        .unwrap()
        .unwrap();
    assert_eq!(job.payload, payload);
    q.ack(&job).unwrap();
    q.close().unwrap();
}

#[test]
fn dedup_hit_removes_the_new_payload_object() {
    let store = make_store();
    let q = Queue::open_with_options(store.clone(), "test", offload_opts())
        .unwrap();

    let opts_with_dedup = || EnqueueOptions {
        dedup_key: Some("once".to_string()),
        ..EnqueueOptions::default()
    };
    let first = q
        .enqueue_with("work", vec![1u8; 256], opts_with_dedup())
        .unwrap();
    let second = q
        .enqueue_with("work", vec![2u8; 256], opts_with_dedup())
        .unwrap();
    assert_eq!(first, second, "dedup returns the existing job's id");
    assert_eq!(object_count(&store, "test-payloads"), 1);
    q.close().unwrap();
}

#[test]
fn payloads_at_or_below_the_threshold_stay_inline() {
    let store = make_store();
    let q = Queue::open_with_options(store.clone(), "test", offload_opts())
        .unwrap();

    let id = q.enqueue("work", vec![0u8; 64]).unwrap();
    assert_eq!(object_count(&store, "test-payloads"), 0);
    let job = q.get_job(&id).unwrap().unwrap();
    assert!(job.payload_ref.is_none());
    assert_eq!(job.payload.len(), 64);
    q.close().unwrap();
}

#[test]
fn disabled_offload_keeps_large_payloads_inline() {
    let store = make_store();
    let opts = OpenOptions {
        payload_offload_threshold: None,
        ..OpenOptions::default()
    };
    let q = Queue::open_with_options(store.clone(), "test", opts)
        .unwrap();

    let id = q.enqueue("work", vec![0u8; 1024 * 1024]).unwrap();
    assert_eq!(object_count(&store, "test-payloads"), 0);
    let job = q.get_job(&id).unwrap().unwrap();
    assert!(job.payload_ref.is_none());
    q.close().unwrap();
}

#[test]
fn cancel_of_a_pending_job_deletes_the_payload_object() {
    let store = make_store();
    let q = Queue::open_with_options(store.clone(), "test", offload_opts())
        .unwrap();

    let id = q.enqueue("work", vec![4u8; 256]).unwrap();
    assert_eq!(object_count(&store, "test-payloads"), 1);
    assert_eq!(q.cancel(&id).unwrap(), CancelOutcome::Removed);
    assert_eq!(object_count(&store, "test-payloads"), 0);
    q.close().unwrap();
}

#[test]
fn batch_enqueue_offloads_each_oversized_payload() {
    let store = make_store();
    let q = Queue::open_with_options(store.clone(), "test", offload_opts())
        .unwrap();

    let payloads = vec![vec![1u8; 256], vec![2u8; 16], vec![3u8; 256]];
    q.enqueue_batch("work", payloads.clone()).unwrap();
    assert_eq!(
        object_count(&store, "test-payloads"),
        2,
        "only the two oversized payloads offload"
    );

    for expected in payloads {
        let job = q
            .claim("work", Duration::from_secs(30))
            .unwrap()
            .unwrap();
        assert_eq!(job.payload, expected);
        q.ack(&job).unwrap();
    }
    assert_eq!(object_count(&store, "test-payloads"), 0);
    q.close().unwrap();
}

#[test]
fn ack_effect_enqueues_offload_and_clean_up_on_dedup_downgrade() {
    let store = make_store();
    let q = Queue::open_with_options(store.clone(), "test", offload_opts())
        .unwrap();

    // An existing job holds the dedup key the follow-up enqueue will hit.
    q.enqueue_with(
        "next",
        vec![1u8; 16],
        EnqueueOptions {
            dedup_key: Some("once".to_string()),
            ..EnqueueOptions::default()
        },
    )
    .unwrap();

    q.enqueue("work", vec![2u8; 16]).unwrap();
    let job = q
        .claim("work", Duration::from_secs(30))
        .unwrap()
        .unwrap();
    let results = q
        .ack_with(
            &job,
            SettlementEffects {
                enqueues: vec![
                    EnqueueRequest {
                        queue: "next".to_string(),
                        payload: vec![3u8; 256],
                        options: EnqueueOptions {
                            dedup_key: Some("once".to_string()),
                            ..EnqueueOptions::default()
                        },
                    },
                    EnqueueRequest {
                        queue: "next".to_string(),
                        payload: vec![4u8; 256],
                        options: EnqueueOptions::default(),
                    },
                ],
                ..SettlementEffects::default()
            },
        )
        .unwrap();

    assert!(matches!(results[0], EnqueueResult::AlreadyEnqueued(_)));
    assert!(matches!(results[1], EnqueueResult::New(_)));
    // The dedup-downgraded follow-up job's payload object is removed;
    // the committed follow-up job's object remains.
    assert_eq!(object_count(&store, "test-payloads"), 1);

    let follow_up_ids = match &results[1] {
        EnqueueResult::New(id) => id.clone(),
        _ => unreachable!(),
    };
    let follow_up = q.get_job(&follow_up_ids).unwrap().unwrap();
    assert_eq!(follow_up.payload, vec![4u8; 256]);
    q.close().unwrap();
}

#[test]
fn list_jobs_filters_claimed_by_queue() {
    let opts = OpenOptions {
        clock: Arc::new(MockClock::new(1_700_000_000_000)),
        ..OpenOptions::default()
    };
    let q = Queue::open_with_options(make_store(), "test", opts)
        .unwrap();
    let a1 = q.enqueue("qa", b"1".to_vec()).unwrap();
    let a2 = q.enqueue("qa", b"2".to_vec()).unwrap();
    q.enqueue("qb", b"3".to_vec()).unwrap();
    let lease = Duration::from_secs(30);
    q.claim("qa", lease).unwrap().unwrap();
    q.claim("qa", lease).unwrap().unwrap();
    q.claim("qb", lease).unwrap().unwrap();

    let page = q
        .list_jobs("qa", JobStatus::Claimed, None, 10)
        .unwrap();
    let ids: Vec<_> = page.jobs.iter().map(|j| j.id.clone()).collect();
    assert_eq!(ids, vec![a1, a2]);
    assert!(page.jobs.iter().all(|j| j.status == JobStatus::Claimed));
    q.close().unwrap();
}

#[test]
fn list_jobs_materializes_offloaded_payloads() {
    let q = Queue::open_with_options(make_store(), "test", offload_opts())
        .unwrap();
    let payload = vec![9u8; 512];
    let id = q.enqueue("work", payload.clone()).unwrap();

    let page = q
        .list_jobs("work", JobStatus::Pending, None, 10)
        .unwrap();
    assert_eq!(page.jobs.len(), 1);
    assert_eq!(page.jobs[0].id, id);
    assert!(page.jobs[0].payload_ref.is_some());
    assert_eq!(page.jobs[0].payload, payload);
    q.close().unwrap();
}

#[test]
fn attempt_history_records_retries_then_completion() {
    let opts = OpenOptions {
        default_queue_config: QueueConfig {
            keep_done_jobs: Some(Duration::from_secs(3600)),
            retry_backoff_base: Duration::ZERO,
            retry_backoff_max: Duration::ZERO,
            ..QueueConfig::default()
        },
        ..OpenOptions::default()
    };
    let q = Queue::open_with_options(make_store(), "test", opts)
        .unwrap();
    let id = q.enqueue("work", b"x".to_vec()).unwrap();
    let lease = Duration::from_secs(30);

    let job = q.claim("work", lease).unwrap().unwrap();
    q.nack(&job, "timeout").unwrap();
    let job = q.claim("work", lease).unwrap().unwrap();
    q.nack(&job, "connection reset").unwrap();
    let job = q.claim("work", lease).unwrap().unwrap();
    q.ack(&job).unwrap();

    let history = q.attempt_history(&id).unwrap();
    assert_eq!(history.len(), 3);
    assert_eq!(history[0].attempt, 1);
    assert_eq!(history[0].outcome, AttemptOutcome::Retried);
    assert_eq!(history[0].error.as_deref(), Some("timeout"));
    assert!(history[0].claimed_at.is_some());
    assert_eq!(history[1].attempt, 2);
    assert_eq!(history[1].error.as_deref(), Some("connection reset"));
    assert_eq!(history[2].attempt, 3);
    assert_eq!(history[2].outcome, AttemptOutcome::Completed);
    assert_eq!(history[2].error, None);
    q.close().unwrap();
}

#[test]
fn attempt_history_removed_when_ack_expunges_the_record() {
    let q = Queue::open_with_options(make_store(), "test", no_backoff_opts())
        .unwrap();
    let id = q.enqueue("work", b"x".to_vec()).unwrap();
    let lease = Duration::from_secs(30);

    let job = q.claim("work", lease).unwrap().unwrap();
    q.nack(&job, "failed").unwrap();
    assert_eq!(q.attempt_history(&id).unwrap().len(), 1);

    let job = q.claim("work", lease).unwrap().unwrap();
    q.ack(&job).unwrap();
    assert!(q.attempt_history(&id).unwrap().is_empty());
    q.close().unwrap();
}

#[test]
fn attempt_history_records_dead_letter_on_nack_at_attempt_limit() {
    let opts = OpenOptions {
        default_queue_config: QueueConfig {
            max_attempts: 1,
            ..QueueConfig::default()
        },
        ..OpenOptions::default()
    };
    let q = Queue::open_with_options(make_store(), "test", opts)
        .unwrap();
    let id = q.enqueue("work", b"x".to_vec()).unwrap();

    let job = q
        .claim("work", Duration::from_secs(30))
        .unwrap()
        .unwrap();
    q.nack(&job, "failed").unwrap();
    assert_eq!(
        q.get_job(&id).unwrap().unwrap().status,
        JobStatus::Dead
    );

    let history = q.attempt_history(&id).unwrap();
    assert_eq!(history.len(), 1);
    assert_eq!(history[0].attempt, 1);
    assert_eq!(history[0].outcome, AttemptOutcome::DeadLettered);
    assert_eq!(history[0].error.as_deref(), Some("failed"));
    assert!(history[0].claimed_at.is_some());
    q.close().unwrap();
}

#[test]
fn attempt_history_survives_requeue_with_marker() {
    let q = Queue::open(make_store(), "test").unwrap();
    let id = q.enqueue("work", b"x".to_vec()).unwrap();
    let lease = Duration::from_secs(30);

    let job = q.claim("work", lease).unwrap().unwrap();
    q.dead_letter(&job, "unroutable").unwrap();

    let dead = q.get_job(&id).unwrap().unwrap();
    q.requeue_dead_job(dead).unwrap();
    let job = q.claim("work", lease).unwrap().unwrap();
    q.dead_letter(&job, "still unroutable").unwrap();

    let history = q.attempt_history(&id).unwrap();
    let outcomes: Vec<_> = history.iter().map(|a| a.outcome).collect();
    assert_eq!(
        outcomes,
        vec![
            AttemptOutcome::DeadLettered,
            AttemptOutcome::Requeued,
            AttemptOutcome::DeadLettered,
        ]
    );
    assert_eq!(history[0].error.as_deref(), Some("unroutable"));
    assert_eq!(history[1].attempt, 0);
    assert_eq!(history[1].claimed_at, None);
    assert_eq!(history[2].attempt, 1);
    q.close().unwrap();
}

#[test]
fn cancel_of_scheduled_job_removes_attempt_history() {
    let q = Queue::open(make_store(), "test").unwrap();
    let id = q.enqueue("work", b"x".to_vec()).unwrap();

    let job = q
        .claim("work", Duration::from_secs(30))
        .unwrap()
        .unwrap();
    // Default backoff is non-zero, so the nacked job waits in
    // `Scheduled` with one history entry.
    q.nack(&job, "failed").unwrap();
    assert_eq!(q.attempt_history(&id).unwrap().len(), 1);

    assert_eq!(q.cancel(&id).unwrap(), CancelOutcome::Removed);
    assert!(q.attempt_history(&id).unwrap().is_empty());
    q.close().unwrap();
}

#[test]
fn every_live_claim_has_a_lease_entry() {
    let clock = MockClock::new(1_700_000_000_000);
    let opts = OpenOptions {
        clock: Arc::new(clock.clone()),
        ..OpenOptions::default()
    };
    let q = Queue::open_with_options(make_store(), "test", opts)
        .unwrap();

    for i in 0..3u8 {
        q.enqueue("work", vec![i]).unwrap();
    }
    let claims = q
        .claim_batch("work", 3, Duration::from_secs(30))
        .unwrap();
    assert_every_claim_has_a_lease_entry(&q);

    let renewed = q.renew_lease(&claims[0], Duration::from_secs(90)).unwrap();
    assert_every_claim_has_a_lease_entry(&q);
    assert!(
        q.state().lease_registry
            .contains("work", &claims[0].id, renewed)
    );

    q.close().unwrap();
}

#[test]
fn read_test_list_queues() {
    let q = Queue::open(make_store(), "test").unwrap();

    q.enqueue("alpha", b"1".to_vec()).unwrap();
    q.enqueue("beta", b"2".to_vec()).unwrap();
    q.enqueue("gamma", b"3".to_vec()).unwrap();

    let mut queues = q.view().list_queues().unwrap();
    queues.sort();
    assert_eq!(queues, vec!["alpha", "beta", "gamma"]);

    q.close().unwrap();
}

#[test]
fn read_test_dead_jobs_pagination() {
    let q = Queue::open(make_store(), "test").unwrap();

    // Create 5 dead jobs.
    let mut ids = Vec::new();
    for _ in 0..5 {
        let id = q
            .enqueue_with(
                "work",
                b"x".to_vec(),
                EnqueueOptions {
                    max_attempts: Some(1),
                    ..Default::default()
                },
            )
            .unwrap();
        let job = q
            .claim("work", Duration::from_secs(30))
            .unwrap()
            .unwrap();
        q.nack(&job, "fail").unwrap();
        ids.push(id);
    }

    // First page of 2 returns the first two.
    let p1 = q.view().dead_jobs("work", None, 2).unwrap();
    assert_eq!(p1.len(), 2);
    assert_eq!(p1[0].id, ids[0]);
    assert_eq!(p1[1].id, ids[1]);

    // Resume from the last cursor.
    let p2 = q
        .view()
        .dead_jobs("work", Some(&p1[1].id), 2)
        .unwrap();
    assert_eq!(p2.len(), 2);
    assert_eq!(p2[0].id, ids[2]);
    assert_eq!(p2[1].id, ids[3]);

    let p3 = q
        .view()
        .dead_jobs("work", Some(&p2[1].id), 2)
        .unwrap();
    assert_eq!(p3.len(), 1);
    assert_eq!(p3[0].id, ids[4]);

    // limit=0 returns nothing.
    assert!(
        q.view()
            .dead_jobs("work", None, 0)
            .unwrap()
            .is_empty()
    );

    q.close().unwrap();
}

#[test]
fn read_list_jobs_pages_pending_in_claim_order() {
    let q = Queue::open(make_store(), "test").unwrap();
    let low = q
        .enqueue_with(
            "work",
            b"low".to_vec(),
            EnqueueOptions {
                priority: Some(PRIORITY_LOW),
                ..Default::default()
            },
        )
        .unwrap();
    let normal_a = q.enqueue("work", b"a".to_vec()).unwrap();
    let normal_b = q.enqueue("work", b"b".to_vec()).unwrap();
    let high = q
        .enqueue_with(
            "work",
            b"high".to_vec(),
            EnqueueOptions {
                priority: Some(PRIORITY_HIGH),
                ..Default::default()
            },
        )
        .unwrap();

    let mut ids = Vec::new();
    let mut cursor: Option<Vec<u8>> = None;
    loop {
        let page = q
            .view()
            .list_jobs("work", JobStatus::Pending, cursor.as_deref(), 2)
            .unwrap();
        ids.extend(page.jobs.iter().map(|j| j.id.clone()));
        match page.next_cursor {
            Some(c) => cursor = Some(c),
            None => break,
        }
    }
    assert_eq!(ids, vec![high, normal_a, normal_b, low]);
    q.close().unwrap();
}

#[test]
fn read_list_jobs_orders_scheduled_by_run_at() {
    let initial = 1_700_000_000_000u64;
    let opts = OpenOptions {
        clock: Arc::new(MockClock::new(initial)),
        ..OpenOptions::default()
    };
    let q = Queue::open_with_options(make_store(), "test", opts)
        .unwrap();
    let at = |secs: u64| std::time::UNIX_EPOCH + Duration::from_millis(initial + secs * 1_000);
    let later = q
        .enqueue_with(
            "work",
            b"later".to_vec(),
            EnqueueOptions {
                run_at: Some(at(7200)),
                ..Default::default()
            },
        )
        .unwrap();
    let sooner = q
        .enqueue_with(
            "work",
            b"sooner".to_vec(),
            EnqueueOptions {
                run_at: Some(at(3600)),
                ..Default::default()
            },
        )
        .unwrap();

    let page = q
        .view()
        .list_jobs("work", JobStatus::Scheduled, None, 10)
        .unwrap();
    let ids: Vec<_> = page.jobs.iter().map(|j| j.id.clone()).collect();
    assert_eq!(ids, vec![sooner, later]);
    assert!(page.next_cursor.is_none());
    q.close().unwrap();
}

#[test]
fn read_list_jobs_orders_claimed_by_id_stably_under_renewal() {
    let clock = MockClock::new(1_700_000_000_000);
    let opts = OpenOptions {
        clock: Arc::new(clock.clone()),
        ..OpenOptions::default()
    };
    let q = Queue::open_with_options(make_store(), "test", opts)
        .unwrap();

    // Claim order is the reverse of expiry order, so a listing
    // ordered by lease expiry would return these in reverse order.
    let mut handles = Vec::new();
    for secs in [90, 60, 30] {
        q.enqueue("work", vec![secs as u8]).unwrap();
        let claim = q
            .claim("work", Duration::from_secs(secs))
            .unwrap()
            .unwrap();
        handles.push(claim);
    }
    let [ca, cb, cc] = <[Claim; 3]>::try_from(handles).unwrap();
    let (a, b, c) = (ca.id.clone(), cb.id.clone(), cc.id.clone());

    let ids =
        |page: &JobPage| -> Vec<String> { page.jobs.iter().map(|j| j.id.clone()).collect() };
    let page = q
        .view()
        .list_jobs("work", JobStatus::Claimed, None, 10)
        .unwrap();
    assert_eq!(ids(&page), vec![a.clone(), b.clone(), c.clone()]);

    // A renewal leaves the ordering alone.
    let renewed = q.renew_lease(&ca, Duration::from_secs(600)).unwrap();
    let page = q
        .view()
        .list_jobs("work", JobStatus::Claimed, None, 10)
        .unwrap();
    assert_eq!(ids(&page), vec![a.clone(), b, c]);
    assert_eq!(q.lease_expiry("work", &a), Some(renewed));

    drop((cb, cc));
    q.close().unwrap();
}

#[test]
fn read_list_jobs_pages_claimed_one_queue_at_a_time() {
    let clock = MockClock::new(1_700_000_000_000);
    let opts = OpenOptions {
        clock: Arc::new(clock.clone()),
        ..OpenOptions::default()
    };
    let q = Queue::open_with_options(make_store(), "test", opts)
        .unwrap();
    let mut expected = Vec::new();
    // Alternate claims between the two queues, so a listing that
    // scanned a key space covering both would page the other
    // queue's rows in.
    for i in 0..3u8 {
        let id = q.enqueue("qa", vec![i]).unwrap();
        q.enqueue("qb", vec![i]).unwrap();
        expected.push(id);
        let lease = Duration::from_secs(30);
        q.claim("qa", lease).unwrap().unwrap();
        clock.advance(Duration::from_millis(1));
        q.claim("qb", lease).unwrap().unwrap();
        clock.advance(Duration::from_millis(1));
    }

    let mut ids = Vec::new();
    let mut cursor: Option<Vec<u8>> = None;
    let mut pages = 0;
    loop {
        let page = q
            .view()
            .list_jobs("qa", JobStatus::Claimed, cursor.as_deref(), 1)
            .unwrap();
        assert!(page.jobs.len() <= 1);
        assert!(page.jobs.iter().all(|j| j.status == JobStatus::Claimed));
        ids.extend(page.jobs.iter().map(|j| j.id.clone()));
        pages += 1;
        match page.next_cursor {
            Some(c) => cursor = Some(c),
            None => break,
        }
    }
    assert_eq!(ids, expected);
    assert_eq!(pages, 3);
    q.close().unwrap();
}

#[test]
fn read_list_jobs_done_lists_only_kept_records() {
    let mut opts = OpenOptions::default();
    opts.queue_configs.insert(
        "kept".to_string(),
        QueueConfig {
            keep_done_jobs: Some(Duration::from_secs(3600)),
            ..QueueConfig::default()
        },
    );
    let q = Queue::open_with_options(make_store(), "test", opts)
        .unwrap();
    let kept = q.enqueue("kept", b"k".to_vec()).unwrap();
    q.enqueue("gone", b"g".to_vec()).unwrap();
    let lease = Duration::from_secs(30);
    let job = q.claim("kept", lease).unwrap().unwrap();
    q.ack(&job).unwrap();
    let job = q.claim("gone", lease).unwrap().unwrap();
    q.ack(&job).unwrap();

    let page = q
        .view()
        .list_jobs("kept", JobStatus::Done, None, 10)
        .unwrap();
    let ids: Vec<_> = page.jobs.iter().map(|j| j.id.clone()).collect();
    assert_eq!(ids, vec![kept]);
    let page = q
        .view()
        .list_jobs("gone", JobStatus::Done, None, 10)
        .unwrap();
    assert!(page.jobs.is_empty());
    q.close().unwrap();
}

#[test]
fn read_list_jobs_dead_matches_dead_jobs() {
    let q = Queue::open(make_store(), "test").unwrap();
    for i in 0..3u8 {
        q.enqueue("work", vec![i]).unwrap();
    }
    let lease = Duration::from_secs(30);
    while let Some(job) = q.claim("work", lease).unwrap() {
        q.dead_letter(&job, "failed").unwrap();
    }

    let via_dead_jobs: Vec<_> = q
        .view()
        .dead_jobs("work", None, 10)
        .unwrap()
        .into_iter()
        .map(|j| j.id)
        .collect();
    assert_eq!(via_dead_jobs.len(), 3);
    let page = q
        .view()
        .list_jobs("work", JobStatus::Dead, None, 10)
        .unwrap();
    let via_list: Vec<_> = page.jobs.into_iter().map(|j| j.id).collect();
    assert_eq!(via_list, via_dead_jobs);
    q.close().unwrap();
}

#[test]
fn list_jobs_returns_an_offloaded_record_without_its_payload() {
    let q = Queue::open_with_options(make_store(), "test", offload_opts())
        .unwrap();
    let payload = vec![9u8; 512];
    let id = q.enqueue("work", payload.clone()).unwrap();

    let page = q
        .view()
        .list_jobs("work", JobStatus::Pending, None, 10)
        .unwrap();
    assert_eq!(page.jobs.len(), 1);
    assert_eq!(page.jobs[0].id, id);
    assert!(page.jobs[0].payload_ref.is_some());
    assert!(page.jobs[0].payload.is_empty());
    let job = q.view().get_job(&id).unwrap().unwrap();
    assert_eq!(job.payload, payload);
    q.close().unwrap();
}

#[test]
fn read_list_jobs_limit_zero_and_foreign_cursor_return_empty_pages() {
    let q = Queue::open(make_store(), "test").unwrap();
    q.enqueue("work", b"x".to_vec()).unwrap();
    q.enqueue("work", b"y".to_vec()).unwrap();

    let zero = q
        .view()
        .list_jobs("work", JobStatus::Pending, None, 0)
        .unwrap();
    assert!(zero.jobs.is_empty());
    assert!(zero.next_cursor.is_none());

    let first = q
        .view()
        .list_jobs("work", JobStatus::Pending, None, 1)
        .unwrap();
    assert_eq!(first.jobs.len(), 1);
    let cursor = first.next_cursor.expect("a second pending entry exists");
    let dead = q
        .view()
        .list_jobs("work", JobStatus::Dead, Some(&cursor), 10)
        .unwrap();
    assert!(dead.jobs.is_empty());
    assert!(dead.next_cursor.is_none());
    q.close().unwrap();
}

#[test]
fn reaper_stale_settlement_after_reaper_requeue_is_rejected() {
    let clock = MockClock::new(1_700_000_000_000);
    let opts = OpenOptions {
        clock: Arc::new(clock.clone()),
        ..OpenOptions::default()
    };
    let q = Queue::open_with_options(make_store(), "test", opts)
        .unwrap();

    let id = q.enqueue("work", b"payload".to_vec()).unwrap();
    let stale = q
        .claim("work", Duration::from_millis(1))
        .unwrap()
        .unwrap();

    clock.advance(Duration::from_millis(2));
    q.reap_now().unwrap();

    let stats = q.stats("work").unwrap();
    assert_eq!(stats.pending, 1);
    assert_eq!(stats.claimed, 0);

    assert!(matches!(q.ack(&stale), Err(Error::ClaimLost)));
    assert!(matches!(
        q.nack(&stale, "late failure"),
        Err(Error::ClaimLost)
    ));
    assert!(matches!(
        q.dead_letter(&stale, "late permanent failure"),
        Err(Error::ClaimLost)
    ));

    assert!(matches!(
        q.renew_lease(&stale, Duration::from_secs(30)),
        Err(Error::ClaimLost)
    ));

    let stats = q.stats("work").unwrap();
    assert_eq!(stats.pending, 1);
    assert_eq!(stats.claimed, 0);
    assert_eq!(stats.done, 0);
    assert_eq!(stats.dead, 0);

    let fresh = q
        .claim("work", Duration::from_secs(30))
        .unwrap()
        .unwrap();
    assert_eq!(fresh.id, id);
    assert_eq!(fresh.attempts, 2);
    q.ack(&fresh).unwrap();

    let stats = q.stats("work").unwrap();
    assert_eq!(stats.pending, 0);
    assert_eq!(stats.claimed, 0);
    assert_eq!(stats.done, 1);
    assert_eq!(stats.dead, 0);

    q.close().unwrap();
}

#[test]
fn reaper_stale_settlement_after_reaper_dead_letter_is_rejected() {
    let clock = MockClock::new(1_700_000_000_000);
    let opts = OpenOptions {
        clock: Arc::new(clock.clone()),
        ..OpenOptions::default()
    };
    let q = Queue::open_with_options(make_store(), "test", opts)
        .unwrap();

    let id = q
        .enqueue_with(
            "work",
            b"payload".to_vec(),
            EnqueueOptions {
                max_attempts: Some(1),
                ..Default::default()
            },
        )
        .unwrap();
    let stale = q
        .claim("work", Duration::from_millis(1))
        .unwrap()
        .unwrap();

    clock.advance(Duration::from_millis(2));
    q.reap_now().unwrap();

    let dead = q.get_job(&id).unwrap().unwrap();
    assert_eq!(dead.status, JobStatus::Dead);
    let stats = q.stats("work").unwrap();
    assert_eq!(stats.pending, 0);
    assert_eq!(stats.claimed, 0);
    assert_eq!(stats.dead, 1);

    assert!(matches!(q.ack(&stale), Err(Error::ClaimLost)));
    assert!(matches!(
        q.nack(&stale, "late failure"),
        Err(Error::ClaimLost)
    ));
    assert!(matches!(
        q.dead_letter(&stale, "late permanent failure"),
        Err(Error::ClaimLost)
    ));

    assert!(matches!(
        q.renew_lease(&stale, Duration::from_secs(30)),
        Err(Error::ClaimLost)
    ));

    let stats = q.stats("work").unwrap();
    assert_eq!(stats.pending, 0);
    assert_eq!(stats.claimed, 0);
    assert_eq!(stats.done, 0);
    assert_eq!(stats.dead, 1);
    assert!(
        q.claim("work", Duration::from_secs(30))
            .unwrap()
            .is_none()
    );

    q.close().unwrap();
}

#[test]
fn reaper_ack_succeeds_on_expired_lease_before_reaper_runs() {
    // Settlement is fenced on the claim token; the claim stays
    // settleable past its lease expiry until the reaper requeues
    // the job.
    let clock = MockClock::new(1_700_000_000_000);
    let opts = OpenOptions {
        clock: Arc::new(clock.clone()),
        ..OpenOptions::default()
    };
    let q = Queue::open_with_options(make_store(), "test", opts)
        .unwrap();

    q.enqueue("work", b"payload".to_vec()).unwrap();
    let job = q
        .claim("work", Duration::from_millis(1))
        .unwrap()
        .unwrap();

    clock.advance(Duration::from_secs(5));

    q.ack(&job).unwrap();

    let stats = q.stats("work").unwrap();
    assert_eq!(stats.pending, 0);
    assert_eq!(stats.claimed, 0);
    assert_eq!(stats.done, 1);
    assert_eq!(stats.dead, 0);
    assert!(
        q.claim("work", Duration::from_secs(30))
            .unwrap()
            .is_none()
    );

    q.close().unwrap();
}

#[test]
fn reaper_test_cancel_persists_across_reaper_requeue() {
    // Claim -> cancel -> drop the job back to pending via the reaper
    // (lease elapsed) -> re-claim sees cancel_requested and a pre-fired token.
    //
    // Disable the auto-reaper so the cancel definitely happens while
    // the job is Claimed; trigger the requeue manually with reap_now.
    let clock = MockClock::new(1_700_000_000_000);
    let opts = OpenOptions {
        clock: Arc::new(clock.clone()),
        reaper_interval: Duration::from_secs(3600),
        ..no_backoff_opts()
    };
    let q = Queue::open_with_options(make_store(), "test", opts)
        .unwrap();

    q.enqueue("work", b"payload".to_vec()).unwrap();
    let job1 = q
        .claim("work", Duration::from_millis(50))
        .unwrap()
        .unwrap();
    let first_token = job1.cancel_token().clone();
    assert_eq!(q.cancel(&job1.id).unwrap(), CancelOutcome::Requested,);
    assert!(first_token.is_cancelled());
    assert!(
        q.get_job(&job1.id).unwrap().unwrap().cancel_requested,
        "cancel_requested must persist on the claimed record",
    );

    // Force lease expiry, then trigger the reaper.
    clock.advance(Duration::from_millis(100));
    q.reap_now().unwrap();

    let job2 = q
        .claim("work", Duration::from_secs(30))
        .unwrap()
        .unwrap();
    assert_eq!(job1.id, job2.id);
    assert!(job2.cancel_requested);
    assert!(
        job2.cancel_token().is_cancelled(),
        "re-claim should surface a pre-cancelled token",
    );

    q.ack(&job2).unwrap();
    q.close().unwrap();
}

#[test]
fn reaper_a_reaped_claim_leaves_no_cancel_token_entry() {
    let clock = MockClock::new(1_700_000_000_000);
    let opts = OpenOptions {
        clock: Arc::new(clock.clone()),
        reaper_interval: Duration::from_secs(3600),
        ..no_backoff_opts()
    };
    let q = Queue::open_with_options(make_store(), "test", opts)
        .unwrap();

    let id = q.enqueue("work", b"payload".to_vec()).unwrap();
    let claim = q
        .claim("work", Duration::from_secs(30))
        .unwrap()
        .unwrap();
    let token = claim.cancel_token().clone();

    clock.advance(Duration::from_secs(31));
    q.reap_now().unwrap();
    assert!(q.state().lease_registry.current("work", &id).is_none());
    assert!(!q.state_mut().lease_registry.cancel("work", &id));
    assert!(!token.is_cancelled());

    // The requeued job holds no entry to fire.
    assert_eq!(q.cancel(&id).unwrap(), CancelOutcome::Removed);
    assert_eq!(q.state().lease_registry.len(), 0);
    q.close().unwrap();
}

#[test]
fn reaper_test_retention_is_per_queue_on_ack_and_sweep() {
    // Two queues sharing one Queue instance, with very different
    // retention policies. The default-config queue ("transient") drops
    // jobs on ack; the per-queue override ("kept") retains them. Then
    // the same background reaper sweep must respect each queue's window.
    let clock = MockClock::new(1_700_000_000_000);
    let reaper_interval = Duration::from_millis(10);
    let kept_retention = Duration::from_millis(50);

    let opts = OpenOptions {
        reaper_interval,
        default_queue_config: QueueConfig {
            keep_done_jobs: None,
            ..QueueConfig::default()
        },
        queue_configs: HashMap::from([(
            "kept".to_string(),
            QueueConfig {
                keep_done_jobs: Some(kept_retention),
                ..QueueConfig::default()
            },
        )]),
        clock: Arc::new(clock.clone()),
        ..OpenOptions::default()
    };
    let q = Queue::open_with_options(make_store(), "test", opts)
        .unwrap();

    let kept_id = q.enqueue("kept", b"a".to_vec()).unwrap();
    let transient_id = q.enqueue("transient", b"b".to_vec()).unwrap();

    let kept_job = q
        .claim("kept", Duration::from_secs(30))
        .unwrap()
        .unwrap();
    let transient_job = q
        .claim("transient", Duration::from_secs(30))
        .unwrap()
        .unwrap();
    q.ack(&kept_job).unwrap();
    q.ack(&transient_job).unwrap();

    // The "transient" queue has no retention: ack dropped the record.
    assert!(
        q.get_job(&transient_id).unwrap().is_none(),
        "queues without keep_done_jobs must drop on ack"
    );
    // The "kept" queue has retention: ack preserved the record.
    assert!(
        q.get_job(&kept_id).unwrap().is_some(),
        "queues with keep_done_jobs must retain on ack"
    );

    // Fire a reaper tick before the retention window has elapsed:
    // the kept record must survive.
    q.tick();
    assert!(
        q.get_job(&kept_id).unwrap().is_some(),
        "reaper sweep before retention elapses must not purge"
    );

    // Advance the test clock past the retention window; the next
    // reaper tick purges the record.
    clock.advance(kept_retention + Duration::from_millis(10));
    q.tick();
    assert!(
        q.get_job(&kept_id).unwrap().is_none(),
        "reaper sweep after retention elapses must purge"
    );

    q.close().unwrap();
}

#[test]
fn reaper_test_dead_retention_is_per_queue() {
    // Two queues with different dead-letter retention windows. The
    // same reaper sweep purges the short-window queue's record while
    // leaving the long-window one intact.
    let clock = MockClock::new(1_700_000_000_000);
    let reaper_interval = Duration::from_millis(10);
    let ephemeral_retention = Duration::from_millis(50);

    let opts = OpenOptions {
        reaper_interval,
        default_queue_config: QueueConfig {
            dead_retention: Some(Duration::from_secs(3600)),
            ..QueueConfig::default()
        },
        queue_configs: HashMap::from([(
            "ephemeral".to_string(),
            QueueConfig {
                dead_retention: Some(ephemeral_retention),
                ..QueueConfig::default()
            },
        )]),
        clock: Arc::new(clock.clone()),
        ..OpenOptions::default()
    };
    let q = Queue::open_with_options(make_store(), "test", opts)
        .unwrap();

    for queue in ["ephemeral", "durable"] {
        q.enqueue_with(
            queue,
            b"x".to_vec(),
            EnqueueOptions {
                max_attempts: Some(1),
                ..Default::default()
            },
        )
        .unwrap();
        let job = q
            .claim(queue, Duration::from_secs(30))
            .unwrap()
            .unwrap();
        q.nack(&job, "fatal").unwrap();
    }

    assert_eq!(q.dead_jobs("ephemeral", None, 100).unwrap().len(), 1);
    assert_eq!(q.dead_jobs("durable", None, 100).unwrap().len(), 1);

    clock.advance(ephemeral_retention + Duration::from_millis(10));
    q.tick();

    assert_eq!(
        q.dead_jobs("ephemeral", None, 100).unwrap().len(),
        0,
        "short-retention queue must be purged"
    );
    assert_eq!(
        q.dead_jobs("durable", None, 100).unwrap().len(),
        1,
        "long-retention queue must be untouched by the same sweep"
    );

    q.close().unwrap();
}

#[test]
fn reaper_test_done_retention_uses_completion_time_not_enqueue_time() {
    // Both the scheduler (`run_at < now_ms`) and the retention sweep
    // (`completed_at < now_ms - retention`) compare against the queue's
    // clock, so virtualising it via `MockClock` is enough to drive
    // both deterministically.
    let initial = 1_700_000_000_000_u64;
    let clock = MockClock::new(initial);
    let reaper_interval = Duration::from_millis(10);
    let retention = Duration::from_millis(50);
    let schedule_delay = Duration::from_millis(220);
    let opts = OpenOptions {
        reaper_interval,
        default_queue_config: QueueConfig {
            keep_done_jobs: Some(retention),
            ..QueueConfig::default()
        },
        clock: Arc::new(clock.clone()),
        ..OpenOptions::default()
    };
    let q = Queue::open_with_options(make_store(), "test", opts)
        .unwrap();

    // Construct `run_at` from the mock clock so it is comparable to
    // the queue's `now_ms` without relying on the system clock.
    let run_at = std::time::UNIX_EPOCH + Duration::from_millis(initial) + schedule_delay;
    let id = q
        .enqueue_with(
            "work",
            b"weekly".to_vec(),
            EnqueueOptions {
                run_at: Some(run_at),
                ..Default::default()
            },
        )
        .unwrap();

    // Advance past the schedule, promote, claim, ack.
    clock.advance(schedule_delay + Duration::from_millis(20));
    q.promote_scheduled_now().unwrap();
    let job = q
        .claim("work", Duration::from_secs(30))
        .unwrap()
        .unwrap();

    let elapsed_since_enqueue = q.now_ms().saturating_sub(job.enqueued_at);
    assert!(
        elapsed_since_enqueue > schedule_delay.as_millis() as u64,
        "enqueued_at should be well over {}ms old (was {elapsed_since_enqueue}ms)",
        schedule_delay.as_millis(),
    );
    q.ack(&job).unwrap();

    // Fire a reaper tick right after ack: completion is fresh
    // relative to the retention window, so the record survives even
    // though `enqueued_at` is now far older than the retention.
    q.tick();
    let kept = q.get_job(&id).unwrap().expect(
        "fresh completion must survive the sweep regardless of how long ago the job was enqueued",
    );
    assert!(
        kept.completed_at.is_some(),
        "ack must stamp completed_at when keep_done_jobs is set"
    );

    // Advance past the retention window; the next reaper tick purges
    // the record.
    clock.advance(retention + Duration::from_millis(10));
    q.tick();
    assert!(q.get_job(&id).unwrap().is_none());

    q.close().unwrap();
}

#[test]
fn reaper_test_dead_retention_sweep_boundary() {
    // Drive a job to dead-letter, then exercise both sides of the
    // retention cutoff with a single configured window: a reaper tick
    // before the cutoff has elapsed must leave the job alone; one
    // after it elapses must purge it (along with its index pointer
    // and the `dead` counter).
    let clock = MockClock::new(1_700_000_000_000);
    let reaper_interval = Duration::from_millis(10);
    let retention = Duration::from_millis(50);
    let opts = OpenOptions {
        reaper_interval,
        default_queue_config: QueueConfig {
            dead_retention: Some(retention),
            ..QueueConfig::default()
        },
        clock: Arc::new(clock.clone()),
        ..OpenOptions::default()
    };
    let q = Queue::open_with_options(make_store(), "test", opts)
        .unwrap();

    q.enqueue_with(
        "work",
        b"payload".to_vec(),
        EnqueueOptions {
            max_attempts: Some(1),
            ..Default::default()
        },
    )
    .unwrap();
    let job = q
        .claim("work", Duration::from_secs(30))
        .unwrap()
        .unwrap();
    let id = job.id.clone();
    q.nack(&job, "fatal").unwrap();

    let dead = q.dead_jobs("work", None, 100).unwrap();
    assert_eq!(dead.len(), 1);
    assert!(dead[0].failed_at.is_some(), "failed_at must be stamped");
    assert_eq!(q.stats("work").unwrap().dead, 1);

    // Fire a reaper tick before the retention cutoff has elapsed:
    // the dead record must survive.
    q.tick();
    assert_eq!(q.dead_jobs("work", None, 100).unwrap().len(), 1);

    // Advance the test clock past the cutoff. The next reaper tick
    // purges the record; the counter and index pointer must also be
    // cleaned up.
    clock.advance(retention + Duration::from_millis(10));
    q.tick();
    assert!(q.dead_jobs("work", None, 100).unwrap().is_empty());
    assert_eq!(
        q.stats("work").unwrap().dead,
        0,
        "dead counter must reflect the sweep"
    );
    assert!(q.get_job(&id).unwrap().is_none());

    q.close().unwrap();
}

#[test]
fn reaper_test_requeue_dead_rejects_stale_record_after_retention_sweep() {
    let clock = MockClock::new(1_700_000_000_000);
    let reaper_interval = Duration::from_millis(10);
    let retention = Duration::from_millis(50);
    let q = Queue::open_with_options(
        make_store(),
        "test",
        OpenOptions {
            reaper_interval,
            default_queue_config: QueueConfig {
                dead_retention: Some(retention),
                ..Default::default()
            },
            clock: Arc::new(clock.clone()),
            ..Default::default()
        },
    )
    .unwrap();

    q.enqueue_with(
        "work",
        b"payload".to_vec(),
        EnqueueOptions {
            max_attempts: Some(1),
            ..Default::default()
        },
    )
    .unwrap();
    let job = q
        .claim("work", Duration::from_secs(30))
        .unwrap()
        .unwrap();
    q.nack(&job, "fatal").unwrap();

    let dead = q.dead_jobs("work", None, 100).unwrap().pop().unwrap();
    clock.advance(retention + Duration::from_millis(10));
    q.tick();

    assert!(q.dead_jobs("work", None, 100).unwrap().is_empty());
    let err = q.requeue_dead_job(dead).unwrap_err();
    assert!(matches!(err, Error::JobNotFound(_)));
    assert_eq!(q.stats("work").unwrap().pending, 0);
    assert_eq!(q.stats("work").unwrap().dead, 0);

    q.close().unwrap();
}

#[test]
fn reaper_done_retention_keeps_the_payload_object_until_the_sweep() {
    let clock = MockClock::new(1_700_000_000_000);
    let reaper_interval = Duration::from_millis(10);
    let retention = Duration::from_millis(20);
    let store = make_store();
    let opts = OpenOptions {
        reaper_interval,
        default_queue_config: QueueConfig {
            keep_done_jobs: Some(retention),
            ..QueueConfig::default()
        },
        clock: Arc::new(clock.clone()),
        payload_offload_threshold: Some(64),
        ..OpenOptions::default()
    };
    let q = Queue::open_with_options(store.clone(), "test", opts)
        .unwrap();

    let payload = vec![9u8; 256];
    let id = q.enqueue("work", payload.clone()).unwrap();
    let job = q
        .claim("work", Duration::from_secs(30))
        .unwrap()
        .unwrap();
    q.ack(&job).unwrap();

    // The done record is kept, so the payload object stays and the
    // record read materializes it.
    assert_eq!(object_count(&store, "test-payloads"), 1);
    let done = q.get_job(&id).unwrap().unwrap();
    assert_eq!(done.payload, payload);

    clock.advance(retention + Duration::from_millis(10));
    q.tick();

    assert!(q.get_job(&id).unwrap().is_none());
    assert_eq!(
        object_count(&store, "test-payloads"),
        0,
        "the retention sweep must delete the payload object with the record"
    );
    q.close().unwrap();
}

#[test]
fn reaper_dead_retention_sweep_deletes_the_payload_object() {
    let clock = MockClock::new(1_700_000_000_000);
    let reaper_interval = Duration::from_millis(10);
    let retention = Duration::from_millis(20);
    let store = make_store();
    let opts = OpenOptions {
        reaper_interval,
        default_queue_config: QueueConfig {
            dead_retention: Some(retention),
            ..QueueConfig::default()
        },
        clock: Arc::new(clock.clone()),
        payload_offload_threshold: Some(64),
        ..OpenOptions::default()
    };
    let q = Queue::open_with_options(store.clone(), "test", opts)
        .unwrap();

    q.enqueue("work", vec![5u8; 256]).unwrap();
    let job = q
        .claim("work", Duration::from_secs(30))
        .unwrap()
        .unwrap();
    q.dead_letter(&job, "permanent").unwrap();
    assert_eq!(object_count(&store, "test-payloads"), 1);

    clock.advance(retention + Duration::from_millis(10));
    q.tick();

    assert!(q.dead_jobs("work", None, 10).unwrap().is_empty());
    assert_eq!(object_count(&store, "test-payloads"), 0);
    q.close().unwrap();
}

#[test]
fn reaper_reaper_dead_letter_preserves_the_payload_object() {
    let clock = MockClock::new(1_700_000_000_000);
    let store = make_store();
    let opts = OpenOptions {
        default_queue_config: QueueConfig {
            max_attempts: 1,
            ..QueueConfig::default()
        },
        clock: Arc::new(clock.clone()),
        payload_offload_threshold: Some(64),
        ..OpenOptions::default()
    };
    let q = Queue::open_with_options(store.clone(), "test", opts)
        .unwrap();

    let payload = vec![2u8; 256];
    let id = q.enqueue("work", payload.clone()).unwrap();
    let job = q
        .claim("work", Duration::from_millis(10))
        .unwrap()
        .unwrap();
    drop(job);
    clock.advance(Duration::from_millis(20));
    q.reap_now().unwrap();

    let dead = q.dead_jobs("work", None, 10).unwrap();
    assert_eq!(dead.len(), 1);
    assert_eq!(dead[0].id, id);
    assert_eq!(dead[0].payload, payload);
    assert_eq!(
        object_count(&store, "test-payloads"),
        1,
        "reaper-driven dead-letter must preserve the payload object"
    );
    q.close().unwrap();
}

#[test]
fn reaper_dead_retention_sweep_removes_attempt_history() {
    let clock = MockClock::new(1_700_000_000_000);
    let reaper_interval = Duration::from_millis(10);
    let retention = Duration::from_millis(20);
    let opts = OpenOptions {
        reaper_interval,
        clock: Arc::new(clock.clone()),
        default_queue_config: QueueConfig {
            dead_retention: Some(retention),
            ..QueueConfig::default()
        },
        ..OpenOptions::default()
    };
    let q = Queue::open_with_options(make_store(), "test", opts)
        .unwrap();
    let id = q.enqueue("work", b"x".to_vec()).unwrap();

    let job = q
        .claim("work", Duration::from_secs(30))
        .unwrap()
        .unwrap();
    q.dead_letter(&job, "failed").unwrap();
    assert_eq!(q.attempt_history(&id).unwrap().len(), 1);

    clock.advance(retention + Duration::from_millis(10));
    q.tick();

    assert!(q.get_job(&id).unwrap().is_none());
    assert!(q.attempt_history(&id).unwrap().is_empty());
    q.close().unwrap();
}

#[test]
fn reaper_done_retention_sweep_removes_attempt_history() {
    let clock = MockClock::new(1_700_000_000_000);
    let reaper_interval = Duration::from_millis(10);
    let retention = Duration::from_millis(20);
    let opts = OpenOptions {
        reaper_interval,
        clock: Arc::new(clock.clone()),
        default_queue_config: QueueConfig {
            keep_done_jobs: Some(retention),
            ..QueueConfig::default()
        },
        ..OpenOptions::default()
    };
    let q = Queue::open_with_options(make_store(), "test", opts)
        .unwrap();
    let id = q.enqueue("work", b"x".to_vec()).unwrap();

    let job = q
        .claim("work", Duration::from_secs(30))
        .unwrap()
        .unwrap();
    q.ack(&job).unwrap();
    assert_eq!(q.attempt_history(&id).unwrap().len(), 1);

    clock.advance(retention + Duration::from_millis(10));
    q.tick();

    assert!(q.get_job(&id).unwrap().is_none());
    assert!(q.attempt_history(&id).unwrap().is_empty());
    q.close().unwrap();
}

#[test]
fn reaper_attempt_history_records_lease_expiries() {
    let clock = MockClock::new(1_700_000_000_000);
    let opts = OpenOptions {
        clock: Arc::new(clock.clone()),
        default_queue_config: QueueConfig {
            max_attempts: 2,
            ..QueueConfig::default()
        },
        ..OpenOptions::default()
    };
    let q = Queue::open_with_options(make_store(), "test", opts)
        .unwrap();
    let id = q.enqueue("work", b"x".to_vec()).unwrap();
    let lease = Duration::from_secs(10);

    q.claim("work", lease).unwrap().unwrap();
    clock.advance(lease + Duration::from_secs(1));
    q.reap_now().unwrap();

    q.claim("work", lease).unwrap().unwrap();
    clock.advance(lease + Duration::from_secs(1));
    q.reap_now().unwrap();

    let history = q.attempt_history(&id).unwrap();
    assert_eq!(history.len(), 2);
    assert_eq!(history[0].outcome, AttemptOutcome::LeaseExpired);
    assert_eq!(history[0].attempt, 1);
    assert_eq!(history[0].error, None);
    assert_eq!(history[1].outcome, AttemptOutcome::DeadLettered);
    assert_eq!(history[1].attempt, 2);
    assert_eq!(history[1].error.as_deref(), Some("lease expired"));
    q.close().unwrap();
}

#[test]
fn reaper_a_claim_held_at_close_is_requeued_at_open() {
    let clock = MockClock::new(1_700_000_000_000);
    let opts = || OpenOptions {
        clock: Arc::new(clock.clone()),
        ..OpenOptions::default()
    };
    let store = make_store();
    let q = Queue::open_with_options(store.clone(), "test", opts())
        .unwrap();
    let id = q.enqueue("work", b"payload".to_vec()).unwrap();
    let claim = q
        .claim("work", Duration::from_secs(30))
        .unwrap()
        .unwrap();
    // Drop the claim without settling it, as a crashed worker would.
    drop(claim);
    q.close().unwrap();

    // A claim present at open belongs to a process that no longer
    // holds the store, so it is requeued immediately, before its
    // lease expires.
    let q = Queue::open_with_options(store, "test", opts())
        .unwrap();
    let job = q.get_job(&id).unwrap().unwrap();
    assert_eq!(job.status, JobStatus::Pending);
    let stats = q.stats("work").unwrap();
    assert_eq!(stats.pending, 1);
    assert_eq!(stats.claimed, 0);
    let history = q.attempt_history(&id).unwrap();
    assert_eq!(history.last().unwrap().outcome, AttemptOutcome::Interrupted);

    // The requeued job is claimable at once: its pending insert is
    // recorded against the restored clean-close bound. The next
    // attempt is consumed by the re-claim.
    let reclaim = q
        .claim("work", Duration::from_secs(30))
        .unwrap()
        .unwrap();
    assert_eq!(reclaim.id, id);
    assert_eq!(reclaim.attempts, 2);
    q.close().unwrap();
}

#[test]
fn reaper_a_claim_out_of_attempts_is_dead_lettered_at_open() {
    let clock = MockClock::new(1_700_000_000_000);
    let opts = || OpenOptions {
        clock: Arc::new(clock.clone()),
        ..OpenOptions::default()
    };
    let store = make_store();
    let q = Queue::open_with_options(store.clone(), "test", opts())
        .unwrap();
    let id = q
        .enqueue_with(
            "work",
            b"payload".to_vec(),
            EnqueueOptions {
                max_attempts: Some(1),
                ..EnqueueOptions::default()
            },
        )
        .unwrap();
    let claim = q
        .claim("work", Duration::from_secs(30))
        .unwrap()
        .unwrap();
    drop(claim);
    q.close().unwrap();

    let q = Queue::open_with_options(store, "test", opts())
        .unwrap();
    let job = q.get_job(&id).unwrap().unwrap();
    assert_eq!(job.status, JobStatus::Dead);
    let stats = q.stats("work").unwrap();
    assert_eq!(stats.dead, 1);
    assert_eq!(stats.claimed, 0);
    q.close().unwrap();
}

#[test]
fn a_promotion_pass_over_an_empty_key_space_leaves_no_read_for_the_next() {
    let initial = 1_700_000_000_000u64;
    let clock = MockClock::new(initial);
    let opts = OpenOptions {
        clock: Arc::new(clock.clone()),
        ..OpenOptions::default()
    };
    let q = Queue::open_with_options(make_store(), "test", opts)
        .unwrap();

    q.promote_scheduled_now().unwrap();
    clock.advance(Duration::from_secs(3_600));
    assert!(q.state_mut().scheduled_bound.begin(clock.now_ms(), 0).is_none());
    q.close().unwrap();
}

#[test]
fn an_enqueue_with_run_at_after_an_empty_pass_is_promoted_when_due() {
    let initial = 1_700_000_000_000u64;
    let clock = MockClock::new(initial);
    let opts = OpenOptions {
        clock: Arc::new(clock.clone()),
        ..OpenOptions::default()
    };
    let q = Queue::open_with_options(make_store(), "test", opts)
        .unwrap();
    q.promote_scheduled_now().unwrap();

    let run_at = std::time::UNIX_EPOCH + Duration::from_millis(initial + 100);
    q.enqueue_with(
        "jobs",
        b"soon".to_vec(),
        EnqueueOptions {
            run_at: Some(run_at),
            ..Default::default()
        },
    )
    .unwrap();
    clock.advance(Duration::from_millis(100));
    q.promote_scheduled_now().unwrap();

    let s = q.view().stats("jobs").unwrap();
    assert_eq!((s.scheduled, s.pending), (0, 1));
    q.close().unwrap();
}

#[test]
fn a_nack_with_backoff_after_an_empty_pass_is_promoted_when_due() {
    let clock = MockClock::new(1_700_000_000_000);
    let opts = OpenOptions {
        clock: Arc::new(clock.clone()),
        default_queue_config: QueueConfig {
            retry_backoff_base: Duration::from_millis(10),
            retry_backoff_max: Duration::from_millis(10),
            ..QueueConfig::default()
        },
        ..OpenOptions::default()
    };
    let q = Queue::open_with_options(make_store(), "test", opts)
        .unwrap();
    q.promote_scheduled_now().unwrap();

    q.enqueue("work", b"payload".to_vec()).unwrap();
    let job = q
        .claim("work", Duration::from_secs(30))
        .unwrap()
        .unwrap();
    q.nack(&job, "boom").unwrap();
    clock.advance(Duration::from_millis(10));
    q.promote_scheduled_now().unwrap();

    let s = q.view().stats("work").unwrap();
    assert_eq!((s.scheduled, s.pending), (0, 1));
    q.close().unwrap();
}

#[test]
fn scheduler_test_enqueue_at_past_is_immediately_pending() {
    let initial = 1_700_000_000_000u64;
    let opts = OpenOptions {
        clock: Arc::new(MockClock::new(initial)),
        ..OpenOptions::default()
    };
    let q = Queue::open_with_options(make_store(), "test", opts)
        .unwrap();

    let run_at = std::time::UNIX_EPOCH + Duration::from_millis(initial - 1_000);
    q.enqueue_with(
        "jobs",
        b"past".to_vec(),
        EnqueueOptions {
            run_at: Some(run_at),
            ..Default::default()
        },
    )
    .unwrap();

    // A past run_at goes straight to pending.
    let job = q.claim("jobs", Duration::from_secs(30)).unwrap();
    assert!(job.is_some());

    q.close().unwrap();
}

#[test]
fn scheduler_test_promote_scheduled_now() {
    let initial = 1_700_000_000_000u64;
    let clock = MockClock::new(initial);
    let opts = OpenOptions {
        clock: Arc::new(clock.clone()),
        ..OpenOptions::default()
    };
    let q = Queue::open_with_options(make_store(), "test", opts)
        .unwrap();

    let run_at = std::time::UNIX_EPOCH + Duration::from_millis(initial + 100);
    let id = q
        .enqueue_with(
            "jobs",
            b"soon".to_vec(),
            EnqueueOptions {
                run_at: Some(run_at),
                ..Default::default()
            },
        )
        .unwrap();

    // Not yet promoted.
    let s = q.view().stats("jobs").unwrap();
    assert_eq!(s.scheduled, 1);
    assert_eq!(s.pending, 0);
    assert!(
        q.claim("jobs", Duration::from_secs(30))
            .unwrap()
            .is_none()
    );

    // Advance past `run_at` and trigger a manual promotion.
    clock.advance(Duration::from_millis(200));
    q.promote_scheduled_now().unwrap();

    let s = q.view().stats("jobs").unwrap();
    assert_eq!(s.scheduled, 0);
    assert_eq!(s.pending, 1);

    let job = q
        .claim("jobs", Duration::from_secs(30))
        .unwrap()
        .unwrap();
    assert_eq!(job.id, id);

    q.close().unwrap();
}

#[test]
fn scheduler_test_wake_scheduled_promotes_before_run_at() {
    let initial = 1_700_000_000_000u64;
    let clock = MockClock::new(initial);
    let opts = OpenOptions {
        clock: Arc::new(clock.clone()),
        ..OpenOptions::default()
    };
    let q = Queue::open_with_options(make_store(), "test", opts)
        .unwrap();

    let run_at = std::time::UNIX_EPOCH + Duration::from_millis(initial + 60_000);
    let id = q
        .enqueue_with(
            "jobs",
            b"waiting".to_vec(),
            EnqueueOptions {
                run_at: Some(run_at),
                ..Default::default()
            },
        )
        .unwrap();

    assert!(
        q.claim("jobs", Duration::from_secs(30))
            .unwrap()
            .is_none()
    );

    let outcome = q
        .wake_scheduled(&id, Some(b"signal".to_vec()))
        .unwrap();
    assert_eq!(outcome, WakeOutcome::Woken);

    let s = q.view().stats("jobs").unwrap();
    assert_eq!(s.scheduled, 0);
    assert_eq!(s.pending, 1);

    let job = q
        .claim("jobs", Duration::from_secs(30))
        .unwrap()
        .unwrap();
    assert_eq!(job.id, id);
    assert_eq!(job.wake_payload.as_deref(), Some(b"signal".as_slice()));
    assert_eq!(job.woken_at, Some(initial));
    assert!(job.run_at.is_none());

    // A wake without a payload leaves `wake_payload` unset.
    let silent = q
        .enqueue_with(
            "jobs",
            b"waiting".to_vec(),
            EnqueueOptions {
                run_at: Some(run_at),
                ..Default::default()
            },
        )
        .unwrap();
    assert_eq!(
        q.wake_scheduled(&silent, None).unwrap(),
        WakeOutcome::Woken
    );
    let job = q
        .claim("jobs", Duration::from_secs(30))
        .unwrap()
        .unwrap();
    assert_eq!(job.id, silent);
    assert!(job.wake_payload.is_none());
    assert_eq!(job.woken_at, Some(initial));

    q.close().unwrap();
}

#[test]
fn scheduler_test_wake_scheduled_non_scheduled_outcomes() {
    let q = Queue::open(make_store(), "test").unwrap();

    let id = q.enqueue("jobs", b"p".to_vec()).unwrap();
    assert_eq!(
        q.wake_scheduled(&id, None).unwrap(),
        WakeOutcome::NotScheduled
    );

    let job = q
        .claim("jobs", Duration::from_secs(30))
        .unwrap()
        .unwrap();
    assert_eq!(
        q.wake_scheduled(&job.id, None).unwrap(),
        WakeOutcome::NotScheduled
    );

    assert_eq!(
        q.wake_scheduled("01ARZ3NDEKTSV4RRFFQ69G5FAV", None)
            .unwrap(),
        WakeOutcome::NotFound
    );

    q.close().unwrap();
}

#[test]
fn scheduler_test_wake_scheduled_after_cancel_is_not_found() {
    let initial = 1_700_000_000_000u64;
    let clock = MockClock::new(initial);
    let opts = OpenOptions {
        clock: Arc::new(clock.clone()),
        ..OpenOptions::default()
    };
    let q = Queue::open_with_options(make_store(), "test", opts)
        .unwrap();

    let run_at = std::time::UNIX_EPOCH + Duration::from_millis(initial + 60_000);
    let id = q
        .enqueue_with(
            "jobs",
            b"waiting".to_vec(),
            EnqueueOptions {
                run_at: Some(run_at),
                ..Default::default()
            },
        )
        .unwrap();

    assert_eq!(q.cancel(&id).unwrap(), CancelOutcome::Removed);
    assert_eq!(
        q.wake_scheduled(&id, None).unwrap(),
        WakeOutcome::NotFound
    );

    q.close().unwrap();
}

#[test]
fn scheduler_test_wake_scheduled_after_promotion_is_not_scheduled() {
    let initial = 1_700_000_000_000u64;
    let clock = MockClock::new(initial);
    let opts = OpenOptions {
        clock: Arc::new(clock.clone()),
        ..OpenOptions::default()
    };
    let q = Queue::open_with_options(make_store(), "test", opts)
        .unwrap();

    let run_at = std::time::UNIX_EPOCH + Duration::from_millis(initial + 100);
    let id = q
        .enqueue_with(
            "jobs",
            b"soon".to_vec(),
            EnqueueOptions {
                run_at: Some(run_at),
                ..Default::default()
            },
        )
        .unwrap();

    clock.advance(Duration::from_millis(200));
    q.promote_scheduled_now().unwrap();

    assert_eq!(
        q.wake_scheduled(&id, Some(b"late".to_vec())).unwrap(),
        WakeOutcome::NotScheduled
    );

    let job = q
        .claim("jobs", Duration::from_secs(30))
        .unwrap()
        .unwrap();
    assert!(job.wake_payload.is_none());
    assert!(job.woken_at.is_none());

    q.close().unwrap();
}

#[test]
fn scheduler_test_wake_payload_persists_across_redelivery() {
    let initial = 1_700_000_000_000u64;
    let clock = MockClock::new(initial);
    let opts = OpenOptions {
        clock: Arc::new(clock.clone()),
        ..OpenOptions::default()
    };
    let q = Queue::open_with_options(make_store(), "test", opts)
        .unwrap();

    let run_at = std::time::UNIX_EPOCH + Duration::from_millis(initial + 60_000);
    let id = q
        .enqueue_with(
            "jobs",
            b"waiting".to_vec(),
            EnqueueOptions {
                run_at: Some(run_at),
                ..Default::default()
            },
        )
        .unwrap();

    assert_eq!(
        q.wake_scheduled(&id, Some(b"signal".to_vec()))
            .unwrap(),
        WakeOutcome::Woken
    );

    let job = q
        .claim("jobs", Duration::from_secs(30))
        .unwrap()
        .unwrap();
    q.nack(&job, "worker failed").unwrap();

    // The retry backoff moves the job back to `scheduled`; promote it
    // and verify the redelivered record still carries the wake payload.
    clock.advance(Duration::from_secs(5));
    q.promote_scheduled_now().unwrap();

    let job = q
        .claim("jobs", Duration::from_secs(30))
        .unwrap()
        .unwrap();
    assert_eq!(job.id, id);
    assert_eq!(job.attempts, 2);
    assert_eq!(job.wake_payload.as_deref(), Some(b"signal".as_slice()));
    assert_eq!(job.woken_at, Some(initial));

    q.close().unwrap();
}

#[test]
fn scheduler_test_scheduled_job_preserves_priority() {
    let initial = 1_700_000_000_000u64;
    let clock = MockClock::new(initial);
    let opts = OpenOptions {
        clock: Arc::new(clock.clone()),
        ..OpenOptions::default()
    };
    let q = Queue::open_with_options(make_store(), "test", opts)
        .unwrap();

    let run_at = std::time::UNIX_EPOCH + Duration::from_millis(initial + 1);
    q.enqueue_with(
        "jobs",
        b"normal".to_vec(),
        EnqueueOptions {
            run_at: Some(run_at),
            ..Default::default()
        },
    )
    .unwrap();
    // Enqueue a high-priority immediate job after the scheduled one.
    q.enqueue_with(
        "jobs",
        b"high".to_vec(),
        EnqueueOptions {
            priority: Some(PRIORITY_HIGH),
            ..Default::default()
        },
    )
    .unwrap();

    clock.advance(Duration::from_millis(5));
    q.promote_scheduled_now().unwrap();

    // High-priority should come first even though scheduled was enqueued first.
    let j1 = q
        .claim("jobs", Duration::from_secs(30))
        .unwrap()
        .unwrap();
    assert_eq!(j1.payload, b"high");

    let j2 = q
        .claim("jobs", Duration::from_secs(30))
        .unwrap()
        .unwrap();
    assert_eq!(j2.payload, b"normal");

    q.close().unwrap();
}

#[test]
fn scheduler_test_nack_backoff_promoted_after_run_at() {
    let clock = MockClock::new(1_700_000_000_000);
    let opts = OpenOptions {
        clock: Arc::new(clock.clone()),
        default_queue_config: QueueConfig {
            retry_backoff_base: Duration::from_millis(10),
            retry_backoff_max: Duration::from_millis(10),
            ..QueueConfig::default()
        },
        ..OpenOptions::default()
    };
    let q = Queue::open_with_options(make_store(), "test", opts)
        .unwrap();

    q.enqueue_with(
        "work",
        b"payload".to_vec(),
        EnqueueOptions {
            max_attempts: Some(5),
            ..Default::default()
        },
    )
    .unwrap();
    let job = q
        .claim("work", Duration::from_secs(30))
        .unwrap()
        .unwrap();
    let id = job.id.clone();
    q.nack(&job, "boom").unwrap();

    // The job waits in the scheduled key space until the backoff
    // elapses.
    let s = q.view().stats("work").unwrap();
    assert_eq!(s.pending, 0);
    assert_eq!(s.claimed, 0);
    assert_eq!(s.scheduled, 1);
    assert!(
        q.claim("work", Duration::from_secs(30))
            .unwrap()
            .is_none()
    );

    // Advance past the backoff and trigger promotion.
    clock.advance(Duration::from_millis(20));
    q.promote_scheduled_now().unwrap();

    let retried = q
        .claim("work", Duration::from_secs(30))
        .unwrap()
        .unwrap();
    assert_eq!(retried.id, id);
    assert_eq!(retried.attempts, 2);
    assert_eq!(retried.last_error.as_deref(), Some("boom"));

    q.close().unwrap();
}

#[test]
fn scheduler_scheduled_job_offloads_and_materializes_after_promotion() {
    let initial = 1_700_000_000_000;
    let clock = MockClock::new(initial);
    let store = make_store();
    let opts = OpenOptions {
        clock: Arc::new(clock.clone()),
        payload_offload_threshold: Some(64),
        ..OpenOptions::default()
    };
    let q = Queue::open_with_options(store.clone(), "test", opts)
        .unwrap();

    let payload = vec![7u8; 256];
    let run_at = std::time::UNIX_EPOCH + Duration::from_millis(initial + 60_000);
    let id = q
        .enqueue_with(
            "work",
            payload.clone(),
            EnqueueOptions {
                run_at: Some(run_at),
                ..EnqueueOptions::default()
            },
        )
        .unwrap();

    // The payload offloads at enqueue even though the record lands
    // in the scheduled key space.
    assert_eq!(object_count(&store, "test-payloads"), 1);
    let scheduled = q.view().get_job(&id).unwrap().unwrap();
    assert_eq!(scheduled.status, JobStatus::Scheduled);
    assert_eq!(scheduled.payload, payload);

    clock.advance(Duration::from_millis(60_001));
    q.promote_scheduled_now().unwrap();

    // Promotion moves the record without touching the object; the
    // claim materializes the payload.
    assert_eq!(object_count(&store, "test-payloads"), 1);
    let job = q
        .claim("work", Duration::from_secs(30))
        .unwrap()
        .unwrap();
    assert_eq!(job.payload, payload);
    q.ack(&job).unwrap();
    assert_eq!(object_count(&store, "test-payloads"), 0);
    q.close().unwrap();
}

// Every claimed record must hold a registry entry; a record
// without one is invisible to the reaper until the next open.
fn assert_every_claim_has_a_lease_entry(q: &Queue) {
    let mut claims = 0;
    let rows = q.scan(&tag_prefix(KeyTag::Claimed), &KeyBound::Unbounded, &KeyBound::Unbounded);
    for (_, value) in rows {
        let Val::Record(job) = value else {
            panic!("a claimed record does not decode");
        };
        assert!(
            q.state().lease_registry.current(&job.queue, &job.id).is_some(),
            "no lease entry for {}/{}",
            job.queue,
            job.id
        );
        claims += 1;
    }
    assert!(claims > 0, "no claims to check");
}

#[test]
fn cursor_bound_persists_across_a_clean_close() {
    let store = make_store();
    let lease = Duration::from_secs(5);
    let q = Queue::open(store.clone(), "test").unwrap();
    q.enqueue("work", b"first".to_vec()).unwrap();
    q.enqueue("work", b"second".to_vec()).unwrap();
    let first = q.claim("work", lease).unwrap().unwrap();
    q.ack(&first).unwrap();
    q.close().unwrap();

    let q = Queue::open(store, "test").unwrap();
    let scan = q.state().claim_cursor.begin_claim("work");
    assert!(scan.scan_from.is_some());
    assert!(!scan.known_empty);
    assert!(
        q.get(&cursor_key("work")).is_none(),
        "the cursor record is consumed at open",
    );

    let second = q.claim("work", lease).unwrap().unwrap();
    assert_eq!(second.payload, b"second");
    q.ack(&second).unwrap();
    q.close().unwrap();
}

#[test]
fn reaper_reaping_leaves_no_claim_state() {
    let clock = MockClock::new(1_700_000_000_000);
    let opts = OpenOptions {
        clock: Arc::new(clock.clone()),
        ..OpenOptions::default()
    };
    let q = Queue::open_with_options(make_store(), "test", opts).unwrap();

    // Two jobs, one with retries left and one out of attempts, so the
    // requeue and dead-letter branches are both covered.
    let retried = q.enqueue("work", b"a".to_vec()).unwrap();
    let doomed = q
        .enqueue_with(
            "work",
            b"b".to_vec(),
            EnqueueOptions {
                max_attempts: Some(1),
                ..EnqueueOptions::default()
            },
        )
        .unwrap();
    let claimed = q.claim_batch("work", 2, Duration::from_secs(30)).unwrap();
    assert_eq!(claimed.len(), 2);

    clock.advance(Duration::from_secs(31));
    q.reap_now().unwrap();

    for id in [&retried, &doomed] {
        assert!(q.state().lease_registry.current("work", id).is_none());
        assert!(q.get(&claimed_key("work", id)).is_none());
    }
    let stats = q.stats("work").unwrap();
    assert_eq!(stats.claimed, 0);
    assert_eq!(stats.pending, 1);
    assert_eq!(stats.dead, 1);

    q.close().unwrap();
}

#[test]
fn reaper_an_unreapable_job_does_not_block_the_leases_behind_it() {
    let clock = MockClock::new(1_700_000_000_000);
    let opts = OpenOptions {
        clock: Arc::new(clock.clone()),
        ..OpenOptions::default()
    };
    let q = Queue::open_with_options(make_store(), "test", opts).unwrap();

    let poison = q.enqueue("work", b"a".to_vec()).unwrap();
    let healthy = q.enqueue("work", b"b".to_vec()).unwrap();
    let claims = q.claim_batch("work", 2, Duration::from_secs(30)).unwrap();
    assert_eq!(claims.len(), 2);

    // The poisoned record sorts first, both jobs sharing an expiry.
    q.store
        .borrow_mut()
        .rows
        .insert(claimed_key("work", &poison), Val::Bytes(b"not messagepack".to_vec()));

    clock.advance(Duration::from_secs(31));
    q.reap_now().unwrap();

    assert_eq!(q.get_job(&healthy).unwrap().unwrap().status, JobStatus::Pending);
    // The poisoned job's entry is kept for a later tick; the
    // healthy job's was removed by its requeue.
    assert_eq!(q.state().lease_registry.len(), 1);
    q.close().unwrap();
}

#[test]
fn external_payload_deletion_surfaces_payload_missing() {
    let store = make_store();
    let q = Queue::open_with_options(store.clone(), "test", offload_opts()).unwrap();

    let id = q.enqueue("work", vec![1u8; 256]).unwrap();
    assert_eq!(object_count(&store, "test-payloads"), 1);
    store.borrow_mut().objects.clear();

    // The record is live, so the missing object is a real loss.
    let err = q.get_job(&id).unwrap_err();
    assert!(matches!(err, Error::PayloadMissing { id: ref e } if *e == id));

    q.close().unwrap();
}

#[test]
fn jobs_cross_page_boundaries_in_listing_order() {
    let q = Queue::open(make_store(), "test").unwrap();
    let mut ids = Vec::new();
    for i in 0..5u8 {
        ids.push(q.enqueue("alpha", vec![i]).unwrap());
    }
    q.enqueue("beta", b"x".to_vec()).unwrap();

    let mut listed = Vec::new();
    let mut cursor: Option<Vec<u8>> = None;
    loop {
        let page =
            q.view().list_jobs("alpha", JobStatus::Pending, cursor.as_deref(), 2).unwrap();
        listed.extend(page.jobs.into_iter().map(|job| job.id));
        cursor = page.next_cursor;
        if cursor.is_none() {
            break;
        }
    }
    assert_eq!(listed, ids);
}

fn kv_keys(q: &Queue, prefix: &[u8], start: KeyBound, page_size: usize) -> Vec<Vec<u8>> {
    let mut keys = Vec::new();
    let mut start = start;
    loop {
        let page = q.kv_range(prefix, start, KeyBound::Unbounded, page_size).unwrap();
        assert_eq!(page.more, page.next_cursor.is_some());
        keys.extend(page.entries.into_iter().map(|(key, _)| key));
        match page.next_cursor {
            Some(last) => start = KeyBound::Excluded(last),
            None => return keys,
        }
    }
}

#[test]
fn kv_entries_cross_page_boundaries_in_key_order() {
    let q = Queue::open(make_store(), "test").unwrap();
    for i in 0..5u8 {
        q.kv_put(&[b'p', b'/', b'0' + i], b"v").unwrap();
    }
    q.kv_put(b"q/0", b"v").unwrap();

    let keys = kv_keys(&q, b"p/", KeyBound::Unbounded, 2);
    let expected: Vec<Vec<u8>> = (0..5u8).map(|i| vec![b'p', b'/', b'0' + i]).collect();
    assert_eq!(keys, expected);

    let from_third = kv_keys(&q, b"p/", KeyBound::Included(b"p/2".to_vec()), 2);
    assert_eq!(from_third, expected[2..]);
}

#[test]
fn test_wait_for_completion_wakes_on_ack() {
    // Default retention deletes the record on ack; the waiter
    // receives it from the settlement.
    let q = Queue::open(make_store(), "test").unwrap();
    let id = q.enqueue("work", b"payload".to_vec()).unwrap();
    assert!(q.delivered(&id).is_none());

    let job = q.claim("work", Duration::from_secs(30)).unwrap().unwrap();
    q.ack(&job).unwrap();

    match q.delivered(&id).unwrap() {
        WaitOutcome::Done(record) => {
            assert_eq!(record.id, id);
            assert_eq!(record.status, JobStatus::Done);
            assert!(record.completed_at.is_some());
            assert_eq!(record.payload, b"payload");
        }
        other => panic!("expected Done(record), got {other:?}"),
    }
    assert!(q.get_job(&id).unwrap().is_none());
}

#[test]
fn test_wait_for_completion_wakes_on_exhausted_nack() {
    let opts = OpenOptions {
        default_queue_config: QueueConfig {
            max_attempts: 1,
            ..QueueConfig::default()
        },
        ..OpenOptions::default()
    };
    let q = Queue::open_with_options(make_store(), "test", opts).unwrap();
    let id = q.enqueue("work", b"payload".to_vec()).unwrap();
    assert!(q.delivered(&id).is_none());

    let job = q.claim("work", Duration::from_secs(30)).unwrap().unwrap();
    q.nack(&job, "transient").unwrap();

    match q.delivered(&id).unwrap() {
        WaitOutcome::Dead(record) => {
            assert_eq!(record.id, id);
            assert_eq!(record.status, JobStatus::Dead);
            assert_eq!(record.last_error.as_deref(), Some("transient"));
        }
        other => panic!("expected Dead(record), got {other:?}"),
    }
}

#[test]
fn test_wait_for_completion_wakes_on_cancel_removed() {
    let q = Queue::open(make_store(), "test").unwrap();
    let id = q.enqueue("work", b"payload".to_vec()).unwrap();
    assert!(q.delivered(&id).is_none());

    assert_eq!(q.cancel(&id).unwrap(), CancelOutcome::Removed);

    assert!(matches!(q.delivered(&id).unwrap(), WaitOutcome::Cancelled));
    assert!(q.get_job(&id).unwrap().is_none());
}

#[test]
fn test_wait_for_completion_does_not_wake_on_cancel_requested() {
    // A `Claimed` cancel fires the token but the job is still in
    // flight; the wait continues until the worker settles the claim.
    let q = Queue::open(make_store(), "test").unwrap();
    q.enqueue("work", b"payload".to_vec()).unwrap();
    let job = q.claim("work", Duration::from_secs(30)).unwrap().unwrap();
    let id = job.id.clone();
    assert!(q.delivered(&id).is_none());

    assert_eq!(q.cancel(&id).unwrap(), CancelOutcome::Requested);
    assert!(q.delivered(&id).is_none());

    q.ack(&job).unwrap();
    assert!(matches!(q.delivered(&id).unwrap(), WaitOutcome::Done(_)));
}

#[test]
fn test_wait_for_completion_delivers_offloaded_payloads_inline() {
    // Covers the three settlements that hold a stored record: ack,
    // worker dead-letter and reaper dead-letter.
    let clock = Arc::new(MockClock::new(1_000_000));
    let opts = OpenOptions {
        reaper_interval: Duration::from_secs(3600),
        clock: clock.clone(),
        default_queue_config: QueueConfig {
            max_attempts: 1,
            ..offload_opts().default_queue_config
        },
        ..offload_opts()
    };
    let q = Queue::open_with_options(make_store(), "test", opts).unwrap();
    let payload = vec![7u8; 256];

    let id = q.enqueue("work", payload.clone()).unwrap();
    let job = q.claim("work", Duration::from_secs(10)).unwrap().unwrap();
    assert!(job.payload_ref.is_some());
    q.ack(&job).unwrap();
    match q.delivered(&id).unwrap() {
        WaitOutcome::Done(record) => assert_eq!(record.payload, payload),
        other => panic!("expected Done(record), got {other:?}"),
    }

    let id = q.enqueue("work", payload.clone()).unwrap();
    let job = q.claim("work", Duration::from_secs(10)).unwrap().unwrap();
    q.dead_letter(&job, "permanent").unwrap();
    match q.delivered(&id).unwrap() {
        WaitOutcome::Dead(record) => assert_eq!(record.payload, payload),
        other => panic!("expected Dead(record), got {other:?}"),
    }

    let id = q.enqueue("work", payload.clone()).unwrap();
    let job = q.claim("work", Duration::from_secs(10)).unwrap().unwrap();
    drop(job);
    clock.advance(Duration::from_secs(11));
    q.reap_now().unwrap();
    match q.delivered(&id).unwrap() {
        WaitOutcome::Dead(record) => {
            assert_eq!(record.payload, payload);
            assert_eq!(record.last_error.as_deref(), Some("lease expired"));
        }
        other => panic!("expected Dead(record), got {other:?}"),
    }
}

#[test]
fn test_wait_for_completion_reports_a_removal_that_races_the_read() {
    // An outcome delivered after the registration takes precedence
    // over `NotFound` when the record is gone at the read.
    let q = Queue::open(make_store(), "test").unwrap();
    let id = q.enqueue("work", b"payload".to_vec()).unwrap();
    assert_eq!(q.cancel(&id).unwrap(), CancelOutcome::Removed);
    assert!(matches!(wait_start(q.get_job(&id).unwrap()), WaitStart::Absent));
    assert!(matches!(absent_outcome(q.delivered(&id)), WaitOutcome::Cancelled));
    assert!(matches!(absent_outcome(q.delivered(&id)), WaitOutcome::NotFound));
}

struct PermanentFailWorker;

impl Worker for PermanentFailWorker {
    fn process_with_effects(
        &self,
        _job: &JobRecord,
        _lease: &LeaseHandle,
    ) -> Result<taquba::SettlementEffects, WorkerError> {
        Err(WorkerError::Permanent(PermanentFailure::new("HTTP 410 Gone".to_string())))
    }
}

#[test]
fn test_run_worker_dead_letters_on_permanent_failure() {
    // A Worker returning PermanentFailure should dead-letter immediately,
    // skipping the retry/backoff path that a plain error takes.
    let q = Queue::open(make_store(), "test").unwrap();
    let id = q.enqueue("work", b"payload".to_vec()).unwrap();

    run_worker(&q, "work", &PermanentFailWorker, || q.stats("work").unwrap().dead > 0);

    let job = q.get_job(&id).unwrap().unwrap();
    assert_eq!(job.status, JobStatus::Dead);
    assert_eq!(job.attempts, 1, "PermanentFailure should not consume retries");
    assert_eq!(job.last_error.as_deref(), Some("HTTP 410 Gone"));
}

struct ChainingWorker {
    processed: Cell<usize>,
}

impl Worker for ChainingWorker {
    fn process_with_effects(
        &self,
        job: &JobRecord,
        _lease: &LeaseHandle,
    ) -> Result<taquba::SettlementEffects, WorkerError> {
        self.processed.set(self.processed.get() + 1);
        if job.payload == b"first" {
            let effects = SettlementEffects {
                enqueues: vec![EnqueueRequest {
                    queue: job.queue.clone(),
                    payload: b"second".to_vec(),
                    options: EnqueueOptions::default(),
                }],
                ..SettlementEffects::default()
            };
            Ok(effects.into())
        } else {
            Ok(taquba::SettlementEffects::default())
        }
    }
}

#[test]
fn worker_effects_chain_a_follow_up_job() {
    let queue = Queue::open(make_store(), "test").unwrap();
    queue.enqueue("work", b"first".to_vec()).unwrap();

    let worker = ChainingWorker { processed: Cell::new(0) };
    run_worker(&queue, "work", &worker, || worker.processed.get() >= 2);

    assert_eq!(worker.processed.get(), 2);
    let stats = queue.stats("work").unwrap();
    assert_eq!(stats.pending, 0);
    assert_eq!(stats.done, 2);
    queue.close().unwrap();
}

struct LeaseLosingWorker<'a> {
    queue: &'a Queue,
    clock: MockClock,
    lease: Duration,
    calls: Cell<usize>,
}

impl Worker for LeaseLosingWorker<'_> {
    fn process_with_effects(
        &self,
        _job: &JobRecord,
        _lease: &LeaseHandle,
    ) -> Result<taquba::SettlementEffects, WorkerError> {
        self.calls.set(self.calls.get() + 1);
        if self.calls.get() == 1 {
            self.clock.advance(self.lease + Duration::from_secs(1));
            self.queue.reap_now().unwrap();
        }
        Ok(taquba::SettlementEffects::default())
    }
}

#[test]
fn worker_loop_survives_settlement_on_a_lost_claim() {
    let clock = MockClock::new(1_700_000_000_000);
    let lease = Duration::from_secs(30);
    let opts = OpenOptions {
        clock: Arc::new(clock.clone()),
        default_queue_config: QueueConfig {
            lease_duration: lease,
            ..QueueConfig::default()
        },
        ..OpenOptions::default()
    };
    let queue = Queue::open_with_options(make_store(), "test", opts).unwrap();
    queue.enqueue("work", b"job".to_vec()).unwrap();

    let worker = LeaseLosingWorker { queue: &queue, clock, lease, calls: Cell::new(0) };
    run_worker(&queue, "work", &worker, || worker.calls.get() >= 2);

    // The first attempt's settlement lost the claim; the loop kept
    // running and the redelivered attempt settled the job.
    assert_eq!(worker.calls.get(), 2);
    let stats = queue.stats("work").unwrap();
    assert_eq!(stats.pending, 0);
    assert_eq!(stats.claimed, 0);
    assert_eq!(stats.done, 1);
}

#[test]
fn concurrent_worker_fills_capacity_from_a_backlog() {
    let queue = Queue::open(make_store(), "test").unwrap();
    queue.enqueue_batch("work", vec![vec![0u8; 8]; 10]).unwrap();

    let mut pool = WorkerPool::new(4);
    let mut running: Vec<Claim> = Vec::new();
    let mut processed = 0;
    let mut max_in_flight = 0;
    loop {
        match pool.next() {
            PoolAction::Claim(free) => {
                let claims =
                    queue.claim_batch("work", free, Duration::from_secs(30)).unwrap();
                pool.claimed(claims.len(), false);
                running.extend(claims);
                max_in_flight = max_in_flight.max(running.len());
            }
            PoolAction::Wait => {
                pool.waited(processed == 10);
            }
            PoolAction::AwaitSlot | PoolAction::Drain => {
                queue.ack(&running.remove(0)).unwrap();
                processed += 1;
                pool.ended();
            }
            PoolAction::Finished => break,
        }
        if processed + running.len() == 10 && !running.is_empty() && matches!(pool.next(), PoolAction::Wait) {
            queue.ack(&running.remove(0)).unwrap();
            processed += 1;
            pool.ended();
        }
    }

    assert_eq!(processed, 10);
    assert_eq!(
        max_in_flight, 4,
        "a batch claim fills the free capacity without exceeding it",
    );
}

struct EchoWorker;

impl Worker for EchoWorker {
    fn process_with_effects(
        &self,
        _job: &JobRecord,
        _lease: &LeaseHandle,
    ) -> Result<taquba::SettlementEffects, WorkerError> {
        Ok(taquba::SettlementEffects::default())
    }
}

#[test]
fn test_worker_trait() {
    let q = Queue::open(make_store(), "test").unwrap();
    q.enqueue("work", b"hello".to_vec()).unwrap();

    // Wait for the queue to drain, then signal shutdown.
    run_worker(&q, "work", &EchoWorker, || {
        let s = q.stats("work").unwrap();
        s.pending == 0 && s.claimed == 0
    });

    // Job should now be done, queue empty
    assert!(q.claim("work", Duration::from_secs(30)).unwrap().is_none());
}

/// A worker that takes 100ms to process; shutdown is requested once its claim
/// is seen, while the job is in flight.
struct SlowWorker<'a> {
    queue: &'a Queue,
    clock: MockClock,
    shutdown: Cell<bool>,
    finished: Cell<bool>,
}

impl Worker for SlowWorker<'_> {
    fn process_with_effects(
        &self,
        _job: &JobRecord,
        _lease: &LeaseHandle,
    ) -> Result<taquba::SettlementEffects, WorkerError> {
        assert_eq!(self.queue.stats("work").unwrap().claimed, 1);
        self.shutdown.set(true);
        self.clock.advance(Duration::from_millis(100));
        self.finished.set(true);
        Ok(taquba::SettlementEffects::default())
    }
}

#[test]
fn test_worker_finishes_in_flight_job_on_shutdown() {
    let clock = MockClock::new(1_700_000_000_000);
    let opts = OpenOptions { clock: Arc::new(clock.clone()), ..OpenOptions::default() };
    let q = Queue::open_with_options(make_store(), "test", opts).unwrap();
    q.enqueue("work", b"x".to_vec()).unwrap();

    let worker = SlowWorker {
        queue: &q,
        clock,
        shutdown: Cell::new(false),
        finished: Cell::new(false),
    };
    run_worker(&q, "work", &worker, || worker.shutdown.get());

    assert!(worker.finished.get(), "in-flight job must finish before shutdown returns");
    // And the job was acked, not left in claimed: for the reaper.
    assert_eq!(q.stats("work").unwrap().claimed, 0);
    assert_eq!(q.stats("work").unwrap().done, 1);
}

struct RenewingWorker<'a> {
    queue: &'a Queue,
    clock: MockClock,
}

impl Worker for RenewingWorker<'_> {
    fn process_with_effects(
        &self,
        _job: &JobRecord,
        lease: &LeaseHandle,
    ) -> Result<taquba::SettlementEffects, WorkerError> {
        let now = self.queue.now_ms();
        lease
            .ensure_at_least(
                &mut self.queue.state_mut().lease_registry,
                false,
                now,
                span(Duration::from_secs(60)),
            )
            .unwrap();
        self.clock.advance(Duration::from_secs(2));
        self.queue.reap_now().unwrap();
        Ok(taquba::SettlementEffects::default())
    }
}

#[test]
fn worker_process_can_renew_its_own_lease() {
    let clock = MockClock::new(1_700_000_000_000);
    let opts = OpenOptions {
        clock: Arc::new(clock.clone()),
        default_queue_config: QueueConfig {
            lease_duration: Duration::from_secs(1),
            ..QueueConfig::default()
        },
        ..OpenOptions::default()
    };
    let q = Queue::open_with_options(make_store(), "test", opts).unwrap();
    q.enqueue("work", b"x".to_vec()).unwrap();

    let worker = RenewingWorker { queue: &q, clock: clock.clone() };
    run_worker(&q, "work", &worker, || true);

    let stats = q.stats("work").unwrap();
    assert_eq!(stats.done, 1, "the ack after a renewal must succeed");
    assert_eq!(stats.pending, 0, "the renewed job must not be requeued");
    assert_eq!(stats.claimed, 0);
}

#[test]
fn test_claim_with_wait_wakes_or_times_out() {
    let clock = MockClock::new(1_700_000_000_000);
    let opts = OpenOptions { clock: Arc::new(clock.clone()), ..OpenOptions::default() };
    let q = Queue::open_with_options(make_store(), "test", opts).unwrap();
    let lease = Duration::from_secs(30);

    // Idle queue with a short max_wait: returns None.
    let timed_out = q
        .claim_with_wait("work", lease, Duration::from_millis(50), |left| clock.advance(left))
        .unwrap();
    assert!(timed_out.is_none());

    // Live wakeup: a waiter with a long max_wait and an enqueue, expect
    // a fast resolution.
    let start = clock.now_ms();
    let job = q
        .claim_with_wait("work", lease, Duration::from_secs(10), |left| {
            assert_eq!(left, Duration::from_secs(10));
            clock.advance(Duration::from_millis(20));
            q.enqueue("work", b"hello".to_vec()).unwrap();
        })
        .unwrap();
    let elapsed = Duration::from_millis(clock.now_ms() - start);
    assert!(job.is_some(), "claim_with_wait must wake on enqueue");
    assert!(elapsed < Duration::from_millis(500), "expected fast wake; took {elapsed:?}");
}

#[test]
fn claim_with_wait_waits_full_deadline_despite_stale_permit() {
    let clock = MockClock::new(1_700_000_000_000);
    let opts = OpenOptions { clock: Arc::new(clock.clone()), ..OpenOptions::default() };
    let q = Queue::open_with_options(make_store(), "test", opts).unwrap();
    let lease = Duration::from_secs(5);

    q.enqueue("work", b"job".to_vec()).unwrap();
    let job = q
        .claim_with_wait("work", lease, Duration::from_secs(1), |_| {
            panic!("there is a job to claim");
        })
        .unwrap()
        .unwrap();
    q.ack(&job).unwrap();

    // The first wait ends at once, by a permit that no insert left.
    let start = clock.now_ms();
    let stale = Cell::new(true);
    let next = q
        .claim_with_wait("work", lease, Duration::from_secs(5), |left| {
            if !stale.replace(false) {
                clock.advance(left);
            }
        })
        .unwrap();
    assert!(next.is_none());
    assert!(
        Duration::from_millis(clock.now_ms() - start) >= Duration::from_secs(5),
        "stale permit must not end the wait early",
    );
    q.close().unwrap();
}

#[test]
fn test_concurrent_worker() {
    let q = Queue::open(make_store(), "test").unwrap();
    let ids = q
        .enqueue_batch(
            "work",
            vec![
                b"a".to_vec(),
                b"b".to_vec(),
                b"c".to_vec(),
                b"d".to_vec(),
                b"e".to_vec(),
            ],
        )
        .unwrap();
    assert_eq!(ids.len(), 5);

    run_worker_concurrent(&q, "work", &EchoWorker, 3, || {
        let s = q.stats("work").unwrap();
        s.pending == 0 && s.claimed == 0
    });

    assert_eq!(q.stats("work").unwrap().done, 5);
}

#[test]
fn test_kv_compare_put_loses_no_updates_under_contention() {
    let q = Queue::open(make_store(), "test").unwrap();
    q.kv_put(b"counter", &0u64.to_be_bytes()).unwrap();

    // Four writers of 25 increments each. In each round all of them read
    // before any of them writes.
    let mut left = [25; 4];
    while left.iter().any(|n| *n > 0) {
        let current = q.kv_get(b"counter").unwrap().unwrap();
        let mut won = 0;
        for n in left.iter_mut().filter(|n| **n > 0) {
            let count = u64::from_be_bytes(current.as_ref().try_into().unwrap());
            let next = (count + 1).to_be_bytes();
            if q.kv_compare_put(b"counter", Some(current.as_ref()), &next).unwrap() {
                *n -= 1;
                won += 1;
            }
        }
        assert_eq!(won, 1);
        left.rotate_left(1);
    }

    let total = q.kv_get(b"counter").unwrap().unwrap();
    assert_eq!(u64::from_be_bytes(total.as_ref().try_into().unwrap()), 100);
    q.close().unwrap();
}

#[test]
fn a_promotion_pass_moves_exactly_the_due_jobs() {
    let clock = MockClock::new(1_700_000_000_000);
    let opts = OpenOptions { clock: Arc::new(clock.clone()), ..OpenOptions::default() };
    let q = Queue::open_with_options(make_store(), "test", opts).unwrap();
    let at = |secs: u64| {
        let opts = EnqueueOptions {
            run_at: Some(SystemTime::UNIX_EPOCH + Duration::from_secs(1_700_000_000 + secs)),
            ..EnqueueOptions::default()
        };
        q.enqueue_with("work", b"x".to_vec(), opts).unwrap()
    };
    let (late, first, due) = (at(31), at(10), at(30));
    let ready = q.enqueue("work", b"y".to_vec()).unwrap();

    clock.advance(Duration::from_secs(30));
    q.promote_scheduled_now().unwrap();
    for id in [&first, &due, &ready] {
        assert_eq!(q.get_job(id).unwrap().unwrap().status, JobStatus::Pending);
    }
    assert_eq!(q.get_job(&late).unwrap().unwrap().status, JobStatus::Scheduled);
    assert_eq!(q.stats("work").unwrap().scheduled, 1);
    assert_eq!(q.stats("work").unwrap().pending, 3);

    clock.advance(Duration::from_secs(1));
    q.promote_scheduled_now().unwrap();
    assert_eq!(q.get_job(&late).unwrap().unwrap().status, JobStatus::Pending);
    assert_consistent(&q, &["work"]);
}

#[test]
fn reaping_ends_exactly_the_lapsed_claims() {
    let clock = MockClock::new(1_700_000_000_000);
    let opts = OpenOptions { clock: Arc::new(clock.clone()), ..OpenOptions::default() };
    let q = Queue::open_with_options(make_store(), "test", opts).unwrap();
    q.enqueue_batch("work", vec![b"a".to_vec(), b"b".to_vec(), b"c".to_vec()]).unwrap();
    let short = q.claim("work", Duration::from_secs(10)).unwrap().unwrap();
    let long = q.claim("work", Duration::from_secs(11)).unwrap().unwrap();
    let renewed = q.claim("work", Duration::from_secs(10)).unwrap().unwrap();
    q.renew_lease(&renewed, Duration::from_secs(20)).unwrap();

    clock.advance(Duration::from_secs(10));
    q.reap_now().unwrap();
    let status = |claim: &Claim| q.get_job(&claim.id).unwrap().unwrap().status;
    assert_eq!(status(&short), JobStatus::Pending);
    assert_eq!(status(&long), JobStatus::Claimed);
    assert_eq!(status(&renewed), JobStatus::Claimed);
    assert_eq!(q.state().lease_registry.len(), 2);
    assert!(matches!(q.ack(&short), Err(Error::ClaimLost)));
    q.ack(&long).unwrap();
    assert_consistent(&q, &["work"]);
}

#[test]
fn opening_ends_every_claim() {
    let store = make_store();
    let q = Queue::open(store.clone(), "test").unwrap();
    let last = EnqueueOptions { max_attempts: Some(1), ..EnqueueOptions::default() };
    let dead = q.enqueue_with("a", b"1".to_vec(), last).unwrap();
    let again = q.enqueue("a", b"2".to_vec()).unwrap();
    let other = q.enqueue("b", b"3".to_vec()).unwrap();
    let waiting = q.enqueue("b", b"4".to_vec()).unwrap();
    q.claim_batch("a", 2, Duration::from_secs(30)).unwrap();
    q.claim("b", Duration::from_secs(30)).unwrap();
    q.close().unwrap();

    let q = Queue::open(store, "test").unwrap();
    let status = |id: &str| q.get_job(id).unwrap().unwrap().status;
    assert_eq!(status(&dead), JobStatus::Dead);
    for id in [&again, &other, &waiting] {
        assert_eq!(status(id), JobStatus::Pending);
    }
    let (a, b) = (q.stats("a").unwrap(), q.stats("b").unwrap());
    assert_eq!((a.claimed, a.pending, a.dead), (0, 1, 1));
    assert_eq!((b.claimed, b.pending, b.dead), (0, 2, 0));
    assert_eq!(q.attempt_history(&other).unwrap().len(), 1);
    assert!(q.attempt_history(&waiting).unwrap().is_empty());
    assert_consistent(&q, &["a", "b"]);
}

struct EffectfulFailureWorker {
    permanent: bool,
    attempts_seen: Cell<usize>,
}

impl Worker for EffectfulFailureWorker {
    fn process_with_effects(
        &self,
        job: &JobRecord,
        _lease: &LeaseHandle,
    ) -> Result<taquba::SettlementEffects, WorkerError> {
        self.attempts_seen.set(self.attempts_seen.get() + 1);
        let effects = SettlementEffects {
            enqueues: vec![EnqueueRequest {
                queue: "notify".to_string(),
                payload: job.payload.clone(),
                options: EnqueueOptions::default(),
            }],
            ..SettlementEffects::default()
        };
        let error = if self.permanent {
            WorkerError::Permanent(PermanentFailure::new("permanent failure".to_string()))
        } else {
            WorkerError::Other("transient failure".to_string())
        };
        Err(WorkerError::With(Box::new(FailWith::new(error, effects.into()))))
    }
}

fn run_one_failing_attempt(queue: &Queue, worker: &EffectfulFailureWorker) {
    run_worker(queue, "work", worker, || worker.attempts_seen.get() >= 1);
}

#[test]
fn a_wrapped_permanent_failure_dead_letters_with_its_effects() {
    let queue = Queue::open(make_store(), "test").unwrap();
    queue.enqueue("work", b"job".to_vec()).unwrap();

    let worker = EffectfulFailureWorker { permanent: true, attempts_seen: Cell::new(0) };
    run_one_failing_attempt(&queue, &worker);

    assert_eq!(queue.stats("work").unwrap().dead, 1);
    assert_eq!(queue.stats("notify").unwrap().pending, 1);
    queue.close().unwrap();
}

#[test]
fn a_wrapped_permanent_failure_settles_as_the_unwrapped_error_does() {
    let queue = Queue::open(make_store(), "test").unwrap();
    let id = queue.enqueue("work", b"job".to_vec()).unwrap();

    let worker = EffectfulFailureWorker { permanent: true, attempts_seen: Cell::new(0) };
    run_one_failing_attempt(&queue, &worker);

    let dead = queue.get_job(&id).unwrap().unwrap();
    assert_eq!(dead.attempts, 1, "a wrapped failure consumes one attempt");
    assert_eq!(dead.last_error.as_deref(), Some("permanent failure"));
    queue.close().unwrap();
}

#[test]
fn a_wrapped_transient_failure_retries_without_its_effects() {
    let queue = Queue::open(make_store(), "test").unwrap();
    queue.enqueue("work", b"job".to_vec()).unwrap();

    let worker = EffectfulFailureWorker { permanent: false, attempts_seen: Cell::new(0) };
    run_one_failing_attempt(&queue, &worker);

    let stats = queue.stats("work").unwrap();
    assert_eq!(stats.dead, 0);
    assert_eq!(stats.scheduled + stats.pending, 1);
    assert_eq!(queue.stats("notify").unwrap().pending, 0);
    queue.close().unwrap();
}

#[test]
fn a_wrapped_transient_failure_on_the_final_attempt_applies_its_effects() {
    let queue = Queue::open(make_store(), "test").unwrap();
    queue
        .enqueue_with(
            "work",
            b"job".to_vec(),
            EnqueueOptions {
                max_attempts: Some(1),
                ..EnqueueOptions::default()
            },
        )
        .unwrap();

    let worker = EffectfulFailureWorker { permanent: false, attempts_seen: Cell::new(0) };
    run_one_failing_attempt(&queue, &worker);

    assert_eq!(queue.stats("work").unwrap().dead, 1);
    assert_eq!(queue.stats("notify").unwrap().pending, 1);
    queue.close().unwrap();
}

#[test]
fn a_done_sweep_honours_the_shorter_of_two_windows() {
    let clock = MockClock::new(1_700_000_000_000);
    let window = |ms| QueueConfig {
        keep_done_jobs: Some(Duration::from_millis(ms)),
        ..QueueConfig::default()
    };
    let opts = OpenOptions {
        clock: Arc::new(clock.clone()),
        queue_configs: HashMap::from([
            ("short".to_string(), window(50)),
            ("long".to_string(), window(60_000)),
        ]),
        ..OpenOptions::default()
    };
    let q = Queue::open_with_options(make_store(), "test", opts).unwrap();
    let short = q.enqueue("short", b"s".to_vec()).unwrap();
    let long = q.enqueue("long", b"l".to_vec()).unwrap();
    for queue in ["short", "long"] {
        let job = q.claim(queue, Duration::from_secs(30)).unwrap().unwrap();
        q.ack(&job).unwrap();
    }

    clock.advance(Duration::from_millis(60));
    q.tick();
    assert!(q.get_job(&short).unwrap().is_none());
    assert!(q.get_job(&long).unwrap().is_some());

    clock.advance(Duration::from_millis(60_000));
    q.tick();
    assert!(q.get_job(&long).unwrap().is_none());
    assert_eq!(q.stats("short").unwrap().done, 1);
    assert_eq!(q.stats("long").unwrap().done, 1);
}

#[test]
fn an_overlong_queue_name_is_refused() {
    let q = Queue::open(make_store(), "test").unwrap();
    let name = "q".repeat(256);
    let refused = |e: Error| match e {
        Error::InvalidQueueName { queue, reason } => {
            assert_eq!(queue, name);
            assert_eq!(reason, "queue name exceeds the maximum length of 255 bytes");
        }
        other => panic!("expected InvalidQueueName, got {other:?}"),
    };
    refused(q.enqueue(&name, b"x".to_vec()).unwrap_err());
    refused(q.claim(&name, Duration::from_secs(1)).unwrap_err());
    refused(q.stats(&name).unwrap_err());
    refused(q.list_jobs(&name, JobStatus::Pending, None, 1).unwrap_err());
    refused(q.dead_jobs(&name, None, 1).unwrap_err());
    refused(q.enqueue_batch(&name, vec![b"x".to_vec()]).unwrap_err());
    assert!(q.enqueue_batch(&name, Vec::new()).unwrap().is_empty());

    let longest = "q".repeat(255);
    let id = q.enqueue(&longest, b"x".to_vec()).unwrap();
    assert_eq!(q.claim(&longest, Duration::from_secs(1)).unwrap().unwrap().id, id);
}

#[test]
fn an_insert_during_a_claim_is_not_skipped() {
    let q = Queue::open(make_store(), "test").unwrap();
    q.enqueue("work", b"a".to_vec()).unwrap();
    let start = q.state().claim_batch_begin("work", 1).unwrap().unwrap();
    let (key, value) = q.scan(&start.prefix, &start.start, &KeyBound::Unbounded).remove(0);
    let Val::Record(job) = value else {
        panic!("a pending record does not decode");
    };
    let row = ClaimRow { key: RecordKey::decode(&key).unwrap(), job };
    let taken = ClaimRows::new(2).take(Some(row)).take(None).finish();

    // A more urgent job is committed and noted while the claim is under way.
    let urgent = q
        .enqueue_with(
            "work",
            b"urgent".to_vec(),
            EnqueueOptions {
                priority: Some(PRIORITY_HIGH),
                ..EnqueueOptions::default()
            },
        )
        .unwrap();

    let now = q.now_ms();
    let commit = q
        .state_mut()
        .claim_batch_locked("work", &start.scan, &taken, taquba::Duration::from_secs(5), now)
        .unwrap();
    q.apply(commit.plan.ops);
    assert!(commit.drained);
    q.state_mut().claim_committed("work", &start.scan, &commit.last_key, commit.drained);

    let next = q.claim("work", Duration::from_secs(5)).unwrap().unwrap();
    assert_eq!(next.id, urgent);
    assert!(q.claim("work", Duration::from_secs(5)).unwrap().is_none());
}

#[test]
fn a_claim_of_as_many_jobs_as_there_are_does_not_drain_the_scan() {
    let q = Queue::open(make_store(), "test").unwrap();
    for n in 0..3u8 {
        q.enqueue("work", vec![n]).unwrap();
    }
    let start = q.state().claim_batch_begin("work", 3).unwrap().unwrap();
    let found = q.scan(&start.prefix, &start.start, &KeyBound::Unbounded);
    let row = |n: usize| match &found[n] {
        (key, Val::Record(job)) => {
            ClaimRow { key: RecordKey::decode(key).unwrap(), job: job.clone() }
        }
        _ => panic!("a pending record does not decode"),
    };

    let rows = ClaimRows::new(2).take(Some(row(0)));
    assert!(!rows.is_complete());
    let rows = rows.take(Some(row(1)));
    assert!(rows.is_complete());
    let taken = rows.finish();
    assert!(!taken.drained);
    assert_eq!(taken.rows.len(), 2);
    assert_eq!(taken.rows[1].job.payload, vec![1]);

    let all = ClaimRows::new(3).take(Some(row(0))).take(Some(row(1))).take(Some(row(2)));
    assert!(all.is_complete());
    assert!(!all.finish().drained);

    let none = ClaimRows::new(1).take(None);
    assert!(none.is_complete());
    let none = none.finish();
    assert!(none.drained && none.rows.is_empty());
}

#[test]
fn a_retry_time_past_the_clock_is_foreseen() {
    let longest = Duration::from_secs(u64::MAX);
    let long = QueueConfig {
        retry_backoff_base: longest,
        retry_backoff_max: longest,
        ..QueueConfig::default()
    };
    let opts = OpenOptions {
        queue_configs: HashMap::from([("long".to_string(), long)]),
        ..OpenOptions::default()
    };
    let q = Queue::open_with_options(make_store(), "test", opts).unwrap();

    // The configuration of another queue does not matter.
    q.enqueue("work", b"a".to_vec()).unwrap();
    let claim = q.claim("work", Duration::from_secs(5)).unwrap().unwrap();
    q.nack(&claim, "boom").unwrap();

    q.enqueue("long", b"b".to_vec()).unwrap();
    let claim = q.claim("long", Duration::from_secs(5)).unwrap().unwrap();
    assert!(matches!(q.nack(&claim, "boom"), Err(Error::InvalidState)));
    // A claim that does not hold the lease is refused whatever its retry time.
    let stale = Claim {
        inner: taquba::Claim { job: claim.inner.job.clone(), token: claim.token() ^ 1 },
        cancel: claim.cancel.clone(),
    };
    assert!(matches!(q.nack(&stale, "boom"), Err(Error::ClaimLost)));

    // The last attempt is not retried, so no retry time is needed.
    let last = EnqueueOptions { max_attempts: Some(1), ..EnqueueOptions::default() };
    q.enqueue_with("long", b"c".to_vec(), last).unwrap();
    let claim = q.claim("long", Duration::from_secs(5)).unwrap().unwrap();
    q.nack(&claim, "boom").unwrap();
    assert_eq!(q.stats("long").unwrap().dead, 1);
}

#[test]
fn a_retention_window_past_the_clock_purges_nothing() {
    // The first window is a little over 2^64 milliseconds.
    for secs in [(1u64 << 61) / 125 + 1, u64::MAX] {
        let opts = OpenOptions {
            default_queue_config: QueueConfig {
                dead_retention: Some(Duration::from_secs(secs)),
                ..QueueConfig::default()
            },
            ..OpenOptions::default()
        };
        let clock = opts.clock.clone();
        let q = Queue::open_with_options(make_store(), "test", opts).unwrap();
        q.enqueue("work", b"a".to_vec()).unwrap();
        let claim = q.claim("work", Duration::from_secs(5)).unwrap().unwrap();
        q.dead_letter(&claim, "bad").unwrap();
        clock.advance(Duration::from_secs(1_700_000_000));
        q.tick();
        assert_eq!(q.dead_jobs("work", None, 10).unwrap().len(), 1);
    }
}

#[test]
fn finishing_a_cancellation_names_what_is_left_to_do() {
    let opts = OpenOptions { payload_offload_threshold: Some(4), ..OpenOptions::default() };
    let q = Queue::open_with_options(make_store(), "test", opts).unwrap();

    // A pending job is removed, with its payload object and its waiters.
    let pending = q.enqueue("work", b"a long payload".to_vec()).unwrap();
    let prepared = q.prepare_effects(SettlementEffects::default()).unwrap();
    let removed = q.run(|_, reads| cancel_txn(reads, &pending, &prepared)).unwrap();
    let finish = q.state_mut().finish_cancel(&pending, &removed);
    assert_eq!(finish.fire, None);
    assert!(finish.delete_payload.is_some());
    assert_eq!(finish.delete_payload, removed.job.unwrap().payload_ref);
    assert!(matches!(finish.outcome, Some(WaitOutcome::Cancelled)));

    // A claimed job keeps its record; its worker is told.
    q.enqueue("work", b"another long payload".to_vec()).unwrap();
    let claim = q.claim("work", Duration::from_secs(5)).unwrap().unwrap();
    let requested = q.run(|_, reads| cancel_txn(reads, &claim.id, &prepared)).unwrap();
    let finish = q.state_mut().finish_cancel(&claim.id, &requested);
    assert_eq!(finish.fire, Some(claim.token()));
    assert_eq!(finish.delete_payload, None);
    assert!(finish.outcome.is_none());
    assert!(q.state().lease_registry.is_cancelled("work", &claim.id));

    // There is nothing to do for a job that does not exist.
    let missing = q.run(|_, reads| cancel_txn(reads, "missing", &prepared)).unwrap();
    let finish = q.state_mut().finish_cancel("missing", &missing);
    assert!(finish.fire.is_none() && finish.delete_payload.is_none() && finish.outcome.is_none());
}

#[test]
fn refused_requests_leave_the_ids_where_they_were() {
    let q = Queue::open(make_store(), "test").unwrap();
    let now = 1_700_000_000_000;
    let first = q.state_mut().ids.next_job_id(now);

    let refused = q.enqueue_batch(&"q".repeat(256), vec![b"a".to_vec()]);
    assert!(matches!(refused, Err(Error::InvalidQueueName { .. })));
    let large = taquba::SettlementEffects {
        enqueues: vec![taquba::EnqueueRequest {
            queue: "work".to_string(),
            payload: b"a".to_vec(),
            options: taquba::EnqueueOptions::default(),
        }],
        kv_writes: vec![(b"k".to_vec(), vec![0; MAX_KV_VALUE_SIZE + 1])],
        kv_deletes: Vec::new(),
    };
    assert!(matches!(q.prepare_effects(large), Err(Error::KvValueTooLarge { .. })));

    let second = q.state_mut().ids.next_job_id(now);
    let number = |id: &str| ulid::Ulid::from_string(id).unwrap().0;
    assert_eq!(number(&second), number(&first) + 1);
}

/// Checks that each job has one record where its index entry points, that the
/// counters are the numbers of jobs, that deduplication keys are held by the
/// jobs that carry them, that histories belong to jobs, and that claims have
/// leases.
fn assert_consistent(q: &Queue, queues: &[&str]) {
    let all = |tag| q.scan(&tag_prefix(tag), &KeyBound::Unbounded, &KeyBound::Unbounded);
    let mut counts: BTreeMap<(String, &'static str), i64> = BTreeMap::new();
    let mut held = 0;
    let mut records = 0;
    for tag in [
        KeyTag::Pending,
        KeyTag::Scheduled,
        KeyTag::Claimed,
        KeyTag::Done,
        KeyTag::Dead,
    ] {
        for (key, value) in all(tag) {
            let place = RecordKey::decode(&key).unwrap();
            let Val::Record(job) = value else {
                panic!("a record does not decode");
            };
            records += 1;
            assert_eq!(job.status, place.status());
            assert_eq!(q.bytes(&job_index_key(&job.id)), Some(key));
            let metric = taquba::stats::metric_name(job.status);
            *counts.entry((job.queue.clone(), metric)).or_default() += 1;
            if let Some(dk) = &job.dedup_key {
                held += 1;
                let holder = q.bytes(&taquba::keys::dedup_index_key(&job.queue, dk));
                assert_eq!(holder, Some(job.id.clone().into_bytes()));
            }
            if job.status == JobStatus::Claimed {
                assert!(q.state().lease_registry.current(&job.queue, &job.id).is_some());
            }
        }
    }
    assert_eq!(all(KeyTag::JobIndex).len(), records);
    assert_eq!(all(KeyTag::Dedup).len(), held);
    for (key, _) in all(KeyTag::AttemptHistory) {
        let id = String::from_utf8(key[1..].to_vec()).unwrap();
        assert!(q.get(&job_index_key(&id)).is_some());
    }
    for queue in queues {
        let stats = q.stats(queue).unwrap();
        let count = |metric| counts.get(&(queue.to_string(), metric)).copied().unwrap_or(0);
        assert_eq!(stats.pending, count("pending"));
        assert_eq!(stats.claimed, count("claimed"));
        assert_eq!(stats.dead, count("dead"));
        assert_eq!(stats.scheduled, count("scheduled"));
    }
}

#[test]
fn every_transition_keeps_the_store_consistent() {
    let queues = ["a", "b"];
    let clock = MockClock::new(1_700_000_000_000);
    let opts = || OpenOptions {
        clock: Arc::new(clock.clone()),
        default_queue_config: QueueConfig {
            retry_backoff_base: Duration::from_millis(20),
            retry_backoff_max: Duration::from_millis(100),
            dead_retention: Some(Duration::from_millis(400)),
            ..QueueConfig::default()
        },
        queue_configs: HashMap::from([(
            "b".to_string(),
            QueueConfig {
                keep_done_jobs: Some(Duration::from_millis(300)),
                retry_backoff_base: Duration::ZERO,
                max_attempts: 2,
                ..QueueConfig::default()
            },
        )]),
        payload_offload_threshold: Some(8),
        ..OpenOptions::default()
    };
    let store = make_store();
    let mut q = Queue::open_with_options(store.clone(), "test", opts()).unwrap();
    let mut ids: Vec<String> = Vec::new();
    let mut claims: Vec<Claim> = Vec::new();
    let mut seed: u64 = 42;
    for _ in 0..1_500 {
        seed = seed.wrapping_mul(6_364_136_223_846_793_005).wrapping_add(1_442_695_040_888_963_407);
        let roll = (seed >> 33) as usize;
        let queue = queues[roll % 2];
        let pick = roll / 64;
        match roll % 13 {
            0 | 1 => {
                let at = SystemTime::UNIX_EPOCH
                    + Duration::from_millis(clock.now_ms() + (pick % 90) as u64);
                let options = EnqueueOptions {
                    priority: Some((pick % 3) as u32),
                    run_at: if pick % 2 == 0 { Some(at) } else { None },
                    dedup_key: if pick % 5 < 2 { Some(format!("d{}", pick % 4)) } else { None },
                    ..EnqueueOptions::default()
                };
                ids.push(q.enqueue_with(queue, vec![1; pick % 16], options).unwrap());
            }
            2 => ids.extend(q.enqueue_batch(queue, vec![vec![2; 3]; pick % 4]).unwrap()),
            3 | 4 => claims
                .extend(q.claim_batch(queue, 1 + pick % 3, Duration::from_millis(50)).unwrap()),
            5 | 6 if !claims.is_empty() => {
                let claim = claims.swap_remove(pick % claims.len());
                let effects = SettlementEffects {
                    enqueues: vec![EnqueueRequest {
                        queue: "b".to_string(),
                        payload: vec![3; pick % 12],
                        options: EnqueueOptions::default(),
                    }],
                    ..SettlementEffects::default()
                };
                let _ = q.ack_with(&claim, effects);
            }
            7 if !claims.is_empty() => {
                let claim = claims.swap_remove(pick % claims.len());
                let _ = q.nack(&claim, "failed");
            }
            8 if !claims.is_empty() => {
                let claim = claims.swap_remove(pick % claims.len());
                let _ = q.dead_letter(&claim, "fatal");
            }
            9 if !ids.is_empty() => {
                let id = &ids[pick % ids.len()];
                let first = q.cancel(id).unwrap();
                let again = q.cancel(id).unwrap();
                let expected = if first == CancelOutcome::Requested {
                    CancelOutcome::Requested
                } else {
                    CancelOutcome::NotFound
                };
                assert_eq!(again, expected);
            }
            10 if !ids.is_empty() => {
                q.wake_scheduled(&ids[pick % ids.len()], Some(vec![9])).unwrap();
            }
            11 => {
                if let Some(dead) = q.dead_jobs(queue, None, 1).unwrap().pop() {
                    q.requeue_dead_job(dead).unwrap();
                }
            }
            _ => {
                clock.advance(Duration::from_millis((pick % 40) as u64));
                q.tick();
                if pick % 7 == 0 {
                    q.close().unwrap();
                    q = Queue::open_with_options(store.clone(), "test", opts()).unwrap();
                }
            }
        }
        assert_consistent(&q, &queues);
    }
    // What is left can be worked off, and no payload object outlives its job.
    for queue in queues {
        clock.advance(Duration::from_secs(1));
        q.tick();
        while let Some(claim) = q.claim(queue, Duration::from_secs(30)).unwrap() {
            q.ack(&claim).unwrap();
        }
    }
    clock.advance(Duration::from_secs(8 * 24 * 3600));
    q.tick();
    for queue in queues {
        while let Some(claim) = q.claim(queue, Duration::from_secs(30)).unwrap() {
            q.ack(&claim).unwrap();
        }
    }
    clock.advance(Duration::from_secs(8 * 24 * 3600));
    q.tick();
    assert_consistent(&q, &queues);
    for queue in queues {
        let stats = q.stats(queue).unwrap();
        assert_eq!((stats.pending, stats.claimed, stats.scheduled, stats.dead), (0, 0, 0, 0));
    }
    assert_eq!(object_count(&store, "test-payloads"), 0);
}

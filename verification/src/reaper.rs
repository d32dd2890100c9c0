//! Recovering claims that end without a settlement, and sweeping done and
//! dead jobs whose retention has run out.

use crate::error::{Error, ErrorView};
use crate::job::{opt_text, AttemptOutcome, JobRecord, JobStatus, JobView};
use crate::keys::{key_timestamp, parse_key_timestamp, KeyTag, RecordKey, RecordKeyView};
use crate::lease_registry::{LeaseRegistry, LeaseState};
use crate::options::{QueueConfig, QueueConfigs};
use crate::settle::{Settled, SettledView};
use crate::store::{apply, op_views, Op, StoreView};
use crate::time::{millis_of, Duration};
use crate::txn::{
    claimed_place, count_one, follows, forget_job, stage_claim_end, ClaimEnd, ClaimEndView,
    NeedView, Plan, Reads, Stop, Txn,
};
use vstd::prelude::*;

verus! {

/// How a claim that is not settled ends: the job is dead once its attempts
/// are exhausted, and otherwise pending again without a backoff.
pub open spec fn unsettled_end(
    job: JobView,
    outcome: AttemptOutcome,
    error: Seq<char>,
) -> ClaimEndView {
    if job.attempts >= job.max_attempts {
        ClaimEndView::Dead { error }
    } else {
        ClaimEndView::Retry { run_at: None, outcome, error: None }
    }
}

/// How a claim that is not settled ends.
pub fn unsettled_claim_end<'a>(
    job: &JobRecord,
    outcome: AttemptOutcome,
    error: &'a str,
) -> (r: ClaimEnd<'a>)
    ensures
        r@ == unsettled_end(job@, outcome, error@),
{
    if job.attempts >= job.max_attempts {
        ClaimEnd::Dead { error }
    } else {
        ClaimEnd::Retry { run_at: None, outcome, error: None }
    }
}

/// What reaping a lease that ran out found.
#[derive(Debug)]
pub enum Reaped {
    /// The claim was settled, or the job was claimed anew: there is nothing
    /// to reap.
    Superseded,
    /// There is no claimed record; the lease is to be dropped.
    Orphaned,
    /// The claim is ended.
    Ended(Settled),
}

/// The contents of [`Reaped`].
pub enum ReapedView {
    Superseded,
    Orphaned,
    Ended(SettledView),
}

impl View for Reaped {
    type V = ReapedView;

    open spec fn view(&self) -> ReapedView {
        match self {
            Reaped::Superseded => ReapedView::Superseded,
            Reaped::Orphaned => ReapedView::Orphaned,
            Reaped::Ended(settled) => ReapedView::Ended(settled@),
        }
    }
}

/// What ending an unsettled claim on `job` leaves of the store, and what it
/// reports.
pub open spec fn unsettled(
    s: StoreView,
    job: JobView,
    end: ClaimEndView,
    now: u64,
) -> (StoreView, SettledView) {
    (
        end.settled(s.vacated(claimed_place(job.queue, job.id)), job, now),
        SettledView {
            job: end.ended(job, now),
            pending_key: if end.status() == JobStatus::Pending {
                Some(end.place(job, now))
            } else {
                None
            },
            results: None,
        },
    )
}

/// What reaping a lease that ran out leaves of the store `s`, and what it
/// finds.
pub open spec fn reaped(
    s: StoreView,
    leases: Map<(Seq<char>, Seq<char>), LeaseState>,
    queue: Seq<char>,
    id: Seq<char>,
    token: u64,
    now: u64,
) -> Result<(StoreView, ReapedView), ErrorView> {
    let place = claimed_place(queue, id);
    if !(leases.contains_key((queue, id)) && leases[(queue, id)].token == token) {
        Ok((s, ReapedView::Superseded))
    } else if !s.records.contains_key(place) {
        Ok((s, ReapedView::Orphaned))
    } else {
        let job = s.records[place];
        let end = unsettled_end(job, AttemptOutcome::LeaseExpired, "lease expired"@);
        Ok(
            (
                end.settled(s.vacated(place), job, now),
                ReapedView::Ended(
                    SettledView {
                        job: end.ended(job, now),
                        pending_key: if end.status() == JobStatus::Pending {
                            Some(end.place(job, now))
                        } else {
                            None
                        },
                        results: None,
                    },
                ),
            ),
        )
    }
}

/// The transaction that ends the claim of a lease that ran out.
///
/// The lease is looked up after the transaction begins. A settlement that is
/// not seen here then commits after the snapshot and conflicts on the claimed
/// record.
pub fn reap_txn(
    reads: &Reads,
    registry: &LeaseRegistry,
    queue: &str,
    id: &str,
    token: u64,
    now: u64,
) -> (r: Result<Plan<Reaped>, Stop>)
    ensures
        follows(
            r,
            *reads,
            |s: StoreView| reaped(s, registry@, queue@, id@, token, now),
            |need: NeedView| need == (NeedView::Record { key: claimed_place(queue@, id@) }),
        ),
{
    let mut txn = Txn::new(reads);
    let held: bool = match registry.current(queue, id) {
        Some((_, current)) => current == token,
        None => false,
    };
    if !held {
        return Ok(txn.plan(Reaped::Superseded));
    }
    let key = RecordKey::Claimed { queue: queue.to_owned(), id: id.to_owned() };
    let mut job = match txn.record(&key) {
        Ok(Some(job)) => job,
        Ok(None) => {
            return Ok(txn.plan(Reaped::Orphaned));
        },
        Err(stop) => {
            return Err(stop);
        },
    };
    txn.stage(Op::DeleteRecord { key });
    let end = unsettled_claim_end(&job, AttemptOutcome::LeaseExpired, "lease expired");
    let pending_key = stage_claim_end(&mut txn, &mut job, &end, now);
    Ok(txn.plan(Reaped::Ended(Settled { job, pending_key, results: None })))
}

/// How a claim found when the store is opened ends.
pub open spec fn interrupted_end(job: JobView) -> ClaimEndView {
    unsettled_end(job, AttemptOutcome::Interrupted, "claim interrupted by process exit"@)
}

/// The transaction that ends a claim found when the store is opened. It
/// belongs to a process that runs no more. The requeue takes no attempt:
/// attempts count claims.
pub fn requeue_interrupted_txn(job: &JobRecord, now: u64) -> (r: Plan<Settled>)
    ensures
        forall|s: StoreView|
            (#[trigger] apply(s, op_views(r.ops@)), r.value@) == unsettled(
                s,
                job@,
                interrupted_end(job@),
                now,
            ),
{
    let reads = Reads::new();
    let mut txn = Txn::new(&reads);
    let mut job = job.clone();
    txn.stage(
        Op::DeleteRecord {
            key: RecordKey::Claimed { queue: job.queue.clone(), id: job.id.clone() },
        },
    );
    let end = unsettled_claim_end(
        &job,
        AttemptOutcome::Interrupted,
        "claim interrupted by process exit",
    );
    let pending_key = stage_claim_end(&mut txn, &mut job, &end, now);
    txn.plan(Settled { job, pending_key, results: None })
}

/// The retention of a queue's jobs in a terminal state.
pub open spec fn retention(config: QueueConfig, status: JobStatus) -> Option<Duration> {
    if status == JobStatus::Done {
        config.keep_done_jobs
    } else {
        config.dead_retention
    }
}

fn retention_of(config: &QueueConfig, status: JobStatus) -> (r: Option<Duration>)
    ensures
        r == retention(*config, status),
{
    match status {
        JobStatus::Done => config.keep_done_jobs,
        _ => config.dead_retention,
    }
}

/// The time before which a terminal job has outlived a retention window.
pub open spec fn cutoff(now: u64, window: Duration) -> u64 {
    if now <= millis_of(window@) {
        0
    } else {
        (now - millis_of(window@)) as u64
    }
}

fn cutoff_of(now: u64, window: &Duration) -> (r: u64)
    ensures
        r == cutoff(now, *window),
{
    now.saturating_sub(window.as_millis())
}

/// When a job reached its terminal state.
pub open spec fn terminal_at(job: JobView, status: JobStatus) -> Option<u64> {
    if status == JobStatus::Done {
        job.completed_at
    } else {
        job.failed_at
    }
}

/// Whether a terminal job has outlived the retention of its queue.
pub open spec fn expired(
    configs: QueueConfigs,
    status: JobStatus,
    job: JobView,
    now: u64,
) -> bool {
    &&& terminal_at(job, status) matches Some(at)
    &&& retention(configs.config(job.queue), status) matches Some(window) && at < cutoff(now, window)
}

/// A terminal job whose retention has run out.
#[derive(Debug)]
pub struct Victim {
    /// The place of its record.
    pub key: RecordKey,
    /// Its queue.
    pub queue: String,
    /// Its id.
    pub id: String,
    /// The name of its payload object.
    pub payload_ref: Option<String>,
}

/// The contents of a [`Victim`].
pub struct VictimView {
    pub key: RecordKeyView,
    pub queue: Seq<char>,
    pub id: Seq<char>,
    pub payload_ref: Option<Seq<char>>,
}

impl View for Victim {
    type V = VictimView;

    open spec fn view(&self) -> VictimView {
        VictimView {
            key: self.key@,
            queue: self.queue@,
            id: self.id@,
            payload_ref: opt_text(self.payload_ref),
        }
    }
}

/// A sweep of the done or dead jobs.
///
/// Done keys lead with the time of completion, so the done sweep ends at the
/// first key that no queue's window reaches. Dead keys are grouped by queue,
/// so the dead sweep reads all of them.
#[derive(Debug)]
pub struct Sweep {
    status: JobStatus,
    now: u64,
    end: Option<u64>,
    victims: Vec<Victim>,
}

/// The contents of a [`Sweep`].
pub struct SweepView {
    /// The state whose jobs are swept.
    pub status: JobStatus,
    /// The time the sweep runs at.
    pub now: u64,
    /// The key time at which the sweep ends, where it ends early.
    pub end: Option<u64>,
    /// The jobs found so far.
    pub victims: Seq<VictimView>,
}

impl View for Sweep {
    type V = SweepView;

    closed spec fn view(&self) -> SweepView {
        SweepView {
            status: self.status,
            now: self.now,
            end: self.end,
            victims: Seq::new(self.victims@.len(), |i: int| self.victims@[i]@),
        }
    }
}

/// Whether some queue's jobs of a terminal state have a retention.
pub open spec fn sweeps(configs: QueueConfigs, status: JobStatus) -> bool {
    retention(configs.fallback(), status) is Some || exists|queue: Seq<char>| #[trigger]
        configs.overrides().contains_key(queue) && retention(
            configs.overrides()[queue],
            status,
        ) is Some
}

/// Whether `end` is the latest cutoff of any queue's window.
pub open spec fn latest_cutoff(
    configs: QueueConfigs,
    status: JobStatus,
    now: u64,
    end: u64,
) -> bool {
    &&& forall|queue: Seq<char>| #[trigger]
        retention(configs.config(queue), status) matches Some(window) ==> cutoff(now, window) <= end
    &&& retention(configs.fallback(), status) matches Some(window) ==> cutoff(now, window) <= end
    &&& (retention(configs.fallback(), status) matches Some(window) && cutoff(now, window) == end)
        || exists|queue: Seq<char>| #[trigger]
        configs.overrides().contains_key(queue) && (retention(configs.overrides()[queue], status)
            matches Some(window) && cutoff(now, window) == end)
}

impl SweepView {
    /// Whether a sweep of a terminal state begins like this. Done keys lead with
    /// the time of completion, so that a done sweep has an end.
    pub open spec fn begun(self, configs: QueueConfigs, status: JobStatus, now: u64) -> bool {
        &&& self.status == status
        &&& self.now == now
        &&& self.victims == Seq::<VictimView>::empty()
        &&& match status {
            JobStatus::Done => self.end matches Some(end) && latest_cutoff(
                configs,
                status,
                now,
                end,
            ),
            _ => self.end is None,
        }
    }

    /// Whether the sweep ends at a key.
    pub open spec fn ends_at(self, key: Seq<u8>) -> bool {
        self.end matches Some(end) && (key_timestamp(key, KeyTag::Done) matches Some(at) && at
            >= end)
    }

    /// Whether a record is to be removed. One that cannot be decoded, or whose
    /// key is not a key of the swept space, is passed over.
    pub open spec fn condemns(
        self,
        configs: QueueConfigs,
        key: Seq<u8>,
        row: Option<(RecordKeyView, JobView)>,
    ) -> bool {
        &&& !self.ends_at(key)
        &&& self.end is Some ==> key_timestamp(key, KeyTag::Done) is Some
        &&& row matches Some((_, job)) && expired(configs, self.status, job, self.now)
    }

    /// The sweep after it visits a key, with its place and its record where they
    /// can be decoded, and whether it goes on.
    pub open spec fn visited(
        self,
        configs: QueueConfigs,
        key: Seq<u8>,
        row: Option<(RecordKeyView, JobView)>,
    ) -> (SweepView, bool) {
        if self.condemns(configs, key, row) {
            let (place, job) = row.unwrap();
            let victim = VictimView {
                key: place,
                queue: job.queue,
                id: job.id,
                payload_ref: job.payload_ref,
            };
            (SweepView { victims: self.victims.push(victim), ..self }, true)
        } else {
            (self, !self.ends_at(key))
        }
    }

    /// The sweep after it visits rows in order, up to the one that ends it.
    pub open spec fn over(
        self,
        configs: QueueConfigs,
        rows: Seq<(Seq<u8>, Option<(RecordKeyView, JobView)>)>,
    ) -> SweepView
        decreases rows.len(),
    {
        if rows.len() == 0 {
            self
        } else {
            let (after, more) = self.visited(configs, rows[0].0, rows[0].1);
            if more {
                after.over(configs, rows.drop_first())
            } else {
                after
            }
        }
    }
}

impl Sweep {
    /// Begins a sweep of the jobs in a terminal state, or returns `None` where
    /// no queue has a retention for them. Only done and dead jobs are swept.
    pub fn begin(configs: &QueueConfigs, status: JobStatus, now: u64) -> (r: Result<
        Option<Sweep>,
        Error,
    >)
        ensures
            match r {
                Err(e) => e == Error::InvalidState && status != JobStatus::Done && status
                    != JobStatus::Dead,
                Ok(None) => (status == JobStatus::Done || status == JobStatus::Dead) && !sweeps(
                    *configs,
                    status,
                ),
                Ok(Some(sweep)) => {
                    &&& status == JobStatus::Done || status == JobStatus::Dead
                    &&& sweeps(*configs, status)
                    &&& sweep@.begun(*configs, status, now)
                },
            },
    {
        match status {
            JobStatus::Done | JobStatus::Dead => {},
            _ => {
                return Err(Error::InvalidState);
            },
        }
        let all = configs.iter();
        let mut end: Option<u64> = None;
        let mut i: usize = 0;
        while i < all.len()
            invariant
                0 <= i <= all@.len(),
                match end {
                    None => forall|j: int|
                        0 <= j < i ==> retention(#[trigger] all@[j], status) is None,
                    Some(latest) => {
                        &&& forall|j: int|
                            0 <= j < i ==> (retention(#[trigger] all@[j], status) matches Some(window)
                                ==> cutoff(now, window) <= latest)
                        &&& exists|j: int|
                            0 <= j < i && (retention(#[trigger] all@[j], status) matches Some(window)
                                && cutoff(now, window) == latest)
                    },
                },
            decreases all@.len() - i,
        {
            if let Some(window) = retention_of(&all[i], status) {
                let at: u64 = cutoff_of(now, &window);
                let ghost before = end;
                end = match end {
                    Some(latest) => if at > latest {
                        Some(at)
                    } else {
                        Some(latest)
                    },
                    None => Some(at),
                };
                proof {
                    assert(retention(all@[i as int], status) == Some(window));
                    if before is Some && end == before {
                        let j = choose|j: int|
                            0 <= j < i && (retention(#[trigger] all@[j], status) matches Some(w)
                                && cutoff(now, w) == before.unwrap());
                        assert(retention(all@[j], status) is Some);
                    }
                }
            }
            i += 1;
        }
        proof {
            if let Some(latest) = end {
                let j = choose|j: int|
                    0 <= j < all@.len() && (retention(#[trigger] all@[j], status) matches Some(w)
                        && cutoff(now, w) == latest);
                if j > 0 {
                    assert(configs.is_override(all@[j]));
                }
                assert forall|queue: Seq<char>| (#[trigger] retention(
                    configs.config(queue),
                    status,
                )) is Some implies cutoff(
                    now,
                    retention(configs.config(queue), status).unwrap(),
                ) <= latest by {
                    if configs.overrides().contains_key(queue) {
                        let k = choose|k: int|
                            1 <= k < all@.len() && #[trigger] all@[k]
                                == configs.overrides()[queue];
                        assert(retention(all@[k], status) is Some);
                    } else {
                        assert(retention(all@[0], status) is Some);
                    }
                }
                if retention(configs.fallback(), status) is Some {
                    assert(retention(all@[0], status) is Some);
                }
            } else {
                assert(retention(all@[0], status) is None);
                assert forall|queue: Seq<char>| #[trigger]
                    configs.overrides().contains_key(queue) implies retention(
                    configs.overrides()[queue],
                    status,
                ) is None by {
                    let k = choose|k: int|
                        1 <= k < all@.len() && #[trigger] all@[k] == configs.overrides()[queue];
                    assert(retention(all@[k], status) is None);
                }
            }
        }
        match end {
            None => Ok(None),
            Some(latest) => {
                let sweep = Sweep {
                    status,
                    now,
                    end: if status == JobStatus::Done {
                        Some(latest)
                    } else {
                        None
                    },
                    victims: Vec::new(),
                };
                assert(sweep@.victims =~= Seq::empty());
                Ok(Some(sweep))
            },
        }
    }

    /// The prefix of the keys to visit.
    pub fn tag(&self) -> (r: KeyTag)
        ensures
            r == if self@.status == JobStatus::Done {
                KeyTag::Done
            } else {
                KeyTag::Dead
            },
    {
        match self.status {
            JobStatus::Done => KeyTag::Done,
            _ => KeyTag::Dead,
        }
    }

    /// Visits a key in key order, with its place and its record where they
    /// can be decoded. Returns whether the sweep goes on.
    pub fn visit(
        &mut self,
        configs: &QueueConfigs,
        key: &[u8],
        row: Option<(RecordKey, JobRecord)>,
    ) -> (r: bool)
        ensures
            (final(self)@, r) == old(self)@.visited(
                *configs,
                key@,
                match row {
                    Some((place, job)) => Some((place@, job@)),
                    None => None,
                },
            ),
    {
        if let Some(end) = self.end {
            match parse_key_timestamp(key, KeyTag::Done) {
                None => {
                    return true;
                },
                Some(at) => {
                    if at >= end {
                        return false;
                    }
                },
            }
        }
        let (place, job) = match row {
            Some((place, job)) => (place, job),
            None => {
                return true;
            },
        };
        let at: u64 = match self.status {
            JobStatus::Done => match job.completed_at {
                Some(at) => at,
                None => {
                    return true;
                },
            },
            _ => match job.failed_at {
                Some(at) => at,
                None => {
                    return true;
                },
            },
        };
        let config = configs.get(job.queue.as_str());
        let window = match retention_of(config, self.status) {
            Some(window) => window,
            None => {
                return true;
            },
        };
        if at < cutoff_of(self.now, &window) {
            let ghost before = self@.victims;
            let ghost view = VictimView {
                key: place@,
                queue: job@.queue,
                id: job@.id,
                payload_ref: job@.payload_ref,
            };
            self.victims.push(
                Victim {
                    key: place,
                    queue: job.queue,
                    id: job.id,
                    payload_ref: job.payload_ref,
                },
            );
            assert(self@.victims =~= before.push(view));
        }
        true
    }

    /// The jobs to remove.
    pub fn into_victims(self) -> (r: Vec<Victim>)
        ensures
            Seq::new(r@.len(), |i: int| r@[i]@) == self@.victims,
    {
        self.victims
    }
}

/// A done sweep that ends early misses nothing: past its end no done job has
/// outlived its queue's retention.
pub proof fn sweep_end_misses_nothing(
    configs: QueueConfigs,
    now: u64,
    end: u64,
    key: RecordKeyView,
    job: JobView,
)
    requires
        latest_cutoff(configs, JobStatus::Done, now, end),
        key matches RecordKeyView::Done { completed_at, .. } && job.completed_at == Some(
            completed_at,
        ) && completed_at >= end,
    ensures
        !expired(configs, JobStatus::Done, job, now),
{
    assert(retention(configs.config(job.queue), JobStatus::Done) is Some ==> cutoff(
        now,
        retention(configs.config(job.queue), JobStatus::Done).unwrap(),
    ) <= end);
}

/// What removing a terminal job whose retention has run out leaves of the
/// store `s`, and whether its record was still there. The number of dead jobs
/// follows; that of done jobs counts completions and stays.
pub open spec fn swept(s: StoreView, key: RecordKeyView, queue: Seq<char>, id: Seq<char>) -> Result<
    (StoreView, bool),
    ErrorView,
> {
    if !s.records.contains_key(key) {
        Ok((s, false))
    } else {
        let gone = s.vacated(key).forgotten(id);
        if key.status() == JobStatus::Dead {
            Ok((gone.counted(queue, JobStatus::Dead, -1), true))
        } else {
            Ok((gone, true))
        }
    }
}

/// The transaction that removes a terminal job whose retention has run out.
/// The record is looked for again, so that a sweep repeated after a crash
/// counts it once.
pub fn sweep_victim_txn(reads: &Reads, victim: &Victim) -> (r: Result<Plan<bool>, Stop>)
    ensures
        follows(
            r,
            *reads,
            |s: StoreView| swept(s, victim.key@, victim.queue@, victim.id@),
            |need: NeedView| need == (NeedView::Record { key: victim.key@ }),
        ),
{
    let mut txn = Txn::new(reads);
    match txn.record(&victim.key) {
        Ok(Some(_)) => {},
        Ok(None) => {
            return Ok(txn.plan(false));
        },
        Err(stop) => {
            return Err(stop);
        },
    }
    txn.stage(Op::DeleteRecord { key: victim.key.clone() });
    forget_job(&mut txn, victim.id.as_str());
    if let RecordKey::Dead { .. } = &victim.key {
        count_one(&mut txn, victim.queue.as_str(), JobStatus::Dead, -1);
    }
    Ok(txn.plan(true))
}

} // verus!

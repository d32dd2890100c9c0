//! Claiming pending jobs.

use crate::bytes::{before, before_after_common_prefix, copy_range, starts_with};
use crate::claim_cursor::{within, ClaimCursor, ClaimScan, ScanFromView};
use crate::error::{Error, ErrorView};
use crate::ids::new_claim_token;
use crate::job::{Claim, JobRecord, JobStatus, JobView};
use crate::keys::{
    name_fits, pending_prefix, queue_prefix, validate_queue_name, RecordKey, RecordKeyView,
    TAG_PENDING,
};
use crate::lease_registry::{LeaseRegistry, LeaseState};
use crate::range::{past_start, KeyBound};
use crate::store::{apply, op_views, Op, StoreView};
use crate::time::{millis_of, Duration};
use crate::txn::{claimed_place, counted_all, put_job_record, update_stats, Plan, Reads, Txn};
use vstd::prelude::*;

verus! {

/// A pending job that a claim scan returned.
#[derive(Debug)]
pub struct ClaimRow {
    /// The place of its record.
    pub key: RecordKey,
    /// Its record.
    pub job: JobRecord,
}

/// The contents of a list of rows.
pub open spec fn row_views(rows: Seq<ClaimRow>) -> Seq<(RecordKeyView, JobView)> {
    Seq::new(rows.len(), |i: int| (rows[i].key@, rows[i].job@))
}

/// Gathers the rows of a claim scan, at most as many as are asked for.
pub struct ClaimRows {
    max: usize,
    rows: Vec<ClaimRow>,
    drained: bool,
}

/// The rows that a claim takes.
#[derive(Debug)]
pub struct ClaimTaken {
    /// The rows, in the order of the scan.
    pub rows: Vec<ClaimRow>,
    /// Whether the scan ran out of rows before as many as were asked for.
    pub drained: bool,
}

impl ClaimRows {
    #[verifier::type_invariant]
    spec fn inv(self) -> bool {
        self.rows@.len() <= self.max && (self.drained ==> self.rows@.len() < self.max)
    }

    /// The most rows to take.
    pub closed spec fn max(self) -> nat {
        self.max as nat
    }

    /// The rows taken so far.
    pub closed spec fn rows(self) -> Seq<ClaimRow> {
        self.rows@
    }

    /// Whether the scan ran out of rows.
    pub closed spec fn drained(self) -> bool {
        self.drained
    }

    /// Whether no further row is to be read.
    pub open spec fn complete(self) -> bool {
        self.drained() || self.rows().len() == self.max()
    }

    /// Whether what was taken is what a scan that returns the rows `all` gave
    /// so far.
    pub open spec fn scans(self, all: Seq<ClaimRow>) -> bool {
        &&& self.rows().len() <= all.len()
        &&& self.rows() == all.subrange(0, self.rows().len() as int)
        &&& self.drained() ==> self.rows() == all
    }

    /// No row yet of at most `max`.
    pub fn new(max: usize) -> (r: ClaimRows)
        ensures
            r.max() == max,
            r.rows() == Seq::<ClaimRow>::empty(),
            !r.drained(),
    {
        ClaimRows { max, rows: Vec::new(), drained: false }
    }

    /// Whether no further row is to be read.
    pub fn is_complete(&self) -> (r: bool)
        ensures
            r == self.complete(),
    {
        self.drained || self.rows.len() == self.max
    }

    /// Takes in what the scan returned next: a row, or `None` at its end.
    pub fn take(self, next: Option<ClaimRow>) -> (r: ClaimRows)
        requires
            !self.complete(),
        ensures
            r.max() == self.max(),
            match next {
                Some(row) => r.rows() == self.rows().push(row) && !r.drained(),
                None => r.rows() == self.rows() && r.drained(),
            },
    {
        proof {
            use_type_invariant(&self);
        }
        let ClaimRows { max, mut rows, drained: _ } = self;
        match next {
            Some(row) => {
                rows.push(row);
                ClaimRows { max, rows, drained: false }
            },
            None => ClaimRows { max, rows, drained: true },
        }
    }

    /// The rows to claim: of all rows of the scan the first ones, as many as
    /// were asked for or all there are. The scan is drained where there are
    /// fewer than were asked for.
    pub fn finish(self) -> (r: ClaimTaken)
        requires
            self.complete(),
        ensures
            r.rows@ == self.rows(),
            r.drained == self.drained(),
            forall|all: Seq<ClaimRow>| #[trigger]
                self.scans(all) ==> {
                    &&& r.rows@ == all.subrange(
                        0,
                        if all.len() < self.max() {
                            all.len() as int
                        } else {
                            self.max() as int
                        },
                    )
                    &&& r.drained == (all.len() < self.max())
                },
    {
        proof {
            use_type_invariant(&self);
            assert forall|all: Seq<ClaimRow>| #[trigger] self.scans(all) implies self.rows()
                == all.subrange(
                0,
                if all.len() < self.max() {
                    all.len() as int
                } else {
                    self.max() as int
                },
            ) by {
                if self.drained {
                    assert(all =~= all.subrange(0, all.len() as int));
                }
            }
        }
        ClaimTaken { rows: self.rows, drained: self.drained }
    }
}

/// Taking in the next row of a scan, or its end, goes along with the scan.
pub proof fn taking_goes_along_with_the_scan(
    before: ClaimRows,
    after: ClaimRows,
    all: Seq<ClaimRow>,
)
    requires
        before.scans(all),
        !before.drained(),
        if before.rows().len() < all.len() {
            after.rows() == before.rows().push(all[before.rows().len() as int])
                && !after.drained()
        } else {
            after.rows() == before.rows() && after.drained()
        },
    ensures
        after.scans(all),
{
    if before.rows().len() < all.len() {
        assert(after.rows() =~= all.subrange(0, after.rows().len() as int));
    } else {
        assert(all.subrange(0, all.len() as int) =~= all);
    }
}

/// A job as its claim leaves it. The deduplication key is released with the
/// claim, so that no later state of the job can release it again.
pub open spec fn claimed_job(job: JobView, now: u64) -> JobView {
    JobView {
        status: JobStatus::Claimed,
        claimed_at: Some(now),
        attempts: (job.attempts + 1) as u32,
        dedup_key: None,
        ..job
    }
}

/// The store with one pending job claimed, but for the counters.
pub open spec fn claimed_one(s: StoreView, key: RecordKeyView, job: JobView, now: u64) -> StoreView {
    s.vacated(key).placed(
        claimed_place(job.queue, job.id),
        claimed_job(job, now).stored(),
    ).released(job.queue, job.dedup_key)
}

/// The store with pending jobs claimed in order, but for the counters.
pub open spec fn claimed_each(
    s: StoreView,
    rows: Seq<(RecordKeyView, JobView)>,
    now: u64,
) -> StoreView
    decreases rows.len(),
{
    if rows.len() == 0 {
        s
    } else {
        claimed_one(
            claimed_each(s, rows.drop_last(), now),
            rows.last().0,
            rows.last().1,
            now,
        )
    }
}

/// The store with pending jobs of a queue claimed.
pub open spec fn claimed_batch(
    s: StoreView,
    queue: Seq<char>,
    rows: Seq<(RecordKeyView, JobView)>,
    now: u64,
) -> StoreView {
    claimed_each(s, rows, now).counted(queue, JobStatus::Pending, -rows.len()).counted(
        queue,
        JobStatus::Claimed,
        rows.len() as int,
    )
}

/// The leases with those of newly claimed jobs registered.
pub open spec fn leased_each(
    leases: Map<(Seq<char>, Seq<char>), LeaseState>,
    rows: Seq<(RecordKeyView, JobView)>,
    tokens: Seq<u64>,
    expires_at: u64,
) -> Map<(Seq<char>, Seq<char>), LeaseState>
    decreases rows.len(),
{
    if rows.len() == 0 {
        leases
    } else {
        leased_each(leases, rows.drop_last(), tokens, expires_at).insert(
            (rows.last().1.queue, rows.last().1.id),
            LeaseState {
                expires_at,
                token: tokens[rows.len() - 1],
                cancelled: rows.last().1.cancel_requested,
                reaping: false,
            },
        )
    }
}

/// The transaction that claims the given pending jobs of a queue under the
/// given tokens.
///
/// The leases are registered at once, before the commit: one left by a
/// commit that fails is dropped when it comes due, while a claim without one
/// would be out of the reaper's sight.
pub fn claim_txn(
    registry: &mut LeaseRegistry,
    queue: &str,
    rows: &Vec<ClaimRow>,
    tokens: &Vec<u64>,
    now: u64,
    expires_at: u64,
) -> (r: Plan<Vec<Claim>>)
    requires
        rows@.len() == tokens@.len(),
        rows@.len() <= i64::MAX,
        forall|i: int| 0 <= i < rows@.len() ==> (#[trigger] rows@[i]).job.attempts < u32::MAX,
    ensures
        forall|s: StoreView| #[trigger]
            apply(s, op_views(r.ops@)) == claimed_batch(s, queue@, row_views(rows@), now),
        final(registry)@ == leased_each(old(registry)@, row_views(rows@), tokens@, expires_at),
        r.value@.len() == rows@.len(),
        forall|i: int|
            0 <= i < rows@.len() ==> (#[trigger] r.value@[i]).job@ == claimed_job(
                rows@[i].job@,
                now,
            ) && r.value@[i].token == tokens@[i],
{
    let reads = Reads::new();
    let mut txn = Txn::new(&reads);
    let mut claims: Vec<Claim> = Vec::new();
    let ghost all = row_views(rows@);
    let ghost leases = registry@;
    let mut i: usize = 0;
    proof {
        assert(all.subrange(0, 0) =~= Seq::empty());
    }
    while i < rows.len()
        invariant
            0 <= i <= rows@.len(),
            rows@.len() == tokens@.len(),
            all == row_views(rows@),
            forall|j: int| 0 <= j < rows@.len() ==> (#[trigger] rows@[j]).job.attempts < u32::MAX,
            forall|s: StoreView| #[trigger]
                txn.result(s) == claimed_each(s, all.subrange(0, i as int), now),
            registry@ == leased_each(leases, all.subrange(0, i as int), tokens@, expires_at),
            claims@.len() == i,
            forall|j: int|
                0 <= j < i ==> (#[trigger] claims@[j]).job@ == claimed_job(rows@[j].job@, now)
                    && claims@[j].token == tokens@[j],
        decreases rows@.len() - i,
    {
        proof {
            assert(all.subrange(0, i + 1).drop_last() =~= all.subrange(0, i as int));
            assert(all.subrange(0, i + 1).last() == all[i as int]);
        }
        let token: u64 = tokens[i];
        let mut job = rows[i].job.clone();
        job.status = JobStatus::Claimed;
        job.claimed_at = Some(now);
        job.attempts = job.attempts + 1;
        let released = job.dedup_key.take();
        let claimed = RecordKey::Claimed { queue: job.queue.clone(), id: job.id.clone() };
        txn.stage(Op::DeleteRecord { key: rows[i].key.clone() });
        put_job_record(&mut txn, &claimed, &job);
        registry.insert(
            job.queue.as_str(),
            job.id.as_str(),
            expires_at,
            token,
            job.cancel_requested,
        );
        if let Some(dk) = released {
            txn.stage(Op::DeleteDedup { queue: job.queue.clone(), dedup_key: dk });
        }
        claims.push(Claim { job, token });
        i += 1;
    }
    proof {
        assert(all.subrange(0, i as int) =~= all);
    }
    let count: i64 = rows.len() as i64;
    let deltas: [(JobStatus, i64); 2] = [(JobStatus::Pending, -count), (JobStatus::Claimed, count)];
    proof {
        reveal_with_fuel(counted_all, 3);
        assert(deltas@.drop_last().drop_last() =~= Seq::empty());
    }
    update_stats(&mut txn, queue, &deltas);
    txn.plan(claims)
}

/// New tokens, one for each of `n` claims.
pub fn draw_tokens(n: usize) -> (r: Vec<u64>)
    ensures
        r@.len() == n,
{
    let mut tokens: Vec<u64> = Vec::new();
    while tokens.len() < n
        invariant
            tokens@.len() <= n,
        decreases n - tokens@.len(),
    {
        tokens.push(new_claim_token());
    }
    tokens
}

/// Begins a claim of at most `max_jobs` jobs of a queue. There is nothing to
/// scan for where no job is asked for or the queue is known to be empty.
pub fn begin_claim_batch(cursor: &ClaimCursor, queue: &str, max_jobs: usize) -> (r: Result<
    Option<ClaimScan>,
    Error,
>)
    ensures
        match r {
            Err(e) => !name_fits(queue@) && e@ == (ErrorView::InvalidQueueName {
                queue: queue@,
                reason: "queue name exceeds the maximum length of 255 bytes"@,
            }),
            Ok(None) => name_fits(queue@) && (max_jobs == 0 || cursor.state(queue@).known_empty),
            Ok(Some(scan)) => name_fits(queue@) && max_jobs > 0 && !cursor.state(
                queue@,
            ).known_empty && scan@ == cursor.state(queue@),
        },
{
    if let Err(e) = validate_queue_name(queue) {
        return Err(e);
    }
    if max_jobs == 0 {
        return Ok(None);
    }
    let scan = cursor.begin_claim(queue);
    if scan.known_empty {
        return Ok(None);
    }
    Ok(Some(scan))
}

/// Whether a claim scan can start at a bound: it is a pending key of the
/// queue.
pub open spec fn bound_in_queue(queue: Seq<char>, bound: Option<ScanFromView>) -> bool {
    bound matches Some(b) ==> starts_with(b.key, queue_prefix(TAG_PENDING, queue))
}

/// The prefix of a claim scan and where it starts, as the part of the key
/// after the prefix.
pub fn claim_range(queue: &str, scan: &ClaimScan) -> (r: (Vec<u8>, KeyBound))
    requires
        name_fits(queue@),
        bound_in_queue(queue@, scan@.scan_from),
    ensures
        r.0@ == queue_prefix(TAG_PENDING, queue@),
        forall|suffix: Seq<u8>| #[trigger]
            past_start(suffix, r.1@) == within(r.0@ + suffix, scan@.scan_from),
{
    let prefix = pending_prefix(queue);
    match &scan.scan_from {
        None => (prefix, KeyBound::Unbounded),
        Some(b) => {
            let suffix = copy_range(b.key.as_slice(), prefix.len(), b.key.len());
            proof {
                assert(b.key@ =~= prefix@ + suffix@);
                assert forall|other: Seq<u8>| before(suffix@, other) == before(
                    b.key@,
                    #[trigger] (prefix@ + other),
                ) by {
                    before_after_common_prefix(prefix@, suffix@, other);
                }
                assert forall|other: Seq<u8>| (other == suffix@) == (#[trigger] (prefix@ + other)
                    == b.key@) by {
                    if prefix@ + other == b.key@ {
                        crate::bytes::concat_is_injective(prefix@, prefix@, other, suffix@);
                    }
                }
            }
            if b.inclusive {
                (prefix, KeyBound::Included(suffix))
            } else {
                (prefix, KeyBound::Excluded(suffix))
            }
        },
    }
}

/// The time at which a lease taken at `now` runs out.
pub fn lease_expiry_at(now: u64, lease: Duration) -> (r: u64)
    requires
        now + millis_of(lease@) <= u64::MAX,
    ensures
        r == now + millis_of(lease@),
{
    now + lease.as_millis()
}

/// What a claim that may wait does next.
#[derive(Clone, Copy, Debug, PartialEq, Eq, Structural)]
pub enum ClaimWait {
    /// Hand out the claimed job and pass the wakeup on to another waiter.
    Deliver,
    /// The time to wait ran out.
    GiveUp,
    /// Wait for a job for at most this long, then claim again.
    WaitFor(Duration),
}

/// What a claim that may wait for `max_wait` does when an attempt that found a
/// job or not ends `elapsed` after the first one began.
pub fn claim_wait_step(found: bool, elapsed: Duration, max_wait: Duration) -> (r: ClaimWait)
    ensures
        match r {
            ClaimWait::Deliver => found,
            ClaimWait::GiveUp => !found && elapsed@ >= max_wait@,
            ClaimWait::WaitFor(left) => !found && left@ == max_wait@ - elapsed@ && left@ > 0,
        },
{
    if found {
        return ClaimWait::Deliver;
    }
    let spent: u128 = elapsed.as_nanos();
    let limit: u128 = max_wait.as_nanos();
    if spent >= limit {
        return ClaimWait::GiveUp;
    }
    match Duration::from_nanos(limit - spent) {
        Some(left) => ClaimWait::WaitFor(left),
        None => ClaimWait::GiveUp,
    }
}

} // verus!

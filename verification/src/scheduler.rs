//! Moving scheduled jobs to pending once they are due.

use crate::bytes::{
    before, before_by_leading_field, big_endian, big_endian_keeps_order, big_endian_len, copy_bytes,
    parts_at, pow256_values, push_big_endian,
};
use crate::error::ErrorView;
use crate::job::{JobRecord, JobStatus, JobView};
use crate::keys::{
    key_timestamp, parse_key_timestamp, scheduled_keys_are_in_time_order, KeyTag, RecordKey,
    RecordKeyView,
};
use crate::range::{past_start, KeyBound, KeyBoundView};
use crate::settle::made_pending;
use crate::store::{entry, Op, StoreView};
use crate::time_bound::{earlier, key_due, Scan, ScanView, TimeBound};
use crate::txn::{follows, stage_to_pending, NeedView, Plan, Reads, Stop, Txn};
use vstd::prelude::*;

verus! {

/// A pass over the scheduled keys that collects those that are due.
#[derive(Debug)]
pub struct Promotion {
    scan: Scan,
    due: Vec<Vec<u8>>,
}

/// The contents of a [`Promotion`].
pub struct PromotionView {
    /// The scan of the time bound.
    pub scan: ScanView,
    /// The due keys found so far.
    pub due: Seq<Seq<u8>>,
}

impl View for Promotion {
    type V = PromotionView;

    closed spec fn view(&self) -> PromotionView {
        PromotionView {
            scan: self.scan@,
            due: Seq::new(self.due@.len(), |i: int| self.due@[i]@),
        }
    }
}

impl PromotionView {
    /// A pass at `now` that begins at `from`.
    pub open spec fn begun(from: u64, now: u64) -> PromotionView {
        PromotionView {
            scan: ScanView { now_ms: now, retention_ms: 0, from, retained: u64::MAX },
            due: Seq::empty(),
        }
    }

    /// The pass after it visits a key, and whether it goes on.
    pub open spec fn visited(self, key: Seq<u8>) -> (PromotionView, bool) {
        match key_timestamp(key, KeyTag::Scheduled) {
            None => (self, true),
            Some(at) => if key_due(at as u64, self.scan.now_ms, self.scan.retention_ms) {
                (PromotionView { due: self.due.push(key), ..self }, true)
            } else {
                (
                    PromotionView {
                        scan: ScanView {
                            retained: earlier(self.scan.retained, at as u64),
                            ..self.scan
                        },
                        ..self
                    },
                    false,
                )
            },
        }
    }

    /// The pass after it visits keys in order, up to the one that ends it.
    pub open spec fn over(self, keys: Seq<Seq<u8>>) -> PromotionView
        decreases keys.len(),
    {
        if keys.len() == 0 {
            self
        } else {
            let (after, more) = self.visited(keys[0]);
            if more {
                after.over(keys.drop_first())
            } else {
                after
            }
        }
    }
}

impl Promotion {

    /// Begins a pass at `now`, or returns `None` where no job can be due.
    pub fn begin(bound: &mut TimeBound, now: u64) -> (r: Option<Promotion>)
        ensures
            match r {
                None => !key_due(old(bound)@, now, 0) && final(bound)@ == old(bound)@,
                Some(pass) => {
                    &&& key_due(old(bound)@, now, 0)
                    &&& final(bound)@ == u64::MAX
                    &&& pass@ == PromotionView::begun(old(bound)@, now)
                },
            },
    {
        match bound.begin(now, 0) {
            Some(scan) => {
                let due: Vec<Vec<u8>> = Vec::new();
                let pass = Promotion { scan, due };
                assert(pass@.due =~= Seq::empty());
                Some(pass)
            },
            None => None,
        }
    }

    /// Where the pass starts, as the part of the key after the tag.
    pub fn start(&self) -> (r: KeyBound)
        ensures
            r@ == KeyBoundView::Included(big_endian(self@.scan.from as nat, 8)),
    {
        let mut start: Vec<u8> = Vec::new();
        push_big_endian(&mut start, self.scan.from(), 8);
        assert(start@ =~= big_endian(self@.scan.from as nat, 8));
        KeyBound::Included(start)
    }

    /// Visits a scheduled key in key order. The first one that is not due
    /// ends the pass. Returns whether the pass goes on.
    pub fn visit(&mut self, key: &[u8]) -> (r: bool)
        ensures
            (final(self)@, r) == old(self)@.visited(key@),
    {
        let ghost before = self@.due;
        match parse_key_timestamp(key, KeyTag::Scheduled) {
            None => {
                assert(self@.due =~= before);
                true
            },
            Some(run_at) => {
                if self.scan.due(run_at) {
                    self.due.push(copy_bytes(key));
                    assert(self@.due =~= before.push(key@));
                    true
                } else {
                    self.scan.retain(run_at);
                    assert(self@.due =~= before);
                    false
                }
            },
        }
    }

    /// The due keys, and the scan to complete once they are promoted.
    pub fn into_due(self) -> (r: (Vec<Vec<u8>>, Scan))
        ensures
            Seq::new(r.0@.len(), |i: int| r.0@[i]@) == self@.due,
            r.1@ == self@.scan,
    {
        (self.due, self.scan)
    }
}

/// The range of a pass holds the scheduled keys at or after the bound and no
/// others.
pub proof fn promotion_range_is_exact(from: u64, run_at: u64, rest: Seq<u8>)
    ensures
        past_start(
            big_endian(run_at as nat, 8) + rest,
            KeyBoundView::Included(big_endian(from as nat, 8)),
        ) <==> from <= run_at,
{
    pow256_values();
    let a = big_endian(from as nat, 8);
    let b = big_endian(run_at as nat, 8);
    big_endian_len(from as nat, 8);
    big_endian_len(run_at as nat, 8);
    big_endian_keeps_order(from as nat, run_at as nat, 8);
    assert(a + Seq::<u8>::empty() =~= a);
    if from == run_at {
        if rest.len() > 0 {
            assert(parts_at(a, b + rest, 8));
        } else {
            assert(b + rest =~= b);
        }
    } else {
        before_by_leading_field(a, b, Seq::empty(), rest);
        assert((b + rest).subrange(0, 8) =~= b);
        assert(a.subrange(0, 8) =~= a);
    }
}

/// A pass that ends at a key that is not due misses nothing: no scheduled key
/// after it is due.
pub proof fn promotion_end_misses_nothing(
    at1: u64,
    queue1: Seq<char>,
    id1: Seq<char>,
    at2: u64,
    queue2: Seq<char>,
    id2: Seq<char>,
    now: u64,
)
    requires
        before(
            (RecordKeyView::Scheduled { run_at: at1, queue: queue1, id: id1 }).encode(),
            (RecordKeyView::Scheduled { run_at: at2, queue: queue2, id: id2 }).encode(),
        ),
        !key_due(at1, now, 0),
    ensures
        !key_due(at2, now, 0),
        at1 <= at2,
{
    if at1 != at2 {
        scheduled_keys_are_in_time_order(at1, queue1, id1, at2, queue2, id2);
    }
}

/// What a promotion did.
#[derive(Debug)]
pub struct Promoted {
    /// The job and the place of its pending record; `None` where the job is
    /// no longer scheduled.
    pub moved: Option<(JobRecord, RecordKey)>,
}

/// The contents of [`Promoted`].
pub struct PromotedView {
    pub moved: Option<(JobView, RecordKeyView)>,
}

impl View for Promoted {
    type V = PromotedView;

    open spec fn view(&self) -> PromotedView {
        PromotedView {
            moved: match self.moved {
                Some((job, key)) => Some((job@, key@)),
                None => None,
            },
        }
    }
}

/// What promoting the job scheduled at `key` leaves of the store `s`, and the
/// job it moved.
pub open spec fn promoted(s: StoreView, key: RecordKeyView) -> Result<
    (StoreView, PromotedView),
    ErrorView,
> {
    match entry(s.records, key) {
        None => Ok((s, PromotedView { moved: None })),
        Some(job) => Ok(
            (
                made_pending(s, key, job, JobStatus::Scheduled),
                PromotedView {
                    moved: Some(
                        (
                            JobView { status: JobStatus::Pending, run_at: None, ..job },
                            RecordKeyView::Pending {
                                queue: job.queue,
                                priority: job.priority,
                                id: job.id,
                            },
                        ),
                    ),
                },
            ),
        ),
    }
}

/// The transaction that moves a due job to pending. A job that was moved or
/// removed in the meantime is left alone.
pub fn promote_txn(reads: &Reads, key: &RecordKey) -> (r: Result<Plan<Promoted>, Stop>)
    ensures
        follows(
            r,
            *reads,
            |s: StoreView| promoted(s, key@),
            |need: NeedView| need == (NeedView::Record { key: key@ }),
        ),
{
    let mut txn = Txn::new(reads);
    let mut job = match txn.record(key) {
        Ok(Some(job)) => job,
        Ok(None) => {
            return Ok(txn.plan(Promoted { moved: None }));
        },
        Err(stop) => {
            return Err(stop);
        },
    };
    txn.stage(Op::DeleteRecord { key: key.clone() });
    let pending = stage_to_pending(&mut txn, &mut job, JobStatus::Scheduled);
    Ok(txn.plan(Promoted { moved: Some((job, pending)) }))
}

} // verus!

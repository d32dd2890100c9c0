//! The contents of the store, as the queue's transitions see them, and the
//! operations a transaction writes.

use crate::job::{JobAttempt, JobAttemptView, JobRecord, JobStatus, JobView};
use crate::keys::{
    attempt_history_key, dedup_index_key, job_index_key, queue_fits, stats_key, user_scoped_key,
    RecordKey, RecordKeyView, StoreKey,
};
use vstd::prelude::*;

verus! {

/// The contents of the store.
#[verifier::ext_equal]
pub struct StoreView {
    /// The job records by place.
    pub records: Map<RecordKeyView, JobView>,
    /// The place of each job's record.
    pub index: Map<Seq<char>, RecordKeyView>,
    /// The job that holds a deduplication key of a queue.
    pub dedup: Map<(Seq<char>, Seq<char>), Seq<char>>,
    /// The job counters; one that was never added to is absent.
    pub counters: Map<(Seq<char>, JobStatus), int>,
    /// The attempt histories.
    pub history: Map<Seq<char>, Seq<JobAttemptView>>,
    /// The caller's entries.
    pub kv: Map<Seq<u8>, Seq<u8>>,
}

/// A map entry as an option.
pub open spec fn entry<K, V>(m: Map<K, V>, k: K) -> Option<V> {
    if m.contains_key(k) {
        Some(m[k])
    } else {
        None
    }
}

impl StoreView {
    /// The value of a counter.
    pub open spec fn count(self, queue: Seq<char>, status: JobStatus) -> int {
        match entry(self.counters, (queue, status)) {
            Some(n) => n,
            None => 0,
        }
    }

    /// The recorded attempts of a job.
    pub open spec fn attempts(self, id: Seq<char>) -> Seq<JobAttemptView> {
        match entry(self.history, id) {
            Some(list) => list,
            None => Seq::empty(),
        }
    }

    /// The record of a job, found through the index.
    pub open spec fn job(self, id: Seq<char>) -> Option<JobView> {
        match entry(self.index, id) {
            Some(key) => entry(self.records, key),
            None => None,
        }
    }

    /// The store with a record written at `key` and the job's index entry
    /// pointing there.
    pub open spec fn placed(self, key: RecordKeyView, job: JobView) -> StoreView {
        StoreView {
            records: self.records.insert(key, job),
            index: self.index.insert(job.id, key),
            ..self
        }
    }

    /// The store without the record at `key`; the index is left alone.
    pub open spec fn vacated(self, key: RecordKeyView) -> StoreView {
        StoreView { records: self.records.remove(key), ..self }
    }

    /// The store without the index entry and the history of a job.
    pub open spec fn forgotten(self, id: Seq<char>) -> StoreView {
        StoreView { index: self.index.remove(id), history: self.history.remove(id), ..self }
    }

    /// The store with `delta` added to a counter.
    pub open spec fn counted(self, queue: Seq<char>, status: JobStatus, delta: int) -> StoreView {
        if delta == 0 {
            self
        } else {
            StoreView {
                counters: self.counters.insert(
                    (queue, status),
                    self.count(queue, status) + delta,
                ),
                ..self
            }
        }
    }

    /// The store with one job of a queue counted in `to` that was counted in
    /// `from`.
    pub open spec fn recounted(self, queue: Seq<char>, from: JobStatus, to: JobStatus) -> StoreView {
        self.counted(queue, from, -1).counted(queue, to, 1)
    }

    /// The store with an entry appended to a job's history.
    pub open spec fn noted(self, id: Seq<char>, attempt: JobAttemptView) -> StoreView {
        StoreView { history: self.history.insert(id, self.attempts(id).push(attempt)), ..self }
    }

    /// The store with a deduplication key released.
    pub open spec fn released(self, queue: Seq<char>, dedup_key: Option<Seq<char>>) -> StoreView {
        match dedup_key {
            Some(dk) => StoreView { dedup: self.dedup.remove((queue, dk)), ..self },
            None => self,
        }
    }

    /// The store with a deduplication key held by job `id`.
    pub open spec fn held(
        self,
        queue: Seq<char>,
        dedup_key: Option<Seq<char>>,
        id: Seq<char>,
    ) -> StoreView {
        match dedup_key {
            Some(dk) => StoreView { dedup: self.dedup.insert((queue, dk), id), ..self },
            None => self,
        }
    }
}

/// One operation of a transaction.
#[derive(Debug)]
pub enum Op {
    /// Write a record.
    PutRecord { key: RecordKey, record: JobRecord },
    /// Delete a record.
    DeleteRecord { key: RecordKey },
    /// Point a job's index entry at a record.
    PutIndex { id: String, key: RecordKey },
    /// Delete a job's index entry.
    DeleteIndex { id: String },
    /// Let a job hold a deduplication key.
    PutDedup { queue: String, dedup_key: String, id: String },
    /// Release a deduplication key.
    DeleteDedup { queue: String, dedup_key: String },
    /// Merge a delta into a counter.
    AddStat { queue: String, status: JobStatus, delta: i64 },
    /// Merge an entry onto a job's history.
    AppendAttempt { id: String, attempt: JobAttempt },
    /// Delete a job's history.
    DeleteHistory { id: String },
    /// Write an entry of the caller.
    PutKv { kv_key: Vec<u8>, value: Vec<u8> },
    /// Delete an entry of the caller.
    DeleteKv { kv_key: Vec<u8> },
}

/// The contents of an [`Op`].
pub enum OpView {
    PutRecord { key: RecordKeyView, record: JobView },
    DeleteRecord { key: RecordKeyView },
    PutIndex { id: Seq<char>, key: RecordKeyView },
    DeleteIndex { id: Seq<char> },
    PutDedup { queue: Seq<char>, dedup_key: Seq<char>, id: Seq<char> },
    DeleteDedup { queue: Seq<char>, dedup_key: Seq<char> },
    AddStat { queue: Seq<char>, status: JobStatus, delta: int },
    AppendAttempt { id: Seq<char>, attempt: JobAttemptView },
    DeleteHistory { id: Seq<char> },
    PutKv { kv_key: Seq<u8>, value: Seq<u8> },
    DeleteKv { kv_key: Seq<u8> },
}

impl View for Op {
    type V = OpView;

    open spec fn view(&self) -> OpView {
        match self {
            Op::PutRecord { key, record } => OpView::PutRecord { key: key@, record: record@ },
            Op::DeleteRecord { key } => OpView::DeleteRecord { key: key@ },
            Op::PutIndex { id, key } => OpView::PutIndex { id: id@, key: key@ },
            Op::DeleteIndex { id } => OpView::DeleteIndex { id: id@ },
            Op::PutDedup { queue, dedup_key, id } => OpView::PutDedup {
                queue: queue@,
                dedup_key: dedup_key@,
                id: id@,
            },
            Op::DeleteDedup { queue, dedup_key } => OpView::DeleteDedup {
                queue: queue@,
                dedup_key: dedup_key@,
            },
            Op::AddStat { queue, status, delta } => OpView::AddStat {
                queue: queue@,
                status: *status,
                delta: *delta as int,
            },
            Op::AppendAttempt { id, attempt } => OpView::AppendAttempt {
                id: id@,
                attempt: attempt@,
            },
            Op::DeleteHistory { id } => OpView::DeleteHistory { id: id@ },
            Op::PutKv { kv_key, value } => OpView::PutKv { kv_key: kv_key@, value: value@ },
            Op::DeleteKv { kv_key } => OpView::DeleteKv { kv_key: kv_key@ },
        }
    }
}

impl OpView {
    /// The store key that the operation writes.
    pub open spec fn target(self) -> StoreKey {
        match self {
            OpView::PutRecord { key, .. } => StoreKey::Record(key),
            OpView::DeleteRecord { key } => StoreKey::Record(key),
            OpView::PutIndex { id, .. } => StoreKey::Index { id },
            OpView::DeleteIndex { id } => StoreKey::Index { id },
            OpView::PutDedup { queue, dedup_key, .. } => StoreKey::Dedup { queue, dedup_key },
            OpView::DeleteDedup { queue, dedup_key } => StoreKey::Dedup { queue, dedup_key },
            OpView::AddStat { queue, status, .. } => StoreKey::Stats { queue, status },
            OpView::AppendAttempt { id, .. } => StoreKey::History { id },
            OpView::DeleteHistory { id } => StoreKey::History { id },
            OpView::PutKv { kv_key, .. } => StoreKey::User { key: kv_key },
            OpView::DeleteKv { kv_key } => StoreKey::User { key: kv_key },
        }
    }
}

impl Op {
    /// Whether the key that the operation writes can be encoded.
    pub fn fits(&self) -> (r: bool)
        ensures
            r == self@.target().fits(),
    {
        match self {
            Op::PutRecord { key, .. } => key.fits(),
            Op::DeleteRecord { key } => key.fits(),
            Op::PutDedup { queue, .. } => queue_fits(queue.as_str()),
            Op::DeleteDedup { queue, .. } => queue_fits(queue.as_str()),
            Op::AddStat { queue, .. } => queue_fits(queue.as_str()),
            _ => true,
        }
    }

    /// The key that the operation writes, as bytes.
    pub fn target(&self) -> (r: Vec<u8>)
        requires
            self@.target().fits(),
        ensures
            r@ == self@.target().encode(),
    {
        match self {
            Op::PutRecord { key, .. } => key.encode(),
            Op::DeleteRecord { key } => key.encode(),
            Op::PutIndex { id, .. } => job_index_key(id.as_str()),
            Op::DeleteIndex { id } => job_index_key(id.as_str()),
            Op::PutDedup { queue, dedup_key, .. } => dedup_index_key(
                queue.as_str(),
                dedup_key.as_str(),
            ),
            Op::DeleteDedup { queue, dedup_key } => dedup_index_key(
                queue.as_str(),
                dedup_key.as_str(),
            ),
            Op::AddStat { queue, status, .. } => stats_key(queue.as_str(), *status),
            Op::AppendAttempt { id, .. } => attempt_history_key(id.as_str()),
            Op::DeleteHistory { id } => attempt_history_key(id.as_str()),
            Op::PutKv { kv_key, .. } => user_scoped_key(kv_key.as_slice()),
            Op::DeleteKv { kv_key } => user_scoped_key(kv_key.as_slice()),
        }
    }
}

/// The store after one operation.
pub open spec fn apply_op(s: StoreView, op: OpView) -> StoreView {
    match op {
        OpView::PutRecord { key, record } => StoreView {
            records: s.records.insert(key, record),
            ..s
        },
        OpView::DeleteRecord { key } => s.vacated(key),
        OpView::PutIndex { id, key } => StoreView { index: s.index.insert(id, key), ..s },
        OpView::DeleteIndex { id } => StoreView { index: s.index.remove(id), ..s },
        OpView::PutDedup { queue, dedup_key, id } => s.held(queue, Some(dedup_key), id),
        OpView::DeleteDedup { queue, dedup_key } => s.released(queue, Some(dedup_key)),
        OpView::AddStat { queue, status, delta } => s.counted(queue, status, delta),
        OpView::AppendAttempt { id, attempt } => s.noted(id, attempt),
        OpView::DeleteHistory { id } => StoreView { history: s.history.remove(id), ..s },
        OpView::PutKv { kv_key, value } => StoreView { kv: s.kv.insert(kv_key, value), ..s },
        OpView::DeleteKv { kv_key } => StoreView { kv: s.kv.remove(kv_key), ..s },
    }
}

/// The store after a list of operations, in order.
pub open spec fn apply(s: StoreView, ops: Seq<OpView>) -> StoreView
    decreases ops.len(),
{
    if ops.len() == 0 {
        s
    } else {
        apply_op(apply(s, ops.drop_last()), ops.last())
    }
}

/// The contents of a list of operations.
pub open spec fn op_views(ops: Seq<Op>) -> Seq<OpView> {
    Seq::new(ops.len(), |i: int| ops[i]@)
}

/// Appending an operation applies it last.
pub proof fn apply_push(s: StoreView, ops: Seq<OpView>, op: OpView)
    ensures
        apply(s, ops.push(op)) == apply_op(apply(s, ops), op),
{
    assert(ops.push(op).drop_last() =~= ops);
}

/// The place that the operations leave in a job's index entry, where they
/// write it.
pub open spec fn staged_location(ops: Seq<OpView>, id: Seq<char>) -> Option<Option<RecordKeyView>>
    decreases ops.len(),
{
    if ops.len() == 0 {
        None
    } else {
        match ops.last() {
            OpView::PutIndex { id: written, key } if written == id => Some(Some(key)),
            OpView::DeleteIndex { id: written } if written == id => Some(None),
            _ => staged_location(ops.drop_last(), id),
        }
    }
}

/// The job that the operations leave holding a deduplication key, where they
/// write it.
pub open spec fn staged_dedup(
    ops: Seq<OpView>,
    queue: Seq<char>,
    dedup_key: Seq<char>,
) -> Option<Option<Seq<char>>>
    decreases ops.len(),
{
    if ops.len() == 0 {
        None
    } else {
        match ops.last() {
            OpView::PutDedup { queue: q, dedup_key: dk, id } if q == queue && dk == dedup_key =>
                Some(Some(id)),
            OpView::DeleteDedup { queue: q, dedup_key: dk } if q == queue && dk == dedup_key =>
                Some(None),
            _ => staged_dedup(ops.drop_last(), queue, dedup_key),
        }
    }
}

pub proof fn staged_location_is_applied(s: StoreView, ops: Seq<OpView>, id: Seq<char>)
    ensures
        entry(apply(s, ops).index, id) == match staged_location(ops, id) {
            Some(place) => place,
            None => entry(s.index, id),
        },
    decreases ops.len(),
{
    if ops.len() > 0 {
        staged_location_is_applied(s, ops.drop_last(), id);
    }
}

pub proof fn staged_dedup_is_applied(
    s: StoreView,
    ops: Seq<OpView>,
    queue: Seq<char>,
    dedup_key: Seq<char>,
)
    ensures
        entry(apply(s, ops).dedup, (queue, dedup_key)) == match staged_dedup(
            ops,
            queue,
            dedup_key,
        ) {
            Some(holder) => holder,
            None => entry(s.dedup, (queue, dedup_key)),
        },
    decreases ops.len(),
{
    if ops.len() > 0 {
        staged_dedup_is_applied(s, ops.drop_last(), queue, dedup_key);
    }
}

/// Whether the operations leave every record as it was.
pub open spec fn touches_no_record(ops: Seq<OpView>) -> bool {
    forall|i: int|
        0 <= i < ops.len() ==> !(#[trigger] ops[i] is PutRecord) && !(ops[i] is DeleteRecord)
}

pub proof fn untouched_records_are_kept(s: StoreView, ops: Seq<OpView>)
    requires
        touches_no_record(ops),
    ensures
        apply(s, ops).records == s.records,
    decreases ops.len(),
{
    if ops.len() > 0 {
        assert(touches_no_record(ops.drop_last())) by {
            assert forall|i: int| 0 <= i < ops.drop_last().len() implies !(
            #[trigger] ops.drop_last()[i] is PutRecord) && !(ops.drop_last()[i]
                is DeleteRecord) by {
                assert(ops.drop_last()[i] == ops[i]);
            }
        }
        untouched_records_are_kept(s, ops.drop_last());
        assert(!(ops[ops.len() - 1] is PutRecord));
    }
}

} // verus!

//! What every transition of the queue keeps true of the store.

use crate::claim::{claimed_batch, claimed_each, claimed_job, claimed_one, leased_each};
use crate::enqueue::{
    effects_applied, enqueued, enqueued_all, kv_deleted, kv_written, prepared_job,
    EnqueueResultView, PreparedEffectsView, PreparedView,
};
use crate::error::ErrorView;
use crate::job::{JobAttemptView, JobStatus, JobView};
use crate::keys::{name_fits, RecordKeyView};
use crate::lease_registry::LeaseState;
use crate::options::{EnqueueOptions, QueueConfig, QueueConfigs};
use crate::reaper::{reaped, swept, unsettled, unsettled_end};
use crate::scheduler::promoted;
use crate::settle::{
    cancelled, claim_settled, job_removed, made_pending, nack_end, nacked, requeued, revived, woken,
    CancelOutcome, SettledView,
};
use crate::store::{entry, StoreView};
use crate::txn::{claim_held, claimed_place, ClaimEndView};
use vstd::prelude::*;

verus! {

/// Whether a record belongs at a place.
pub open spec fn fits_place(key: RecordKeyView, job: JobView) -> bool {
    &&& name_fits(key.queue())
    &&& job.id == key.id()
    &&& job.queue == key.queue()
    &&& job.status == key.status()
    &&& job == job.stored()
    &&& match key {
        RecordKeyView::Pending { priority, .. } => job.priority == priority && job.run_at is None,
        RecordKeyView::Scheduled { run_at, .. } => job.run_at == Some(run_at),
        RecordKeyView::Done { completed_at, .. } => job.completed_at == Some(completed_at)
            && job.dedup_key is None,
        _ => job.dedup_key is None,
    }
}

/// The records of a queue's jobs in a state.
pub open spec fn jobs_in(s: StoreView, queue: Seq<char>, status: JobStatus) -> Set<RecordKeyView> {
    s.records.dom().filter(|key: RecordKeyView| key.queue() == queue && key.status() == status)
}

/// Each job has one record, where its index entry points.
pub open spec fn index_exact(s: StoreView) -> bool {
    &&& forall|key: RecordKeyView| #[trigger]
        s.records.contains_key(key) ==> {
            &&& s.index.contains_key(key.id())
            &&& s.index[key.id()] == key
            &&& fits_place(key, s.records[key])
        }
    &&& forall|id: Seq<char>| #[trigger]
        s.index.contains_key(id) ==> s.records.contains_key(s.index[id]) && s.index[id].id() == id
}

/// A deduplication key is held by the one pending or scheduled job of its
/// queue that carries it.
pub open spec fn dedup_exact(s: StoreView) -> bool {
    &&& forall|queue: Seq<char>, dk: Seq<char>| #[trigger]
        s.dedup.contains_key((queue, dk)) ==> {
            &&& s.index.contains_key(s.dedup[(queue, dk)])
            &&& s.records[s.index[s.dedup[(queue, dk)]]].queue == queue
            &&& s.records[s.index[s.dedup[(queue, dk)]]].dedup_key == Some(dk)
        }
    &&& forall|key: RecordKeyView| #[trigger]
        s.records.contains_key(key) ==> (s.records[key].dedup_key matches Some(dk) ==> {
            &&& s.dedup.contains_key((key.queue(), dk))
            &&& s.dedup[(key.queue(), dk)] == key.id()
        })
}

/// Only jobs that have a record have a history.
pub open spec fn history_owned(s: StoreView) -> bool {
    forall|id: Seq<char>| #[trigger] s.history.contains_key(id) ==> s.index.contains_key(id)
}

/// The counters of the live states are the numbers of jobs in them.
pub open spec fn counters_exact(s: StoreView) -> bool {
    forall|queue: Seq<char>, status: JobStatus|
        status != JobStatus::Done ==> #[trigger] s.count(queue, status) == jobs_in(
            s,
            queue,
            status,
        ).len()
}

/// What holds of the store between transactions.
pub open spec fn well_formed(s: StoreView) -> bool {
    &&& s.records.dom().finite()
    &&& index_exact(s)
    &&& dedup_exact(s)
    &&& history_owned(s)
    &&& counters_exact(s)
}

/// A store that nothing was written to is well formed.
pub proof fn empty_store_is_well_formed(kv: Map<Seq<u8>, Seq<u8>>)
    ensures
        well_formed(
            StoreView {
                records: Map::empty(),
                index: Map::empty(),
                dedup: Map::empty(),
                counters: Map::empty(),
                history: Map::empty(),
                kv,
            },
        ),
{
    let s = StoreView {
        records: Map::empty(),
        index: Map::empty(),
        dedup: Map::empty(),
        counters: Map::empty(),
        history: Map::empty(),
        kv,
    };
    assert(s.records.dom() =~= Set::empty());
    assert forall|queue: Seq<char>, status: JobStatus| status
        != JobStatus::Done implies #[trigger] s.count(queue, status) == jobs_in(
        s,
        queue,
        status,
    ).len() by {
        assert(jobs_in(s, queue, status) =~= Set::empty());
    }
}

spec fn place_matches(key: RecordKeyView, queue: Seq<char>, status: JobStatus) -> int {
    if key.queue() == queue && key.status() == status {
        1
    } else {
        0
    }
}

proof fn count_after_insert(
    dom: Set<RecordKeyView>,
    key: RecordKeyView,
    queue: Seq<char>,
    status: JobStatus,
)
    requires
        dom.finite(),
        !dom.contains(key),
    ensures
        ({
            let p = |k: RecordKeyView| k.queue() == queue && k.status() == status;
            dom.insert(key).filter(p).len() == dom.filter(p).len() + place_matches(
                key,
                queue,
                status,
            )
        }),
{
    let p = |k: RecordKeyView| k.queue() == queue && k.status() == status;
    dom.lemma_len_filter(p);
    if p(key) {
        assert(dom.insert(key).filter(p) =~= dom.filter(p).insert(key));
    } else {
        assert(dom.insert(key).filter(p) =~= dom.filter(p));
    }
}

proof fn count_after_remove(
    dom: Set<RecordKeyView>,
    key: RecordKeyView,
    queue: Seq<char>,
    status: JobStatus,
)
    requires
        dom.finite(),
        dom.contains(key),
    ensures
        ({
            let p = |k: RecordKeyView| k.queue() == queue && k.status() == status;
            dom.remove(key).filter(p).len() == dom.filter(p).len() - place_matches(
                key,
                queue,
                status,
            )
        }),
{
    count_after_insert(dom.remove(key), key, queue, status);
    assert(dom.remove(key).insert(key) =~= dom);
}

/// How the records of a store change when a job arrives, moves or leaves.
spec fn records_step(
    before: StoreView,
    after: StoreView,
    from: Option<RecordKeyView>,
    to: Option<RecordKeyView>,
    job: JobView,
) -> bool {
    let vacated = match from {
        Some(key) => before.records.remove(key),
        None => before.records,
    };
    &&& after.records == match to {
        Some(key) => vacated.insert(key, job),
        None => vacated,
    }
    &&& from matches Some(key) ==> before.records.contains_key(key)
    &&& to matches Some(key) ==> !vacated.contains_key(key)
}

/// The counters of the live states follow the records.
spec fn counters_step(
    before: StoreView,
    after: StoreView,
    from: Option<RecordKeyView>,
    to: Option<RecordKeyView>,
) -> bool {
    forall|queue: Seq<char>, status: JobStatus|
        status != JobStatus::Done ==> #[trigger] after.count(queue, status) == before.count(
            queue,
            status,
        ) - (match from {
            Some(key) => place_matches(key, queue, status),
            None => 0,
        }) + (match to {
            Some(key) => place_matches(key, queue, status),
            None => 0,
        })
}

proof fn counters_follow(
    before: StoreView,
    after: StoreView,
    from: Option<RecordKeyView>,
    to: Option<RecordKeyView>,
    job: JobView,
)
    requires
        well_formed(before),
        records_step(before, after, from, to, job),
        counters_step(before, after, from, to),
    ensures
        after.records.dom().finite(),
        counters_exact(after),
{
    let vacated = match from {
        Some(key) => before.records.remove(key),
        None => before.records,
    };
    match from {
        Some(key) => {
            assert(vacated.dom() =~= before.records.dom().remove(key));
        },
        None => {},
    }
    match to {
        Some(key) => {
            assert(after.records.dom() =~= vacated.dom().insert(key));
        },
        None => {},
    }
    assert forall|queue: Seq<char>, status: JobStatus| status
        != JobStatus::Done implies #[trigger] after.count(queue, status) == jobs_in(
        after,
        queue,
        status,
    ).len() by {
        assert(before.count(queue, status) == jobs_in(before, queue, status).len());
        match from {
            Some(key) => {
                count_after_remove(before.records.dom(), key, queue, status);
            },
            None => {},
        }
        match to {
            Some(key) => {
                count_after_insert(vacated.dom(), key, queue, status);
            },
            None => {},
        }
    }
}

/// A job that arrives keeps the store well formed.
proof fn arrival_keeps_well_formed(
    before: StoreView,
    after: StoreView,
    key: RecordKeyView,
    job: JobView,
)
    requires
        well_formed(before),
        fits_place(key, job),
        !before.index.contains_key(job.id),
        job.dedup_key matches Some(dk) ==> !before.dedup.contains_key((job.queue, dk)),
        after == before.placed(key, job).held(job.queue, job.dedup_key, job.id).counted(
            job.queue,
            key.status(),
            1,
        ),
    ensures
        well_formed(after),
{
    assert(!before.records.contains_key(key));
    assert(counters_step(before, after, None, Some(key)));
    counters_follow(before, after, None, Some(key), job);
    assert forall|k: RecordKeyView| #[trigger] after.records.contains_key(k) implies {
        &&& after.index.contains_key(k.id())
        &&& after.index[k.id()] == k
        &&& fits_place(k, after.records[k])
    } by {
        if k != key {
            assert(before.records.contains_key(k));
        }
    }
    assert forall|id: Seq<char>| #[trigger] after.index.contains_key(
        id,
    ) implies after.records.contains_key(after.index[id]) && after.index[id].id() == id by {
        if id != job.id {
            assert(before.index.contains_key(id));
        }
    }
    assert forall|queue: Seq<char>, dk: Seq<char>| #[trigger] after.dedup.contains_key(
        (queue, dk),
    ) implies {
        &&& after.index.contains_key(after.dedup[(queue, dk)])
        &&& after.records[after.index[after.dedup[(queue, dk)]]].queue == queue
        &&& after.records[after.index[after.dedup[(queue, dk)]]].dedup_key == Some(dk)
    } by {
        if job.dedup_key == Some(dk) && queue == job.queue {
        } else {
            assert(before.dedup.contains_key((queue, dk)));
            let holder = before.dedup[(queue, dk)];
            assert(before.index.contains_key(holder));
            assert(before.records.contains_key(before.index[holder]));
        }
    }
    assert forall|k: RecordKeyView| #[trigger] after.records.contains_key(k) implies (
    after.records[k].dedup_key matches Some(dk) ==> {
        &&& after.dedup.contains_key((k.queue(), dk))
        &&& after.dedup[(k.queue(), dk)] == k.id()
    }) by {
        if k != key {
            assert(before.records.contains_key(k));
        }
    }
}

/// A job that moves, or whose record is rewritten where it stands, keeps the
/// store well formed.
proof fn move_keeps_well_formed(
    before: StoreView,
    after: StoreView,
    from: RecordKeyView,
    to: RecordKeyView,
    job: JobView,
)
    requires
        well_formed(before),
        before.records.contains_key(from),
        fits_place(to, job),
        to.id() == from.id(),
        to.queue() == from.queue(),
        job.dedup_key == before.records[from].dedup_key || job.dedup_key is None,
        after.records == before.records.remove(from).insert(to, job),
        after.index == before.index.insert(job.id, to),
        after.dedup == if job.dedup_key is None {
            before.released(job.queue, before.records[from].dedup_key).dedup
        } else {
            before.dedup
        },
        counters_step(before, after, Some(from), Some(to)),
        forall|id: Seq<char>| #[trigger]
            after.history.contains_key(id) ==> before.history.contains_key(id) || id == job.id,
    ensures
        well_formed(after),
{
    if to != from {
        assert(!before.records.contains_key(to)) by {
            if before.records.contains_key(to) {
                assert(before.index[to.id()] == to);
                assert(before.index[from.id()] == from);
            }
        }
    }
    counters_follow(before, after, Some(from), Some(to), job);
    assert forall|k: RecordKeyView| #[trigger] after.records.contains_key(k) implies {
        &&& after.index.contains_key(k.id())
        &&& after.index[k.id()] == k
        &&& fits_place(k, after.records[k])
    } by {
        if k != to {
            assert(before.records.contains_key(k));
            if k.id() == from.id() {
                assert(before.index[from.id()] == from);
            }
        }
    }
    assert forall|id: Seq<char>| #[trigger] after.index.contains_key(
        id,
    ) implies after.records.contains_key(after.index[id]) && after.index[id].id() == id by {
        if id != job.id {
            assert(before.index.contains_key(id));
            assert(before.records.contains_key(before.index[id]));
        }
    }
    assert forall|queue: Seq<char>, dk: Seq<char>| #[trigger] after.dedup.contains_key(
        (queue, dk),
    ) implies {
        &&& after.index.contains_key(after.dedup[(queue, dk)])
        &&& after.records[after.index[after.dedup[(queue, dk)]]].queue == queue
        &&& after.records[after.index[after.dedup[(queue, dk)]]].dedup_key == Some(dk)
    } by {
        assert(before.dedup.contains_key((queue, dk)));
        let holder = before.dedup[(queue, dk)];
        assert(before.index.contains_key(holder));
        assert(before.records.contains_key(before.index[holder]));
        if holder == job.id {
            assert(before.index[holder] == from);
            assert(before.records[from].dedup_key == Some(dk));
        }
    }
    assert forall|k: RecordKeyView| #[trigger] after.records.contains_key(k) implies (
    after.records[k].dedup_key matches Some(dk) ==> {
        &&& after.dedup.contains_key((k.queue(), dk))
        &&& after.dedup[(k.queue(), dk)] == k.id()
    }) by {
        if k == to {
            assert(before.records.contains_key(from));
        } else {
            assert(before.records.contains_key(k));
            if let Some(dk) = before.records[k].dedup_key {
                assert(before.dedup[(k.queue(), dk)] == k.id());
                if before.records[from].dedup_key == Some(dk) && k.queue() == from.queue() {
                    assert(before.dedup[(from.queue(), dk)] == from.id());
                    assert(before.index[k.id()] == k);
                }
            }
        }
    }
    assert forall|id: Seq<char>| #[trigger] after.history.contains_key(
        id,
    ) implies after.index.contains_key(id) by {
        if id != job.id {
            assert(before.history.contains_key(id));
        }
    }
}

/// A job that leaves with its history and its deduplication key keeps the
/// store well formed.
proof fn departure_keeps_well_formed(before: StoreView, after: StoreView, key: RecordKeyView)
    requires
        well_formed(before),
        before.records.contains_key(key),
        after.records == before.records.remove(key),
        after.index == before.index.remove(key.id()),
        after.dedup == before.released(key.queue(), before.records[key].dedup_key).dedup,
        after.history == before.history.remove(key.id()),
        counters_step(before, after, Some(key), None),
    ensures
        well_formed(after),
{
    counters_follow(before, after, Some(key), None, before.records[key]);
    assert forall|k: RecordKeyView| #[trigger] after.records.contains_key(k) implies {
        &&& after.index.contains_key(k.id())
        &&& after.index[k.id()] == k
        &&& fits_place(k, after.records[k])
    } by {
        assert(before.records.contains_key(k));
        if k.id() == key.id() {
            assert(before.index[key.id()] == key);
        }
    }
    assert forall|id: Seq<char>| #[trigger] after.index.contains_key(
        id,
    ) implies after.records.contains_key(after.index[id]) && after.index[id].id() == id by {
        assert(before.index.contains_key(id));
        assert(before.records.contains_key(before.index[id]));
    }
    assert forall|queue: Seq<char>, dk: Seq<char>| #[trigger] after.dedup.contains_key(
        (queue, dk),
    ) implies {
        &&& after.index.contains_key(after.dedup[(queue, dk)])
        &&& after.records[after.index[after.dedup[(queue, dk)]]].queue == queue
        &&& after.records[after.index[after.dedup[(queue, dk)]]].dedup_key == Some(dk)
    } by {
        assert(before.dedup.contains_key((queue, dk)));
        let holder = before.dedup[(queue, dk)];
        assert(before.index.contains_key(holder));
        assert(before.records.contains_key(before.index[holder]));
        if holder == key.id() {
            assert(before.index[holder] == key);
        }
    }
    assert forall|k: RecordKeyView| #[trigger] after.records.contains_key(k) implies (
    after.records[k].dedup_key matches Some(dk) ==> {
        &&& after.dedup.contains_key((k.queue(), dk))
        &&& after.dedup[(k.queue(), dk)] == k.id()
    }) by {
        assert(before.records.contains_key(k));
        if let Some(dk) = before.records[k].dedup_key {
            assert(before.dedup[(k.queue(), dk)] == k.id());
            if before.records[key].dedup_key == Some(dk) && k.queue() == key.queue() {
                assert(before.dedup[(key.queue(), dk)] == key.id());
                assert(before.index[k.id()] == k);
            }
        }
    }
}

/// Whether a prepared job is one that can be enqueued: its record belongs at
/// its place.
pub open spec fn enqueueable(p: PreparedView) -> bool {
    fits_place(p.key, p.job.stored()) && (p.key is Pending || p.key is Scheduled)
}

/// Enqueues are prepared so that their records belong at their places.
pub proof fn prepared_jobs_are_enqueueable(
    config: QueueConfig,
    queue: Seq<char>,
    payload: Seq<u8>,
    opts: EnqueueOptions,
    id: Seq<char>,
    now: u64,
)
    requires
        name_fits(queue),
    ensures
        enqueueable(prepared_job(config, queue, payload, opts, id, now)),
{
}

/// Moving a payload into an object of its own leaves a job enqueueable.
pub proof fn offloaded_jobs_are_enqueueable(p: PreparedView, name: Seq<char>)
    requires
        enqueueable(p),
    ensures
        enqueueable(
            PreparedView {
                job: JobView { payload: Seq::empty(), payload_ref: Some(name), ..p.job },
                ..p
            },
        ),
{
}

/// An enqueue keeps the store well formed. A generated id is not in use.
pub proof fn enqueue_keeps_well_formed(s: StoreView, p: PreparedView)
    requires
        well_formed(s),
        enqueueable(p),
        !p.id_override_used ==> !s.index.contains_key(p.job.id),
    ensures
        enqueued(s, p) matches Ok((after, _)) ==> well_formed(after),
{
    if let Ok((after, EnqueueResultView::New(_))) = enqueued(s, p) {
        arrival_keeps_well_formed(s, after, p.key, p.job.stored());
    }
}

/// Whether the generated ids of a list of enqueues are in use neither in the
/// store nor by another of them.
pub open spec fn fresh_ids(s: StoreView, jobs: Seq<PreparedView>) -> bool {
    forall|i: int|
        0 <= i < jobs.len() && !(#[trigger] jobs[i]).id_override_used ==> {
            &&& !s.index.contains_key(jobs[i].job.id)
            &&& forall|j: int|
                0 <= j < jobs.len() && j != i ==> (#[trigger] jobs[j]).job.id != jobs[i].job.id
        }
}

/// Whether every job of a list can be enqueued.
pub open spec fn all_enqueueable(jobs: Seq<PreparedView>) -> bool {
    forall|i: int| 0 <= i < jobs.len() ==> enqueueable(#[trigger] jobs[i])
}

/// Enqueuing a list of jobs keeps the store well formed.
pub proof fn enqueues_keep_well_formed(s: StoreView, jobs: Seq<PreparedView>)
    requires
        well_formed(s),
        all_enqueueable(jobs),
        fresh_ids(s, jobs),
    ensures
        enqueued_all(s, jobs) matches Ok((after, _)) ==> {
            &&& well_formed(after)
            &&& forall|id: Seq<char>| #[trigger]
                after.index.contains_key(id) ==> s.index.contains_key(id) || exists|i: int|
                    0 <= i < jobs.len() && (#[trigger] jobs[i]).job.id == id
        },
    decreases jobs.len(),
{
    if jobs.len() > 0 {
        let rest = jobs.drop_last();
        let p = jobs.last();
        assert(all_enqueueable(rest)) by {
            assert forall|i: int| 0 <= i < rest.len() implies enqueueable(#[trigger] rest[i]) by {
                assert(rest[i] == jobs[i]);
            }
        }
        assert(fresh_ids(s, rest)) by {
            assert forall|i: int| 0 <= i < rest.len() && !(
            #[trigger] rest[i]).id_override_used implies {
                &&& !s.index.contains_key(rest[i].job.id)
                &&& forall|j: int|
                    0 <= j < rest.len() && j != i ==> (#[trigger] rest[j]).job.id != rest[i].job.id
            } by {
                assert(rest[i] == jobs[i]);
                assert forall|j: int| 0 <= j < rest.len() && j != i implies (
                #[trigger] rest[j]).job.id != rest[i].job.id by {
                    assert(rest[j] == jobs[j]);
                }
            }
        }
        enqueues_keep_well_formed(s, rest);
        if let Ok((before, _)) = enqueued_all(s, rest) {
            assert(jobs[jobs.len() - 1] == p);
            if !p.id_override_used && before.index.contains_key(p.job.id) {
                let i = choose|i: int| 0 <= i < rest.len() && (#[trigger] rest[i]).job.id == p.job.id;
                assert(jobs[i].job.id == p.job.id);
            }
            enqueue_keeps_well_formed(before, p);
            if let Ok((after, _)) = enqueued(before, p) {
                assert forall|id: Seq<char>| #[trigger]
                    after.index.contains_key(id) implies s.index.contains_key(id) || exists|i: int|
                    0 <= i < jobs.len() && (#[trigger] jobs[i]).job.id == id by {
                    if before.index.contains_key(id) && !s.index.contains_key(id) {
                        let i = choose|i: int|
                            0 <= i < rest.len() && (#[trigger] rest[i]).job.id == id;
                        assert(jobs[i].job.id == id);
                    } else if !before.index.contains_key(id) {
                        assert(jobs[jobs.len() - 1].job.id == id);
                    }
                }
            }
        }
    }
}

/// Changing the caller's entries leaves the store well formed.
proof fn kv_leaves_well_formed(s: StoreView, kv: Map<Seq<u8>, Seq<u8>>)
    requires
        well_formed(s),
    ensures
        well_formed(StoreView { kv, ..s }),
{
    let after = StoreView { kv, ..s };
    assert forall|queue: Seq<char>, status: JobStatus| status
        != JobStatus::Done implies #[trigger] after.count(queue, status) == jobs_in(
        after,
        queue,
        status,
    ).len() by {
        assert(s.count(queue, status) == jobs_in(s, queue, status).len());
    }
}

/// Settlement effects keep the store well formed.
pub proof fn effects_keep_well_formed(s: StoreView, effects: PreparedEffectsView)
    requires
        well_formed(s),
        all_enqueueable(effects.jobs),
        fresh_ids(s, effects.jobs),
    ensures
        effects_applied(s, effects) matches Ok((after, _)) ==> well_formed(after),
{
    enqueues_keep_well_formed(s, effects.jobs);
    if let Ok((after, _)) = enqueued_all(s, effects.jobs) {
        kv_leaves_well_formed(
            after,
            kv_deleted(kv_written(after.kv, effects.kv_writes), effects.kv_deletes),
        );
    }
}

/// The end of a claim keeps the store well formed.
pub proof fn claim_end_keeps_well_formed(
    s: StoreView,
    queue: Seq<char>,
    id: Seq<char>,
    end: ClaimEndView,
    now: u64,
)
    requires
        well_formed(s),
        s.records.contains_key(claimed_place(queue, id)),
    ensures
        ({
            let place = claimed_place(queue, id);
            let after = end.settled(s.vacated(place), s.records[place], now);
            &&& well_formed(after)
            &&& forall|other: Seq<char>| #[trigger]
                after.index.contains_key(other) ==> s.index.contains_key(other)
        }),
{
    let place = claimed_place(queue, id);
    let job = s.records[place];
    let after = end.settled(s.vacated(place), job, now);
    assert(fits_place(place, job));
    assert(s.index[id] == place);
    if end == (ClaimEndView::Done { keep: false }) {
        assert(counters_step(s, after, Some(place), None));
        departure_keeps_well_formed(s, after, place);
    } else {
        let to = end.place(job, now);
        assert(counters_step(s, after, Some(place), Some(to)));
        move_keeps_well_formed(s, after, place, to, end.ended(job, now).stored());
    }
}

/// A settlement keeps the store well formed, with and without effects.
pub proof fn settlement_keeps_well_formed(
    s: StoreView,
    leases: Map<(Seq<char>, Seq<char>), LeaseState>,
    queue: Seq<char>,
    id: Seq<char>,
    token: u64,
    end: ClaimEndView,
    now: u64,
    effects: Option<PreparedEffectsView>,
)
    requires
        well_formed(s),
        effects matches Some(e) ==> all_enqueueable(e.jobs) && fresh_ids(s, e.jobs),
    ensures
        claim_settled(s, leases, queue, id, token, end, now, effects) matches Ok((after, _))
            ==> well_formed(after),
{
    if claim_held(leases, s, queue, id, token) {
        claim_end_keeps_well_formed(s, queue, id, end, now);
        let place = claimed_place(queue, id);
        let after = end.settled(s.vacated(place), s.records[place], now);
        if let Some(e) = effects {
            assert(fresh_ids(after, e.jobs)) by {
                assert forall|i: int| 0 <= i < e.jobs.len() && !(
                #[trigger] e.jobs[i]).id_override_used implies {
                    &&& !after.index.contains_key(e.jobs[i].job.id)
                    &&& forall|j: int|
                        0 <= j < e.jobs.len() && j != i ==> (#[trigger] e.jobs[j]).job.id
                            != e.jobs[i].job.id
                } by {}
            }
            effects_keep_well_formed(after, e);
        }
    }
}

/// A negative acknowledgement keeps the store well formed.
pub proof fn nack_keeps_well_formed(
    s: StoreView,
    leases: Map<(Seq<char>, Seq<char>), LeaseState>,
    configs: QueueConfigs,
    queue: Seq<char>,
    id: Seq<char>,
    token: u64,
    error: Seq<char>,
    now: u64,
    effects: PreparedEffectsView,
)
    requires
        well_formed(s),
        all_enqueueable(effects.jobs),
        fresh_ids(s, effects.jobs),
    ensures
        nacked(s, leases, configs, queue, id, token, error, now, effects) matches Ok((after, _))
            ==> well_formed(after),
{
    let job = s.records[claimed_place(queue, id)];
    let end = nack_end(configs.config(job.queue), job, error, now);
    let applied = if end.terminal() {
        Some(effects)
    } else {
        None
    };
    settlement_keeps_well_formed(s, leases, queue, id, token, end, now, applied);
}

/// Reaping a lease that ran out keeps the store well formed.
pub proof fn reaping_keeps_well_formed(
    s: StoreView,
    leases: Map<(Seq<char>, Seq<char>), LeaseState>,
    queue: Seq<char>,
    id: Seq<char>,
    token: u64,
    now: u64,
)
    requires
        well_formed(s),
    ensures
        reaped(s, leases, queue, id, token, now) matches Ok((after, _)) && well_formed(after),
{
    let place = claimed_place(queue, id);
    if s.records.contains_key(place) {
        let end = unsettled_end(
            s.records[place],
            crate::job::AttemptOutcome::LeaseExpired,
            "lease expired"@,
        );
        claim_end_keeps_well_formed(s, queue, id, end, now);
    }
}

/// Ending a claim found when the store is opened keeps the store well formed.
pub proof fn recovery_keeps_well_formed(
    s: StoreView,
    queue: Seq<char>,
    id: Seq<char>,
    end: ClaimEndView,
    now: u64,
)
    requires
        well_formed(s),
        s.records.contains_key(claimed_place(queue, id)),
    ensures
        well_formed(unsettled(s, s.records[claimed_place(queue, id)], end, now).0),
{
    claim_end_keeps_well_formed(s, queue, id, end, now);
    assert(fits_place(claimed_place(queue, id), s.records[claimed_place(queue, id)]));
}

/// A job removed by a cancellation is gone with its history and its hold on a
/// deduplication key, and the store stays well formed.
pub proof fn removal_keeps_well_formed(s: StoreView, id: Seq<char>)
    requires
        well_formed(s),
        s.index.contains_key(id),
        s.index[id].status() == JobStatus::Pending || s.index[id].status() == JobStatus::Scheduled,
    ensures
        ({
            let key = s.index[id];
            let after = job_removed(s, id, key, s.records[key]);
            &&& well_formed(after)
            &&& after.job(id) is None
            &&& after.attempts(id) == Seq::<JobAttemptView>::empty()
            &&& s.records[key].dedup_key matches Some(dk) ==> !after.dedup.contains_key(
                (key.queue(), dk),
            )
            &&& forall|other: Seq<char>| #[trigger]
                after.index.contains_key(other) ==> s.index.contains_key(other)
        }),
{
    let key = s.index[id];
    let job = s.records[key];
    let after = job_removed(s, id, key, job);
    assert(s.records.contains_key(key));
    assert(fits_place(key, job));
    assert(counters_step(s, after, Some(key), None));
    departure_keeps_well_formed(s, after, key);
}

/// A cancellation keeps the store well formed.
pub proof fn cancel_keeps_well_formed(s: StoreView, id: Seq<char>, effects: PreparedEffectsView)
    requires
        well_formed(s),
        all_enqueueable(effects.jobs),
        fresh_ids(s, effects.jobs),
    ensures
        cancelled(s, id, effects) matches Ok((after, _)) ==> well_formed(after),
{
    if let Some(job) = s.job(id) {
        let key = s.index[id];
        assert(s.records.contains_key(key));
        assert(fits_place(key, job));
        match key.status() {
            JobStatus::Pending | JobStatus::Scheduled => {
                removal_keeps_well_formed(s, id);
                let after = job_removed(s, id, key, job);
                assert(fresh_ids(after, effects.jobs)) by {
                    assert forall|i: int| 0 <= i < effects.jobs.len() && !(
                    #[trigger] effects.jobs[i]).id_override_used implies {
                        &&& !after.index.contains_key(effects.jobs[i].job.id)
                        &&& forall|j: int|
                            0 <= j < effects.jobs.len() && j != i ==> (
                            #[trigger] effects.jobs[j]).job.id != effects.jobs[i].job.id
                    } by {}
                }
                effects_keep_well_formed(after, effects);
            },
            JobStatus::Claimed => {
                if !job.cancel_requested {
                    let flagged = (JobView { cancel_requested: true, ..job }).stored();
                    let after = StoreView { records: s.records.insert(key, flagged), ..s };
                    assert(after.records =~= s.records.remove(key).insert(key, flagged));
                    assert(after.index =~= s.index.insert(job.id, key));
                    assert(counters_step(s, after, Some(key), Some(key)));
                    move_keeps_well_formed(s, after, key, key, flagged);
                }
            },
            _ => {},
        }
    }
}

proof fn made_pending_keeps_well_formed(
    s: StoreView,
    key: RecordKeyView,
    job: JobView,
    from: JobStatus,
)
    requires
        well_formed(s),
        s.records.contains_key(key),
        key.status() == from,
        from != JobStatus::Pending,
        job.id == key.id(),
        job.queue == key.queue(),
        job.dedup_key == s.records[key].dedup_key,
    ensures
        well_formed(made_pending(s, key, job, from)),
{
    let after = made_pending(s, key, job, from);
    let to = RecordKeyView::Pending { queue: job.queue, priority: job.priority, id: job.id };
    let moved = (JobView { status: JobStatus::Pending, run_at: None, ..job }).stored();
    assert(fits_place(key, s.records[key]));
    assert(counters_step(s, after, Some(key), Some(to)));
    move_keeps_well_formed(s, after, key, to, moved);
}

/// Waking a job keeps the store well formed.
pub proof fn waking_keeps_well_formed(
    s: StoreView,
    id: Seq<char>,
    wake_payload: Option<Seq<u8>>,
    now: u64,
)
    requires
        well_formed(s),
    ensures
        woken(s, id, wake_payload, now) matches Ok((after, _)) && well_formed(after),
{
    if let Some(job) = s.job(id) {
        let key = s.index[id];
        assert(fits_place(key, job));
        if key.status() == JobStatus::Scheduled {
            made_pending_keeps_well_formed(
                s,
                key,
                JobView { woken_at: Some(now), wake_payload, ..job },
                JobStatus::Scheduled,
            );
        }
    }
}

/// Promoting a due job keeps the store well formed.
pub proof fn promotion_keeps_well_formed(s: StoreView, key: RecordKeyView)
    requires
        well_formed(s),
        key is Scheduled,
    ensures
        promoted(s, key) matches Ok((after, _)) && well_formed(after),
{
    if let Some(job) = entry(s.records, key) {
        assert(fits_place(key, job));
        made_pending_keeps_well_formed(s, key, job, JobStatus::Scheduled);
    }
}

/// Bringing back a dead job, as it was read from the store, keeps the store
/// well formed.
pub proof fn requeue_keeps_well_formed(s: StoreView, job: JobView, now: u64)
    requires
        well_formed(s),
        entry(s.records, RecordKeyView::Dead { queue: job.queue, id: job.id }) matches Some(stored)
            ==> job.stored() == stored,
    ensures
        requeued(s, job, now) matches Ok((after, _)) ==> well_formed(after),
{
    let dead = RecordKeyView::Dead { queue: job.queue, id: job.id };
    if job.status == JobStatus::Dead && s.records.contains_key(dead) {
        let stored = s.records[dead];
        assert(fits_place(dead, stored));
        let to = RecordKeyView::Pending { queue: job.queue, priority: job.priority, id: job.id };
        let moved = (JobView { status: JobStatus::Pending, run_at: None, ..revived(job) }).stored();
        let after = requeued(s, job, now)->Ok_0.0;
        assert(counters_step(s, after, Some(dead), Some(to)));
        move_keeps_well_formed(s, after, dead, to, moved);
    }
}

/// Sweeping a done or dead job keeps the store well formed, and leaves
/// neither a record nor a history of it.
pub proof fn sweep_keeps_well_formed(s: StoreView, key: RecordKeyView)
    requires
        well_formed(s),
        key is Done || key is Dead,
    ensures
        swept(s, key, key.queue(), key.id()) matches Ok((after, existed)) && well_formed(after) && (
        existed ==> after.job(key.id()) is None && after.attempts(key.id()) == Seq::<
            JobAttemptView,
        >::empty()),
{
    if s.records.contains_key(key) {
        let after = swept(s, key, key.queue(), key.id())->Ok_0.0;
        assert(fits_place(key, s.records[key]));
        assert(counters_step(s, after, Some(key), None));
        departure_keeps_well_formed(s, after, key);
    }
}

/// Whether a list of rows holds pending jobs of a queue, each once, as the
/// store has them.
pub open spec fn claimable(
    s: StoreView,
    queue: Seq<char>,
    rows: Seq<(RecordKeyView, JobView)>,
) -> bool {
    &&& forall|i: int|
        0 <= i < rows.len() ==> {
            let row = #[trigger] rows[i];
            &&& row.0 is Pending
            &&& row.0.queue() == queue
            &&& s.records.contains_key(row.0)
            &&& s.records[row.0] == row.1
        }
    &&& forall|i: int, j: int|
        0 <= i < j < rows.len() ==> (#[trigger] rows[i]).0 != (#[trigger] rows[j]).0
}

proof fn claimed_batch_step(
    s: StoreView,
    queue: Seq<char>,
    rows: Seq<(RecordKeyView, JobView)>,
    now: u64,
)
    requires
        rows.len() > 0,
    ensures
        claimed_batch(s, queue, rows, now) == claimed_one(
            claimed_batch(s, queue, rows.drop_last(), now),
            rows.last().0,
            rows.last().1,
            now,
        ).recounted(queue, JobStatus::Pending, JobStatus::Claimed),
{
    let before = claimed_batch(s, queue, rows.drop_last(), now);
    let stepped = claimed_one(before, rows.last().0, rows.last().1, now).recounted(
        queue,
        JobStatus::Pending,
        JobStatus::Claimed,
    );
    let whole = claimed_batch(s, queue, rows, now);
    claimed_each_leaves_counters(s, rows.drop_last(), now);
    claimed_each_leaves_counters(s, rows, now);
    assert(whole.counters =~= stepped.counters);
    assert(whole =~= stepped);
}

proof fn claimed_each_leaves_counters(
    s: StoreView,
    rows: Seq<(RecordKeyView, JobView)>,
    now: u64,
)
    ensures
        claimed_each(s, rows, now).counters == s.counters,
        claimed_each(s, rows, now).history == s.history,
        claimed_each(s, rows, now).kv == s.kv,
    decreases rows.len(),
{
    if rows.len() > 0 {
        claimed_each_leaves_counters(s, rows.drop_last(), now);
    }
}

/// Claiming pending jobs keeps the store well formed: each is claimed, and
/// its deduplication key is free.
pub proof fn claiming_keeps_well_formed(
    s: StoreView,
    queue: Seq<char>,
    rows: Seq<(RecordKeyView, JobView)>,
    now: u64,
)
    requires
        well_formed(s),
        claimable(s, queue, rows),
    ensures
        ({
            let after = claimed_batch(s, queue, rows, now);
            &&& well_formed(after)
            &&& forall|i: int|
                0 <= i < rows.len() ==> {
                    let row = #[trigger] rows[i];
                    &&& after.job(row.1.id) == Some(claimed_job(row.1, now))
                    &&& row.1.dedup_key matches Some(dk) ==> !after.dedup.contains_key((queue, dk))
                }
            &&& forall|key: RecordKeyView| #[trigger]
                s.records.contains_key(key) && !(exists|i: int|
                    0 <= i < rows.len() && (#[trigger] rows[i]).0 == key)
                    ==> after.records.contains_key(key) && after.records[key] == s.records[key]
            &&& forall|queue2: Seq<char>, dk: Seq<char>| #[trigger]
                after.dedup.contains_key((queue2, dk)) ==> s.dedup.contains_key((queue2, dk))
        }),
    decreases rows.len(),
{
    let after = claimed_batch(s, queue, rows, now);
    if rows.len() == 0 {
        assert(after =~= s);
    } else {
        let rest = rows.drop_last();
        let key = rows.last().0;
        let job = rows.last().1;
        assert(claimable(s, queue, rest)) by {
            assert forall|i: int| 0 <= i < rest.len() implies {
                let row = #[trigger] rest[i];
                &&& row.0 is Pending
                &&& row.0.queue() == queue
                &&& s.records.contains_key(row.0)
                &&& s.records[row.0] == row.1
            } by {
                assert(rest[i] == rows[i]);
            }
            assert forall|i: int, j: int| 0 <= i < j < rest.len() implies (
            #[trigger] rest[i]).0 != (#[trigger] rest[j]).0 by {
                assert(rest[i] == rows[i] && rest[j] == rows[j]);
            }
        }
        claiming_keeps_well_formed(s, queue, rest, now);
        let before = claimed_batch(s, queue, rest, now);
        claimed_batch_step(s, queue, rows, now);
        assert(rows[rows.len() - 1] == rows.last());
        assert(s.records.contains_key(key));
        assert(!(exists|i: int| 0 <= i < rest.len() && (#[trigger] rest[i]).0 == key)) by {
            if exists|i: int| 0 <= i < rest.len() && (#[trigger] rest[i]).0 == key {
                let i = choose|i: int| 0 <= i < rest.len() && (#[trigger] rest[i]).0 == key;
                assert(rows[i].0 != rows[rows.len() - 1].0);
            }
        }
        assert(before.records.contains_key(key) && before.records[key] == job);
        assert(fits_place(key, job));
        let to = claimed_place(job.queue, job.id);
        assert(counters_step(before, after, Some(key), Some(to)));
        move_keeps_well_formed(before, after, key, to, claimed_job(job, now).stored());
        assert(claimed_job(job, now).stored() == claimed_job(job, now));
        assert forall|i: int| 0 <= i < rows.len() implies {
            let row = #[trigger] rows[i];
            &&& after.job(row.1.id) == Some(claimed_job(row.1, now))
            &&& row.1.dedup_key matches Some(dk) ==> !after.dedup.contains_key((queue, dk))
        } by {
            if i < rest.len() {
                assert(rest[i] == rows[i]);
                let row = rows[i];
                assert(fits_place(row.0, s.records[row.0]));
                assert(fits_place(key, s.records[key]));
                if row.1.id == job.id {
                    assert(s.index[row.0.id()] == row.0);
                    assert(s.index[key.id()] == key);
                    assert(rows[i].0 != rows[rows.len() - 1].0);
                }
                assert(before.index.contains_key(row.1.id));
                assert(before.records.contains_key(before.index[row.1.id]));
            }
        }
        assert forall|k: RecordKeyView| #[trigger]
            s.records.contains_key(k) && !(exists|i: int|
                0 <= i < rows.len() && (#[trigger] rows[i]).0 == k) implies after.records.contains_key(
            k,
        ) && after.records[k] == s.records[k] by {
            if exists|i: int| 0 <= i < rest.len() && (#[trigger] rest[i]).0 == k {
                let i = choose|i: int| 0 <= i < rest.len() && (#[trigger] rest[i]).0 == k;
                assert(rows[i].0 == k);
            }
            assert(before.records.contains_key(k));
            assert(k != key);
            if k == to {
                assert(before.index[to.id()] == to);
                assert(before.index[key.id()] == key);
            }
        }
    }
}

/// A job without a record has no history, so that a later job of the same id
/// starts with an empty one.
pub proof fn absent_job_has_no_history(s: StoreView, id: Seq<char>)
    requires
        well_formed(s),
        s.job(id) is None,
    ensures
        s.attempts(id) == Seq::<JobAttemptView>::empty(),
        !s.index.contains_key(id),
{
    if s.index.contains_key(id) {
        assert(s.records.contains_key(s.index[id]));
    }
}

/// A job that was enqueued is found by its id, in its stored form, and is
/// counted.
pub proof fn enqueued_job_is_found(s: StoreView, p: PreparedView)
    requires
        enqueued(s, p) matches Ok((_, EnqueueResultView::New(_))),
    ensures
        ({
            let after = enqueued(s, p)->Ok_0.0;
            &&& enqueued(s, p)->Ok_0.1 == EnqueueResultView::New(p.job.id)
            &&& after.job(p.job.id) == Some(p.job.stored())
            &&& after.count(p.job.queue, p.job.status) == s.count(p.job.queue, p.job.status) + 1
        }),
{
}

/// While a pending or scheduled job holds a deduplication key, an enqueue with
/// that key on the queue comes to that job and writes nothing.
pub proof fn held_dedup_key_blocks(s: StoreView, p: PreparedView, dk: Seq<char>)
    requires
        well_formed(s),
        p.job.dedup_key == Some(dk),
        s.dedup.contains_key((p.job.queue, dk)),
    ensures
        enqueued(s, p) == Ok::<(StoreView, EnqueueResultView), ErrorView>(
            (s, EnqueueResultView::AlreadyEnqueued(s.dedup[(p.job.queue, dk)])),
        ),
        s.job(s.dedup[(p.job.queue, dk)]) matches Some(job) && job.queue == p.job.queue
            && job.dedup_key == Some(dk) && (job.status == JobStatus::Pending || job.status
            == JobStatus::Scheduled),
{
    let id = s.dedup[(p.job.queue, dk)];
    assert(s.records.contains_key(s.index[id]));
    assert(fits_place(s.index[id], s.records[s.index[id]]));
}

/// A deduplication key is free where no pending or scheduled job of the queue
/// carries it.
pub proof fn free_dedup_key_lets_pass(s: StoreView, p: PreparedView, dk: Seq<char>)
    requires
        well_formed(s),
        p.job.dedup_key == Some(dk),
        !p.id_override_used,
        forall|key: RecordKeyView| #[trigger]
            s.records.contains_key(key) ==> key.queue() != p.job.queue
                || s.records[key].dedup_key != Some(dk),
    ensures
        enqueued(s, p) matches Ok((_, EnqueueResultView::New(_))),
{
    if s.dedup.contains_key((p.job.queue, dk)) {
        let id = s.dedup[(p.job.queue, dk)];
        let key = s.index[id];
        assert(s.records.contains_key(key));
        assert(fits_place(key, s.records[key]));
    }
}

/// A supplied id is refused while a job of that id is indexed, and accepted
/// otherwise, unless a deduplication key blocks the enqueue.
pub proof fn supplied_id_is_unique(s: StoreView, p: PreparedView)
    requires
        p.id_override_used,
        p.job.dedup_key is None,
    ensures
        s.index.contains_key(p.job.id) <==> enqueued(s, p) == Err::<
            (StoreView, EnqueueResultView),
            ErrorView,
        >(ErrorView::DuplicateJobId { id: p.job.id }),
        !s.index.contains_key(p.job.id) <==> enqueued(s, p) matches Ok((_, EnqueueResultView::New(_))),
{
}

proof fn enqueues_leave_claims(s: StoreView, jobs: Seq<PreparedView>, place: RecordKeyView)
    requires
        all_enqueueable(jobs),
        place is Claimed,
    ensures
        enqueued_all(s, jobs) matches Ok((after, _)) ==> entry(after.records, place) == entry(
            s.records,
            place,
        ),
    decreases jobs.len(),
{
    if jobs.len() > 0 {
        let rest = jobs.drop_last();
        assert forall|i: int| 0 <= i < rest.len() implies enqueueable(#[trigger] rest[i]) by {
            assert(rest[i] == jobs[i]);
        }
        enqueues_leave_claims(s, rest, place);
        assert(enqueueable(jobs[jobs.len() - 1]));
    }
}

/// A claim is settled once: after a settlement no further one succeeds,
/// whatever the lease registry still holds.
pub proof fn settled_claim_cannot_settle_again(
    s: StoreView,
    leases: Map<(Seq<char>, Seq<char>), LeaseState>,
    queue: Seq<char>,
    id: Seq<char>,
    token: u64,
    end: ClaimEndView,
    now: u64,
    effects: Option<PreparedEffectsView>,
    later_leases: Map<(Seq<char>, Seq<char>), LeaseState>,
    later_token: u64,
    later_end: ClaimEndView,
    later: u64,
    later_effects: Option<PreparedEffectsView>,
)
    requires
        effects matches Some(e) ==> all_enqueueable(e.jobs),
        claim_settled(s, leases, queue, id, token, end, now, effects) is Ok,
    ensures
        claim_settled(
            claim_settled(s, leases, queue, id, token, end, now, effects)->Ok_0.0,
            later_leases,
            queue,
            id,
            later_token,
            later_end,
            later,
            later_effects,
        ) == Err::<(StoreView, SettledView), ErrorView>(ErrorView::ClaimLost),
{
    let place = claimed_place(queue, id);
    let job = s.records[place];
    let after = end.settled(s.vacated(place), job, now);
    assert(!after.records.contains_key(place));
    if let Some(e) = effects {
        enqueues_leave_claims(after, e.jobs, place);
    }
}

/// A claim that was superseded by a later claim of the job is lost: its
/// settlement is refused and changes nothing.
pub proof fn superseded_claim_is_lost(
    s: StoreView,
    leases: Map<(Seq<char>, Seq<char>), LeaseState>,
    queue: Seq<char>,
    id: Seq<char>,
    token: u64,
    later: u64,
    expires_at: u64,
    end: ClaimEndView,
    now: u64,
    effects: Option<PreparedEffectsView>,
)
    requires
        token != later,
    ensures
        claim_settled(
            s,
            leases.insert(
                (queue, id),
                LeaseState { expires_at, token: later, cancelled: false, reaping: false },
            ),
            queue,
            id,
            token,
            end,
            now,
            effects,
        ) == Err::<(StoreView, SettledView), ErrorView>(ErrorView::ClaimLost),
{
}

/// A renewal changes neither the token nor the record of a claim, so that a
/// claim held across one still settles.
pub proof fn renewed_claim_still_settles(
    s: StoreView,
    leases: Map<(Seq<char>, Seq<char>), LeaseState>,
    queue: Seq<char>,
    id: Seq<char>,
    token: u64,
    expires_at: u64,
    mode: crate::lease_registry::Renewal,
)
    requires
        claim_held(leases, s, queue, id, token),
        crate::lease_registry::LeaseRegistry::renewed(
            leases,
            (queue, id),
            token,
            expires_at,
            mode,
        ) is Some,
    ensures
        claim_held(
            crate::lease_registry::LeaseRegistry::renewed(
                leases,
                (queue, id),
                token,
                expires_at,
                mode,
            ).unwrap().0,
            s,
            queue,
            id,
            token,
        ),
{
}

/// A lease that ran out and is being reaped cannot be renewed.
pub proof fn due_lease_cannot_be_renewed(
    leases: Map<(Seq<char>, Seq<char>), LeaseState>,
    key: (Seq<char>, Seq<char>),
    now: u64,
    token: u64,
    expires_at: u64,
    mode: crate::lease_registry::Renewal,
)
    requires
        leases.contains_key(key),
        leases[key].expires_at <= now,
    ensures
        crate::lease_registry::LeaseRegistry::renewed(
            crate::lease_registry::LeaseRegistry::marked(leases, now),
            key,
            token,
            expires_at,
            mode,
        ) is None,
{
}

/// Attempts count claims: a claim adds one, and no end of a claim changes
/// them.
pub proof fn attempts_count_claims(job: JobView, end: ClaimEndView, now: u64)
    requires
        job.attempts < u32::MAX,
    ensures
        claimed_job(job, now).attempts == job.attempts + 1,
        end.ended(job, now).attempts == job.attempts,
{
}

/// A failed attempt dead-letters the job when its attempts are exhausted and
/// at no other time, and so does a lease that runs out.
pub proof fn job_dies_when_attempts_are_exhausted(
    config: QueueConfig,
    job: JobView,
    error: Seq<char>,
    outcome: crate::job::AttemptOutcome,
    now: u64,
)
    ensures
        nack_end(config, job, error, now).ended(job, now).status == JobStatus::Dead
            <==> job.attempts >= job.max_attempts,
        unsettled_end(job, outcome, error).ended(job, now).status == JobStatus::Dead
            <==> job.attempts >= job.max_attempts,
{
}

/// A cancel request, a wake payload and the headers of a job survive a retry
/// and the claim that follows it.
pub proof fn retry_keeps_what_the_job_carries(
    job: JobView,
    run_at: Option<u64>,
    outcome: crate::job::AttemptOutcome,
    error: Option<Seq<char>>,
    now: u64,
    later: u64,
)
    ensures
        ({
            let back = (ClaimEndView::Retry { run_at, outcome, error }).ended(job, now);
            let again = claimed_job(
                JobView { status: JobStatus::Pending, run_at: None, ..back },
                later,
            );
            &&& again.cancel_requested == job.cancel_requested
            &&& again.wake_payload == job.wake_payload
            &&& again.woken_at == job.woken_at
            &&& again.headers == job.headers
            &&& again.payload == job.payload
            &&& again.payload_ref == job.payload_ref
            &&& again.priority == job.priority
            &&& again.enqueued_at == job.enqueued_at
        }),
{
}

/// A claim of a job whose cancellation was requested earlier starts out
/// cancelled.
pub proof fn claim_of_cancelled_job_starts_cancelled(
    leases: Map<(Seq<char>, Seq<char>), LeaseState>,
    rows: Seq<(RecordKeyView, JobView)>,
    tokens: Seq<u64>,
    expires_at: u64,
)
    requires
        rows.len() > 0,
        rows.len() == tokens.len(),
    ensures
        ({
            let job = rows.last().1;
            let lease = leased_each(leases, rows, tokens, expires_at)[(job.queue, job.id)];
            lease.cancelled == job.cancel_requested && lease.token == tokens.last()
                && lease.expires_at == expires_at && !lease.reaping
        }),
{
}

/// The number of done jobs counts acknowledgements: it rises by one with each
/// and is never lowered.
pub proof fn done_counts_acknowledgements(
    s: StoreView,
    job: JobView,
    end: ClaimEndView,
    now: u64,
    queue: Seq<char>,
    key: RecordKeyView,
)
    ensures
        end.settled(s, job, now).count(queue, JobStatus::Done) == s.count(queue, JobStatus::Done)
            + if end is Done && queue == job.queue {
            1int
        } else {
            0int
        },
        swept(s, key, key.queue(), key.id()) matches Ok((after, _)) ==> after.count(
            queue,
            JobStatus::Done,
        ) == s.count(queue, JobStatus::Done),
{
}

/// Deleting keys leaves the entries under other keys.
proof fn kv_deleted_entry(kv: Map<Seq<u8>, Seq<u8>>, deletes: Seq<Seq<u8>>, key: Seq<u8>)
    ensures
        entry(kv_deleted(kv, deletes), key) == if deletes.contains(key) {
            None
        } else {
            entry(kv, key)
        },
    decreases deletes.len(),
{
    if deletes.len() > 0 {
        let rest = deletes.drop_last();
        kv_deleted_entry(kv, rest, key);
        if rest.contains(key) {
            let i = choose|i: int| 0 <= i < rest.len() && rest[i] == key;
            assert(deletes[i] == key);
        }
        if deletes.contains(key) && !rest.contains(key) {
            let i = choose|i: int| 0 <= i < deletes.len() && deletes[i] == key;
            if i < rest.len() {
                assert(rest[i] == key);
            }
        }
        if deletes.last() == key {
            assert(deletes[deletes.len() - 1] == key);
        }
    }
}

/// The entry under a key that a list of writes does not touch is kept.
proof fn kv_untouched_entry(
    kv: Map<Seq<u8>, Seq<u8>>,
    writes: Seq<(Seq<u8>, Seq<u8>)>,
    key: Seq<u8>,
)
    requires
        !crate::enqueue::writes_key(writes, key),
    ensures
        entry(kv_written(kv, writes), key) == entry(kv, key),
    decreases writes.len(),
{
    if writes.len() > 0 {
        let rest = writes.drop_last();
        if crate::enqueue::writes_key(rest, key) {
            let i = choose|i: int| 0 <= i < rest.len() && (#[trigger] rest[i]).0 == key;
            assert(writes[i].0 == key);
        }
        assert(writes[writes.len() - 1].0 != key);
        kv_untouched_entry(kv, rest, key);
    }
}

/// The entry under a key that was written last with a value has that value.
proof fn kv_written_entry(
    kv: Map<Seq<u8>, Seq<u8>>,
    writes: Seq<(Seq<u8>, Seq<u8>)>,
    i: int,
)
    requires
        0 <= i < writes.len(),
        forall|j: int| i < j < writes.len() ==> (#[trigger] writes[j]).0 != writes[i].0,
    ensures
        entry(kv_written(kv, writes), writes[i].0) == Some(writes[i].1),
    decreases writes.len(),
{
    let rest = writes.drop_last();
    if i < rest.len() {
        assert(writes[writes.len() - 1].0 != writes[i].0);
        assert(rest[i] == writes[i]);
        assert forall|j: int| i < j < rest.len() implies (#[trigger] rest[j]).0 != rest[i].0 by {
            assert(rest[j] == writes[j]);
        }
        kv_written_entry(kv, rest, i);
    }
}

proof fn no_conflict_no_overlap(
    deletes: Seq<Seq<u8>>,
    writes: Seq<(Seq<u8>, Seq<u8>)>,
    key: Seq<u8>,
)
    requires
        crate::enqueue::conflict_refusal(deletes, writes) is None,
        deletes.contains(key),
    ensures
        !crate::enqueue::writes_key(writes, key),
    decreases deletes.len(),
{
    let i = choose|i: int| 0 <= i < deletes.len() && deletes[i] == key;
    let rest = deletes.drop_last();
    if i < rest.len() {
        assert(rest[i] == key);
        no_conflict_no_overlap(rest, writes, key);
    }
}

proof fn enqueues_leave_kv(s: StoreView, jobs: Seq<PreparedView>)
    ensures
        enqueued_all(s, jobs) matches Ok((after, _)) ==> after.kv == s.kv,
    decreases jobs.len(),
{
    if jobs.len() > 0 {
        enqueues_leave_kv(s, jobs.drop_last());
    }
}

/// After settlement effects the caller reads back what they wrote, finds what
/// they deleted gone, and everything else as it was.
pub proof fn effects_are_read_back(s: StoreView, effects: PreparedEffectsView, key: Seq<u8>)
    requires
        crate::enqueue::conflict_refusal(effects.kv_deletes, effects.kv_writes) is None,
        effects_applied(s, effects) is Ok,
    ensures
        ({
            let after = effects_applied(s, effects)->Ok_0.0;
            &&& forall|i: int|
                0 <= i < effects.kv_writes.len() && (#[trigger] effects.kv_writes[i]).0 == key && (
                forall|j: int|
                    i < j < effects.kv_writes.len() ==> (#[trigger] effects.kv_writes[j]).0 != key)
                    ==> entry(after.kv, key) == Some(effects.kv_writes[i].1)
            &&& effects.kv_deletes.contains(key) ==> entry(after.kv, key) is None
            &&& !effects.kv_deletes.contains(key) && !crate::enqueue::writes_key(
                effects.kv_writes,
                key,
            ) ==> entry(after.kv, key) == entry(s.kv, key)
        }),
{
    enqueues_leave_kv(s, effects.jobs);
    let written = kv_written(s.kv, effects.kv_writes);
    kv_deleted_entry(written, effects.kv_deletes, key);
    if effects.kv_deletes.contains(key) {
        no_conflict_no_overlap(effects.kv_deletes, effects.kv_writes, key);
    }
    let after = effects_applied(s, effects)->Ok_0.0;
    assert forall|i: int|
        0 <= i < effects.kv_writes.len() && (#[trigger] effects.kv_writes[i]).0 == key && (forall|
            j: int,
        |
            i < j < effects.kv_writes.len() ==> (#[trigger] effects.kv_writes[j]).0
                != key) implies entry(after.kv, key) == Some(effects.kv_writes[i].1) by {
        kv_written_entry(s.kv, effects.kv_writes, i);
        if effects.kv_deletes.contains(key) {
            assert(crate::enqueue::writes_key(effects.kv_writes, key));
        }
    }
    if !crate::enqueue::writes_key(effects.kv_writes, key) {
        kv_untouched_entry(s.kv, effects.kv_writes, key);
    }
}

/// Of two writers that put an entry only where there is none, the first
/// succeeds and the second does not.
pub proof fn compare_and_put_excludes(s: StoreView, key: Seq<u8>, a: Seq<u8>, b: Seq<u8>)
    requires
        entry(s.kv, key) is None,
    ensures
        crate::settle::kv_compared(s, key, None, Some(a)) matches Ok((after, true)) && entry(
            after.kv,
            key,
        ) == Some(a) && crate::settle::kv_compared(after, key, None, Some(b)) == Ok::<
            (StoreView, bool),
            ErrorView,
        >((after, false)),
{
}

/// A refused settlement leaves the store as it is, effects and all: there is
/// no outcome in which the one is committed without the other.
pub proof fn settlement_and_effects_are_one(
    s: StoreView,
    leases: Map<(Seq<char>, Seq<char>), LeaseState>,
    queue: Seq<char>,
    id: Seq<char>,
    token: u64,
    end: ClaimEndView,
    now: u64,
    effects: PreparedEffectsView,
)
    ensures
        match claim_settled(s, leases, queue, id, token, end, now, Some(effects)) {
            Ok((after, settled)) => {
                let ended = end.settled(
                    s.vacated(claimed_place(queue, id)),
                    s.records[claimed_place(queue, id)],
                    now,
                );
                &&& claim_held(leases, s, queue, id, token)
                &&& effects_applied(ended, effects) == Ok::<
                    (StoreView, Seq<EnqueueResultView>),
                    ErrorView,
                >((after, settled.results.unwrap()))
            },
            Err(e) => !claim_held(leases, s, queue, id, token) || effects_applied(
                end.settled(
                    s.vacated(claimed_place(queue, id)),
                    s.records[claimed_place(queue, id)],
                    now,
                ),
                effects,
            ) == Err::<(StoreView, Seq<EnqueueResultView>), ErrorView>(e),
        },
{
}

/// A retried failure discards its effects: the caller's entries stay as they
/// are and no job is enqueued.
pub proof fn retried_failure_discards_effects(
    s: StoreView,
    leases: Map<(Seq<char>, Seq<char>), LeaseState>,
    configs: QueueConfigs,
    queue: Seq<char>,
    id: Seq<char>,
    token: u64,
    error: Seq<char>,
    now: u64,
    effects: PreparedEffectsView,
)
    requires
        claim_held(leases, s, queue, id, token),
        s.records[claimed_place(queue, id)].attempts < s.records[claimed_place(
            queue,
            id,
        )].max_attempts,
    ensures
        nacked(s, leases, configs, queue, id, token, error, now, effects) matches Ok((after, settled))
            && after.kv == s.kv && after.dedup == s.dedup && settled.results is None,
{
}

/// Jobs of one queue and priority are claimed in the order in which their ids
/// were drawn, and a job of a higher priority before both.
pub proof fn claims_come_in_enqueue_order(
    queue: Seq<char>,
    priority: u32,
    last: u128,
    mid: u128,
    after: u128,
    now1: u64,
    now2: u64,
    first: Seq<char>,
    second: Seq<char>,
    urgent: u32,
    any: Seq<char>,
)
    requires
        crate::ids::has_next(last, now1),
        crate::ids::has_next(mid, now2),
        crate::ids::next_id(last, mid, now1, first),
        crate::ids::next_id(mid, after, now2, second),
        urgent < priority,
    ensures
        crate::bytes::before(
            (RecordKeyView::Pending { queue, priority, id: first }).encode(),
            (RecordKeyView::Pending { queue, priority, id: second }).encode(),
        ),
        crate::bytes::before(
            (RecordKeyView::Pending { queue, priority: urgent, id: any }).encode(),
            (RecordKeyView::Pending { queue, priority, id: first }).encode(),
        ),
{
    crate::ids::ids_increase_with_call_order(last, mid, after, now1, now2, first, second);
    crate::keys::pending_keys_are_in_claim_order(queue, priority, first, priority, second);
    crate::keys::pending_keys_are_in_claim_order(queue, urgent, any, priority, first);
}

/// A claim takes the front of the queue: where the scan state is right about
/// the pending keys, every pending key that a scan from the bound leaves comes
/// after those it takes.
pub proof fn claims_take_the_front(
    state: crate::claim_cursor::CursorView,
    live: Set<Seq<u8>>,
    taken: Set<Seq<u8>>,
    last: Seq<u8>,
    key: Seq<u8>,
)
    requires
        crate::claim_cursor::cursor_sound(state, live, Set::empty()),
        forall|k: Seq<u8>| #[trigger]
            live.contains(k) && crate::claim_cursor::within(k, state.scan_from)
                && !crate::bytes::before(last, k) ==> taken.contains(k),
        live.contains(key),
        !taken.contains(key),
    ensures
        crate::bytes::before(last, key),
{
}

/// Whether every claimed record has a lease, so that none is out of the
/// reaper's sight.
pub open spec fn claims_leased(
    s: StoreView,
    leases: Map<(Seq<char>, Seq<char>), LeaseState>,
) -> bool {
    forall|queue: Seq<char>, id: Seq<char>| #[trigger]
        s.records.contains_key(claimed_place(queue, id)) ==> leases.contains_key((queue, id))
}

proof fn claimed_each_is_leased(
    s: StoreView,
    leases: Map<(Seq<char>, Seq<char>), LeaseState>,
    rows: Seq<(RecordKeyView, JobView)>,
    tokens: Seq<u64>,
    expires_at: u64,
    now: u64,
)
    requires
        claims_leased(s, leases),
    ensures
        claims_leased(
            claimed_each(s, rows, now),
            leased_each(leases, rows, tokens, expires_at),
        ),
    decreases rows.len(),
{
    if rows.len() > 0 {
        claimed_each_is_leased(s, leases, rows.drop_last(), tokens, expires_at, now);
        let before = claimed_each(s, rows.drop_last(), now);
        let after = claimed_each(s, rows, now);
        assert forall|queue: Seq<char>, id: Seq<char>| #[trigger]
            after.records.contains_key(claimed_place(queue, id)) implies leased_each(
            leases,
            rows,
            tokens,
            expires_at,
        ).contains_key((queue, id)) by {
            if claimed_place(queue, id) != claimed_place(rows.last().1.queue, rows.last().1.id) {
                assert(before.records.contains_key(claimed_place(queue, id)));
            }
        }
    }
}

/// Every claim has a lease from the moment it is taken.
pub proof fn claims_are_leased(
    s: StoreView,
    leases: Map<(Seq<char>, Seq<char>), LeaseState>,
    queue: Seq<char>,
    rows: Seq<(RecordKeyView, JobView)>,
    tokens: Seq<u64>,
    expires_at: u64,
    now: u64,
)
    requires
        claims_leased(s, leases),
    ensures
        claims_leased(
            claimed_batch(s, queue, rows, now),
            leased_each(leases, rows, tokens, expires_at),
        ),
{
    claimed_each_is_leased(s, leases, rows, tokens, expires_at, now);
    let each = claimed_each(s, rows, now);
    let batch = claimed_batch(s, queue, rows, now);
    assert(batch.records == each.records);
    assert forall|q: Seq<char>, id: Seq<char>| #[trigger]
        batch.records.contains_key(claimed_place(q, id)) implies leased_each(
        leases,
        rows,
        tokens,
        expires_at,
    ).contains_key((q, id)) by {
        assert(each.records.contains_key(claimed_place(q, id)));
    }
}

/// Every other claim still has a lease after one ends and its lease is
/// dropped.
pub proof fn ending_a_claim_leaves_the_others_leased(
    s: StoreView,
    leases: Map<(Seq<char>, Seq<char>), LeaseState>,
    queue: Seq<char>,
    id: Seq<char>,
    end: ClaimEndView,
    now: u64,
)
    requires
        well_formed(s),
        claims_leased(s, leases),
        s.records.contains_key(claimed_place(queue, id)),
    ensures
        ({
            let place = claimed_place(queue, id);
            let after = end.settled(s.vacated(place), s.records[place], now);
            &&& claims_leased(after, leases)
            &&& claims_leased(after, leases.remove((queue, id)))
        }),
{
    let place = claimed_place(queue, id);
    let after = end.settled(s.vacated(place), s.records[place], now);
    assert(fits_place(place, s.records[place]));
    assert forall|q: Seq<char>, i: Seq<char>| #[trigger]
        after.records.contains_key(claimed_place(q, i)) implies leases.contains_key((q, i)) && (q, i)
        != (queue, id) by {
        assert(s.records.contains_key(claimed_place(q, i)));
    }
}

/// Whether every job of `before` is still indexed in `after`.
pub open spec fn keeps_jobs(before: StoreView, after: StoreView) -> bool {
    forall|id: Seq<char>| #[trigger] before.index.contains_key(id) ==> after.index.contains_key(id)
}

/// An enqueue loses no job, and neither does a list of them.
pub proof fn enqueues_lose_no_job(s: StoreView, jobs: Seq<PreparedView>)
    ensures
        enqueued_all(s, jobs) matches Ok((after, _)) ==> keeps_jobs(s, after),
    decreases jobs.len(),
{
    if jobs.len() > 0 {
        enqueues_lose_no_job(s, jobs.drop_last());
    }
}

/// Claiming loses no job.
pub proof fn claiming_loses_no_job(
    s: StoreView,
    queue: Seq<char>,
    rows: Seq<(RecordKeyView, JobView)>,
    now: u64,
)
    ensures
        keeps_jobs(s, claimed_batch(s, queue, rows, now)),
{
    claimed_each_loses_no_job(s, rows, now);
}

proof fn claimed_each_loses_no_job(s: StoreView, rows: Seq<(RecordKeyView, JobView)>, now: u64)
    ensures
        keeps_jobs(s, claimed_each(s, rows, now)),
    decreases rows.len(),
{
    if rows.len() > 0 {
        claimed_each_loses_no_job(s, rows.drop_last(), now);
    }
}

/// The end of a claim loses no job but the one that is done and not kept: a
/// failure, a lease that ran out and a process that exited leave the job
/// waiting or dead.
pub proof fn claim_end_loses_no_job(
    s: StoreView,
    leases: Map<(Seq<char>, Seq<char>), LeaseState>,
    queue: Seq<char>,
    id: Seq<char>,
    token: u64,
    end: ClaimEndView,
    now: u64,
    effects: Option<PreparedEffectsView>,
    other: Seq<char>,
)
    requires
        well_formed(s),
        s.index.contains_key(other),
        other != id || end != (ClaimEndView::Done { keep: false }),
    ensures
        claim_settled(s, leases, queue, id, token, end, now, effects) matches Ok((after, _))
            ==> after.index.contains_key(other),
{
    let place = claimed_place(queue, id);
    if s.records.contains_key(place) {
        assert(fits_place(place, s.records[place]));
        let ended = end.settled(s.vacated(place), s.records[place], now);
        assert(ended.index.contains_key(other));
        if let Some(e) = effects {
            enqueues_lose_no_job(ended, e.jobs);
        }
    }
}

/// Waking, promoting and bringing back a job lose no job.
pub proof fn moves_lose_no_job(
    s: StoreView,
    id: Seq<char>,
    wake_payload: Option<Seq<u8>>,
    key: RecordKeyView,
    job: JobView,
    now: u64,
)
    ensures
        woken(s, id, wake_payload, now) matches Ok((after, _)) && keeps_jobs(s, after),
        promoted(s, key) matches Ok((after, _)) && keeps_jobs(s, after),
        requeued(s, job, now) matches Ok((after, _)) ==> keeps_jobs(s, after),
{
}

/// Cancelling a job again changes nothing: a removed job is not found, and a
/// claimed one stays flagged.
pub proof fn cancelling_again_changes_nothing(s: StoreView, id: Seq<char>)
    requires
        well_formed(s),
    ensures
        ({
            let none = PreparedEffectsView {
                jobs: Seq::empty(),
                kv_writes: Seq::empty(),
                kv_deletes: Seq::empty(),
            };
            let first = cancelled(s, id, none)->Ok_0;
            let second = cancelled(first.0, id, none)->Ok_0;
            &&& cancelled(s, id, none) is Ok
            &&& cancelled(first.0, id, none) is Ok
            &&& second.0 == first.0
            &&& second.1.outcome == if first.1.outcome == CancelOutcome::Requested {
                CancelOutcome::Requested
            } else {
                CancelOutcome::NotFound
            }
        }),
{
    if s.index.contains_key(id) {
        assert(s.records.contains_key(s.index[id]));
    }
}

/// Sweeping a job again finds nothing and counts nothing.
pub proof fn sweeping_again_counts_nothing(
    s: StoreView,
    key: RecordKeyView,
    queue: Seq<char>,
    id: Seq<char>,
)
    ensures
        swept(s, key, queue, id) matches Ok((after, _)) && swept(after, key, queue, id) == Ok::<
            (StoreView, bool),
            ErrorView,
        >((after, false)),
{
}

/// Promoting a job again moves nothing.
pub proof fn promoting_again_moves_nothing(s: StoreView, key: RecordKeyView)
    requires
        key is Scheduled,
    ensures
        promoted(s, key) matches Ok((after, _)) && (promoted(after, key) matches Ok((again, second))
            && again == after && second.moved is None),
{
}

/// The keys of a queue's pending jobs, as bytes.
pub open spec fn pending_keys(s: StoreView, queue: Seq<char>) -> Set<Seq<u8>> {
    Set::new(
        |bytes: Seq<u8>|
            exists|key: RecordKeyView|
                #[trigger] s.records.contains_key(key) && key is Pending && key.queue() == queue
                    && key.encode() == bytes,
    )
}

/// Whether `all` are the rows of a scan of a queue's pending jobs from a bound:
/// those within the bound, in key order.
pub open spec fn pending_scan(
    s: StoreView,
    queue: Seq<char>,
    bound: Option<crate::claim_cursor::ScanFromView>,
    all: Seq<(RecordKeyView, JobView)>,
) -> bool {
    &&& forall|i: int|
        0 <= i < all.len() ==> {
            let row = #[trigger] all[i];
            &&& row.0 is Pending
            &&& row.0.queue() == queue
            &&& s.records.contains_key(row.0)
            &&& s.records[row.0] == row.1
            &&& crate::claim_cursor::within(row.0.encode(), bound)
        }
    &&& forall|i: int, j: int|
        0 <= i < j < all.len() ==> crate::bytes::before(
            (#[trigger] all[i]).0.encode(),
            (#[trigger] all[j]).0.encode(),
        )
    &&& forall|key: RecordKeyView| #[trigger]
        s.records.contains_key(key) && key is Pending && key.queue() == queue
            && crate::claim_cursor::within(key.encode(), bound) ==> exists|i: int|
            0 <= i < all.len() && (#[trigger] all[i]).0 == key
}

/// A claim takes the first jobs of a queue by priority and then by id. Where the
/// scan state is right about the pending keys, a scan from its bound comes to
/// every pending job of the queue; the first `n` rows of it are claimable, and
/// each comes before every later one.
pub proof fn claim_takes_the_first_jobs(
    s: StoreView,
    queue: Seq<char>,
    state: crate::claim_cursor::CursorView,
    all: Seq<(RecordKeyView, JobView)>,
    n: int,
)
    requires
        crate::claim_cursor::cursor_sound(state, pending_keys(s, queue), Set::empty()),
        pending_scan(s, queue, state.scan_from, all),
        0 <= n <= all.len(),
    ensures
        claimable(s, queue, all.subrange(0, n)),
        forall|key: RecordKeyView| #[trigger]
            s.records.contains_key(key) && key is Pending && key.queue() == queue ==> exists|i: int|
                0 <= i < all.len() && (#[trigger] all[i]).0 == key,
        forall|i: int, j: int|
            0 <= i < j < all.len() ==> {
                let a = (#[trigger] all[i]).0;
                let b = (#[trigger] all[j]).0;
                a->Pending_priority < b->Pending_priority || (a->Pending_priority
                    == b->Pending_priority && crate::bytes::before(
                    vstd::utf8::encode_utf8(a.id()),
                    vstd::utf8::encode_utf8(b.id()),
                ))
            },
{
    assert forall|i: int, j: int| 0 <= i < j < all.len() implies {
        let a = (#[trigger] all[i]).0;
        let b = (#[trigger] all[j]).0;
        a->Pending_priority < b->Pending_priority || (a->Pending_priority == b->Pending_priority
            && crate::bytes::before(
            vstd::utf8::encode_utf8(a.id()),
            vstd::utf8::encode_utf8(b.id()),
        ))
    } by {
        let a = all[i].0;
        let b = all[j].0;
        crate::keys::pending_keys_are_in_claim_order(
            queue,
            a->Pending_priority,
            a.id(),
            b->Pending_priority,
            b.id(),
        );
        assert(crate::bytes::before(a.encode(), b.encode()));
    }
    assert forall|key: RecordKeyView| #[trigger]
        s.records.contains_key(key) && key is Pending && key.queue() == queue implies exists|i: int|
        0 <= i < all.len() && (#[trigger] all[i]).0 == key by {
        assert(pending_keys(s, queue).contains(key.encode()));
    }
    let front = all.subrange(0, n);
    assert forall|i: int, j: int| 0 <= i < j < front.len() implies (#[trigger] front[i]).0 != (
    #[trigger] front[j]).0 by {
        assert(crate::bytes::before(all[i].0.encode(), all[j].0.encode()));
        crate::bytes::before_is_irreflexive(all[i].0.encode());
    }
    assert forall|i: int| 0 <= i < front.len() implies {
        let row = #[trigger] front[i];
        &&& row.0 is Pending
        &&& row.0.queue() == queue
        &&& s.records.contains_key(row.0)
        &&& s.records[row.0] == row.1
    } by {
        assert(front[i] == all[i]);
    }
}

} // verus!

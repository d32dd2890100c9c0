//! What the parts that operations are built from come to: what is refused and why,
//! how configurations, times, counters and cursors read, and what a worker does.

use crate::assoc::to_map;
use crate::bytes::{
    before, before_is_total, before_is_transitive, big_endian, starts_with,
};
use crate::claim::{row_views, ClaimRow};
use crate::claim_cursor::{within, ClaimScan, CursorView, ScanFromView};
use crate::enqueue::{
    batch_enqueued, conflict_refusal, due_at, effects_refusal, id_drawn, key_views,
    kv_size_refusal, kv_views, prepare_refusal, prepared_views, requests_refusal, result_views,
    writes_key, BatchEnqueued, EnqueueResult, EnqueueResultView, PreparedEffects, PreparedJob,
    PreparedView,
};
use crate::error::{Error, ErrorView};
use crate::ids::{base32, base32_digit, has_next, next_id, ulid_digits};
use crate::job::{JobRecord, JobStatus, JobView};
use crate::keys::{
    key_timestamp, name_fits, queue_prefix_selects_the_queue, KeyTag, RecordKeyView, StoreKey,
};
use crate::laws::{all_enqueueable, fresh_ids, well_formed};
use crate::lease_registry::DueLease;
use crate::options::{
    id_byte, id_refusal, EnqueueOptions, EnqueueRequest, QueueConfigs, SettlementEffects,
};
use crate::payload::{offloads, unreferenced};
use crate::promises::{enqueues_made, in_use};
use crate::queue_core::{
    enqueues_bounded, enqueues_noted, pending_noted, persisted_bound, PersistedCursor,
};
use crate::range::{in_range, KeyBound, KeyBoundView};
use crate::read::{counts_queue, entry_views, listing_prefix, raw_count, record_views, texts};
use crate::reaper::{expired, Reaped, ReapedView, SweepView, Victim};
use crate::scheduler::{Promoted, PromotionView};
use crate::settle::{Cancelled, Settled, Woken};
use crate::stats::{
    appended, counter_encoding, counter_round_trip, counter_total, counter_value, merged,
    metric_text, operand_views, totals_fit, MergeError,
};
use crate::store::{op_views, Op, StoreView};
use crate::time::{millis_of, shorter, UnixTime};
use crate::time_bound::{earlier, key_due};
use crate::txn::{counted_all, ClaimEnd, ClaimEndView, Need, NeedView};
use crate::worker::{
    error_text, failure_settled, no_effects, worker_action, PoolAction, Settlement, WorkerError,
    WorkerEvent, WorkerPool,
};
use vstd::prelude::*;
use vstd::utf8::encode_utf8;

verus! {

/// A list of pairs gives each key the value of its last pair.
pub proof fn last_pair_of_a_key_counts<K, V>(s: Seq<(K, V)>, i: int)
    requires
        0 <= i < s.len(),
        forall|j: int| i < j < s.len() ==> (#[trigger] s[j]).0 != s[i].0,
    ensures
        to_map(s).contains_key(s[i].0),
        to_map(s)[s[i].0] == s[i].1,
    decreases s.len(),
{
    if i < s.len() - 1 {
        let rest = s.drop_last();
        assert forall|j: int| i < j < rest.len() implies (#[trigger] rest[j]).0 != rest[i].0 by {
            assert(rest[j] == s[j]);
        }
        last_pair_of_a_key_counts(rest, i);
        assert(s[s.len() - 1].0 != s[i].0);
    }
}

/// A list of pairs gives a key that is in none of them no value.
pub proof fn absent_key_has_no_value<K, V>(s: Seq<(K, V)>, k: K)
    requires
        forall|i: int| 0 <= i < s.len() ==> (#[trigger] s[i]).0 != k,
    ensures
        !to_map(s).contains_key(k),
    decreases s.len(),
{
    if s.len() > 0 {
        let rest = s.drop_last();
        assert forall|i: int| 0 <= i < rest.len() implies (#[trigger] rest[i]).0 != k by {
            assert(rest[i] == s[i]);
        }
        absent_key_has_no_value(rest, k);
        assert(s[s.len() - 1].0 != k);
    }
}

/// A queue with an override is configured by it, and any other queue by the default.
pub proof fn queue_has_its_override_or_the_default(configs: QueueConfigs, queue: Seq<char>)
    ensures
        configs.overrides().contains_key(queue) ==> configs.config(queue)
            == configs.overrides()[queue],
        !configs.overrides().contains_key(queue) ==> configs.config(queue) == configs.fallback(),
{
}

/// Whether an id may be supplied: it is not empty, has at most 128 bytes, and each is
/// a letter or a digit of ASCII, an underscore or a hyphen.
pub open spec fn suppliable(id: Seq<char>) -> bool {
    let bytes = encode_utf8(id);
    &&& id.len() > 0
    &&& bytes.len() <= 128
    &&& forall|i: int|
        0 <= i < bytes.len() ==> {
            let b = #[trigger] bytes[i];
            ||| '0' as u8 <= b <= '9' as u8
            ||| 'A' as u8 <= b <= 'Z' as u8
            ||| 'a' as u8 <= b <= 'z' as u8
            ||| b == '_' as u8
            ||| b == '-' as u8
        }
}

/// An id is accepted exactly where it may be supplied.
pub proof fn suppliable_ids_are_accepted(id: Seq<char>)
    ensures
        id_refusal(id) is None <==> suppliable(id),
{
    let bytes = encode_utf8(id);
    assert forall|b: u8| #[trigger] id_byte(b) <==> {
        ||| '0' as u8 <= b <= '9' as u8
        ||| 'A' as u8 <= b <= 'Z' as u8
        ||| 'a' as u8 <= b <= 'z' as u8
        ||| b == '_' as u8
        ||| b == '-' as u8
    } by {}
    if suppliable(id) {
        assert forall|i: int| 0 <= i < bytes.len() implies id_byte(#[trigger] bytes[i]) by {}
    } else if id.len() > 0 && bytes.len() <= 128 {
        let i = choose|i: int|
            0 <= i < bytes.len() && !({
                let b = #[trigger] bytes[i];
                ||| '0' as u8 <= b <= '9' as u8
                ||| 'A' as u8 <= b <= 'Z' as u8
                ||| 'a' as u8 <= b <= 'z' as u8
                ||| b == '_' as u8
                ||| b == '-' as u8
            });
        assert(!id_byte(bytes[i]));
    }
}

/// Whether an enqueue is acceptable: its queue name has at most 255 bytes and its id,
/// where one is supplied, may be.
pub open spec fn acceptable(queue: Seq<char>, opts: EnqueueOptions) -> bool {
    &&& encode_utf8(queue).len() <= 255
    &&& opts.id_override matches Some(id) ==> suppliable(id@)
}

/// An enqueue is refused exactly where it is not acceptable, for its queue name where
/// that is too long and otherwise for its id.
pub proof fn acceptable_enqueues_are_accepted(queue: Seq<char>, opts: EnqueueOptions)
    ensures
        match prepare_refusal(queue, opts) {
            None => acceptable(queue, opts),
            Some(e) => if encode_utf8(queue).len() > 255 {
                e matches ErrorView::InvalidQueueName { queue: named, .. } && named == queue
            } else {
                &&& opts.id_override matches Some(id) && !suppliable(id@)
                &&& e matches ErrorView::InvalidId { id: named, .. } && named
                    == opts.id_override.unwrap()@
            },
        },
{
    if let Some(id) = opts.id_override {
        suppliable_ids_are_accepted(id@);
    }
}

/// Entries are refused exactly where some value has more than 262,144 bytes, with the
/// size of the first such value.
pub proof fn oversized_values_are_refused(writes: Seq<(Seq<u8>, Seq<u8>)>)
    ensures
        match kv_size_refusal(writes) {
            None => forall|i: int|
                0 <= i < writes.len() ==> (#[trigger] writes[i]).1.len() <= 262_144,
            Some(e) => exists|i: int|
                {
                    &&& 0 <= i < writes.len()
                    &&& (#[trigger] writes[i]).1.len() > 262_144
                    &&& forall|j: int| 0 <= j < i ==> (#[trigger] writes[j]).1.len() <= 262_144
                    &&& e == (ErrorView::KvValueTooLarge {
                        size: writes[i].1.len(),
                        max: 262_144,
                    })
                },
        },
    decreases writes.len(),
{
    if writes.len() > 0 {
        let rest = writes.drop_last();
        oversized_values_are_refused(rest);
        assert(writes[writes.len() - 1] == writes.last());
        match kv_size_refusal(rest) {
            None => {
                assert forall|j: int| 0 <= j < rest.len() implies (#[trigger] writes[j]).1.len()
                    <= 262_144 by {
                    assert(rest[j] == writes[j]);
                }
            },
            Some(e) => {
                let i = choose|i: int|
                    {
                        &&& 0 <= i < rest.len()
                        &&& (#[trigger] rest[i]).1.len() > 262_144
                        &&& forall|j: int| 0 <= j < i ==> (#[trigger] rest[j]).1.len() <= 262_144
                        &&& e == (ErrorView::KvValueTooLarge {
                            size: rest[i].1.len(),
                            max: 262_144,
                        })
                    };
                assert(rest[i] == writes[i]);
                assert forall|j: int| 0 <= j < i implies (#[trigger] writes[j]).1.len()
                    <= 262_144 by {
                    assert(rest[j] == writes[j]);
                }
            },
        }
    }
}

/// Deletes are refused exactly where some deleted key is also written, for the first
/// such key.
pub proof fn conflicting_deletes_are_refused(
    deletes: Seq<Seq<u8>>,
    writes: Seq<(Seq<u8>, Seq<u8>)>,
)
    ensures
        match conflict_refusal(deletes, writes) {
            None => forall|i: int, j: int|
                0 <= i < deletes.len() && 0 <= j < writes.len() ==> (#[trigger] writes[j]).0
                    != #[trigger] deletes[i],
            Some(e) => exists|i: int, j: int|
                {
                    &&& 0 <= i < deletes.len()
                    &&& 0 <= j < writes.len()
                    &&& (#[trigger] writes[j]).0 == #[trigger] deletes[i]
                    &&& e == (ErrorView::ConflictingKvEffect { key: deletes[i] })
                    &&& forall|k: int| 0 <= k < i ==> !writes_key(writes, #[trigger] deletes[k])
                },
        },
        forall|key: Seq<u8>| #[trigger]
            writes_key(writes, key) <==> exists|j: int|
                0 <= j < writes.len() && (#[trigger] writes[j]).0 == key,
    decreases deletes.len(),
{
    if deletes.len() > 0 {
        let rest = deletes.drop_last();
        let last = deletes.last();
        conflicting_deletes_are_refused(rest, writes);
        assert(deletes[deletes.len() - 1] == last);
        match conflict_refusal(rest, writes) {
            None => {
                assert forall|k: int| 0 <= k < rest.len() implies !writes_key(
                    writes,
                    #[trigger] deletes[k],
                ) by {
                    assert(rest[k] == deletes[k]);
                    if writes_key(writes, deletes[k]) {
                        let j = choose|j: int|
                            0 <= j < writes.len() && (#[trigger] writes[j]).0 == deletes[k];
                        assert(writes[j].0 != rest[k]);
                    }
                }
                if writes_key(writes, last) {
                    let j = choose|j: int|
                        0 <= j < writes.len() && (#[trigger] writes[j]).0 == last;
                    assert(writes[j].0 == deletes[deletes.len() - 1]);
                } else {
                    assert forall|i: int, j: int|
                        0 <= i < deletes.len() && 0 <= j < writes.len() implies (
                    #[trigger] writes[j]).0 != #[trigger] deletes[i] by {
                        if i < rest.len() {
                            assert(!writes_key(writes, deletes[i]));
                        }
                    }
                }
            },
            Some(e) => {
                let (i, j) = choose|i: int, j: int|
                    {
                        &&& 0 <= i < rest.len()
                        &&& 0 <= j < writes.len()
                        &&& (#[trigger] writes[j]).0 == #[trigger] rest[i]
                        &&& e == (ErrorView::ConflictingKvEffect { key: rest[i] })
                        &&& forall|k: int| 0 <= k < i ==> !writes_key(writes, #[trigger] rest[k])
                    };
                assert(rest[i] == deletes[i]);
                assert forall|k: int| 0 <= k < i implies !writes_key(
                    writes,
                    #[trigger] deletes[k],
                ) by {
                    assert(rest[k] == deletes[k]);
                }
                assert(writes[j].0 == deletes[i]);
            },
        }
    }
}

/// A list of enqueues is refused exactly where one of them is not acceptable, for the
/// first such one.
pub proof fn unacceptable_requests_are_refused(requests: Seq<EnqueueRequest>)
    ensures
        match requests_refusal(requests) {
            None => forall|i: int|
                0 <= i < requests.len() ==> acceptable(
                    (#[trigger] requests[i]).queue@,
                    requests[i].options,
                ),
            Some(e) => exists|i: int|
                {
                    &&& 0 <= i < requests.len()
                    &&& !acceptable((#[trigger] requests[i]).queue@, requests[i].options)
                    &&& forall|j: int|
                        0 <= j < i ==> acceptable(
                            (#[trigger] requests[j]).queue@,
                            requests[j].options,
                        )
                    &&& prepare_refusal(requests[i].queue@, requests[i].options) == Some(e)
                },
        },
    decreases requests.len(),
{
    if requests.len() > 0 {
        let rest = requests.drop_last();
        let last = requests.len() - 1;
        unacceptable_requests_are_refused(rest);
        assert(requests[last] == requests.last());
        acceptable_enqueues_are_accepted(requests[last].queue@, requests[last].options);
        match requests_refusal(rest) {
            None => {
                assert forall|j: int| 0 <= j < last implies acceptable(
                    (#[trigger] requests[j]).queue@,
                    requests[j].options,
                ) by {
                    assert(rest[j] == requests[j]);
                }
            },
            Some(e) => {
                let i = choose|i: int|
                    {
                        &&& 0 <= i < rest.len()
                        &&& !acceptable((#[trigger] rest[i]).queue@, rest[i].options)
                        &&& forall|j: int|
                            0 <= j < i ==> acceptable((#[trigger] rest[j]).queue@, rest[j].options)
                        &&& prepare_refusal(rest[i].queue@, rest[i].options) == Some(e)
                    };
                assert(rest[i] == requests[i]);
                assert forall|j: int| 0 <= j < i implies acceptable(
                    (#[trigger] requests[j]).queue@,
                    requests[j].options,
                ) by {
                    assert(rest[j] == requests[j]);
                }
            },
        }
    }
}

/// Effects are accepted exactly where no value is oversized, no key is both written
/// and deleted, and every enqueue is acceptable. Of several grounds the first in this
/// order is given.
pub proof fn acceptable_effects_are_accepted(effects: SettlementEffects)
    ensures
        ({
            let writes = effects.kv_writes@;
            let deletes = effects.kv_deletes@;
            let fits = forall|i: int|
                0 <= i < writes.len() ==> (#[trigger] writes[i]).1@.len() <= 262_144;
            let apart = forall|i: int, j: int|
                0 <= i < deletes.len() && 0 <= j < writes.len() ==> (#[trigger] writes[j]).0@
                    != (#[trigger] deletes[i])@;
            let all = forall|i: int|
                0 <= i < effects.enqueues@.len() ==> acceptable(
                    (#[trigger] effects.enqueues@[i]).queue@,
                    effects.enqueues@[i].options,
                );
            match effects_refusal(effects) {
                None => fits && apart && all,
                Some(e) => {
                    &&& e is KvValueTooLarge <==> !fits
                    &&& e is ConflictingKvEffect <==> fits && !apart
                    &&& e is InvalidQueueName || e is InvalidId <==> fits && apart && !all
                },
            }
        }),
{
    let writes = kv_views(effects.kv_writes@);
    let deletes = key_views(effects.kv_deletes@);
    oversized_values_are_refused(writes);
    conflicting_deletes_are_refused(deletes, writes);
    unacceptable_requests_are_refused(effects.enqueues@);
    assert forall|i: int| 0 <= i < effects.enqueues@.len() implies {
        let request = #[trigger] effects.enqueues@[i];
        match prepare_refusal(request.queue@, request.options) {
            None => acceptable(request.queue@, request.options),
            Some(e) => e is InvalidQueueName || e is InvalidId,
        }
    } by {
        let request = effects.enqueues@[i];
        acceptable_enqueues_are_accepted(request.queue@, request.options);
    }
    assert forall|i: int| 0 <= i < writes.len() implies (#[trigger] effects.kv_writes@[i]).0@
        == writes[i].0 && effects.kv_writes@[i].1@ == writes[i].1 by {}
    assert forall|i: int| 0 <= i < deletes.len() implies (#[trigger] effects.kv_deletes@[i])@
        == deletes[i] by {}
    match kv_size_refusal(writes) {
        Some(e) => {
            let i = choose|i: int|
                {
                    &&& 0 <= i < writes.len()
                    &&& (#[trigger] writes[i]).1.len() > 262_144
                    &&& forall|j: int| 0 <= j < i ==> (#[trigger] writes[j]).1.len() <= 262_144
                    &&& e == (ErrorView::KvValueTooLarge {
                        size: writes[i].1.len(),
                        max: 262_144,
                    })
                };
            assert(effects.kv_writes@[i].1@.len() > 262_144);
        },
        None => {
            if let Some(e) = conflict_refusal(deletes, writes) {
                let (i, j) = choose|i: int, j: int|
                    {
                        &&& 0 <= i < deletes.len()
                        &&& 0 <= j < writes.len()
                        &&& (#[trigger] writes[j]).0 == #[trigger] deletes[i]
                        &&& e == (ErrorView::ConflictingKvEffect { key: deletes[i] })
                        &&& forall|k: int| 0 <= k < i ==> !writes_key(writes, #[trigger] deletes[k])
                    };
                assert(effects.kv_writes@[j].0@ == effects.kv_deletes@[i]@);
            } else {
                assert forall|i: int, j: int|
                    0 <= i < effects.kv_deletes@.len() && 0 <= j
                        < effects.kv_writes@.len() implies (#[trigger] effects.kv_writes@[j]).0@
                    != (#[trigger] effects.kv_deletes@[i])@ by {
                    assert(writes[j].0 != deletes[i]);
                }
                if let Some(e) = requests_refusal(effects.enqueues@) {
                    let i = choose|i: int|
                        {
                            &&& 0 <= i < effects.enqueues@.len()
                            &&& !acceptable(
                                (#[trigger] effects.enqueues@[i]).queue@,
                                effects.enqueues@[i].options,
                            )
                            &&& forall|j: int|
                                0 <= j < i ==> acceptable(
                                    (#[trigger] effects.enqueues@[j]).queue@,
                                    effects.enqueues@[j].options,
                                )
                            &&& prepare_refusal(
                                effects.enqueues@[i].queue@,
                                effects.enqueues@[i].options,
                            ) == Some(e)
                        };
                    assert(!acceptable(effects.enqueues@[i].queue@, effects.enqueues@[i].options));
                }
            }
        },
    }
}

/// Whether an enqueue of a list left its payload object without a job: the effects
/// were not applied, or its deduplication key turned it away.
pub open spec fn turned_away(results: Option<Seq<EnqueueResultView>>, i: int) -> bool {
    match results {
        None => true,
        Some(list) => i < list.len() && list[i] is AlreadyEnqueued,
    }
}

/// The payload objects to delete are those of the enqueues that made no job, and no
/// others.
pub proof fn deleted_objects_are_without_a_job(
    jobs: Seq<PreparedView>,
    results: Option<Seq<EnqueueResultView>>,
)
    ensures
        forall|i: int|
            0 <= i < jobs.len() && turned_away(results, i) && (#[trigger] jobs[i]).job.payload_ref
                is Some ==> unreferenced(jobs, results).contains(
                jobs[i].job.payload_ref.unwrap(),
            ),
        forall|name: Seq<char>| #[trigger]
            unreferenced(jobs, results).contains(name) ==> exists|i: int|
                0 <= i < jobs.len() && turned_away(results, i) && (
                #[trigger] jobs[i]).job.payload_ref == Some(name),
    decreases jobs.len(),
{
    let all = unreferenced(jobs, results);
    if jobs.len() > 0 {
        let rest_jobs = jobs.drop_last();
        let rest = unreferenced(rest_jobs, results);
        let last = jobs.len() - 1;
        deleted_objects_are_without_a_job(rest_jobs, results);
        assert(jobs[last] == jobs.last());
        assert(forall|k: int| 0 <= k < rest.len() ==> all[k] == rest[k]);
        assert forall|i: int|
            0 <= i < jobs.len() && turned_away(results, i) && (#[trigger] jobs[i]).job.payload_ref
                is Some implies all.contains(jobs[i].job.payload_ref.unwrap()) by {
            let name = jobs[i].job.payload_ref.unwrap();
            if i < last {
                assert(rest_jobs[i] == jobs[i]);
                let k = choose|k: int| 0 <= k < rest.len() && rest[k] == name;
                assert(all[k] == name);
            } else {
                assert(all[rest.len() as int] == name);
            }
        }
        assert forall|name: Seq<char>| #[trigger] all.contains(name) implies exists|i: int|
            0 <= i < jobs.len() && turned_away(results, i) && (#[trigger] jobs[i]).job.payload_ref
                == Some(name) by {
            let k = choose|k: int| 0 <= k < all.len() && all[k] == name;
            if k < rest.len() {
                assert(rest[k] == name);
                assert(rest.contains(name));
                let i = choose|i: int|
                    0 <= i < rest_jobs.len() && turned_away(results, i) && (
                    #[trigger] rest_jobs[i]).job.payload_ref == Some(name);
                assert(jobs[i] == rest_jobs[i]);
            } else {
                assert(jobs[last].job.payload_ref == Some(name));
            }
        }
    }
}

/// A payload has an object of its own exactly where there is a threshold that it is
/// longer than.
pub proof fn long_payloads_are_taken_out(payload: Seq<u8>, threshold: Option<usize>)
    ensures
        threshold is None ==> !offloads(payload, threshold),
        threshold matches Some(limit) ==> (offloads(payload, threshold) <==> payload.len() > limit),
{
}

/// A record that is delivered to those waiting has its payload inline, and is the
/// stored record otherwise.
pub proof fn delivered_record_has_its_payload(stored: JobView, claimed: Seq<u8>)
    ensures
        ({
            let delivered = stored.delivered(claimed);
            &&& stored.payload_ref is Some ==> delivered.payload == claimed
            &&& stored.payload_ref is None ==> delivered == stored
            &&& delivered == (JobView { payload: delivered.payload, ..stored })
        }),
{
}

/// A batch of enqueues comes to its results, or is refused whole for a supplied id
/// that is in use.
pub proof fn batch_comes_to_its_results(s: StoreView, jobs: Seq<PreparedView>)
    requires
        well_formed(s),
        all_enqueueable(jobs),
        fresh_ids(s, jobs),
    ensures
        match batch_enqueued(s, jobs) {
            Ok((after, report)) => enqueues_made(s, after, jobs, report.results) && after.kv
                == s.kv && well_formed(after),
            Err(e) => in_use(s.index.dom(), jobs, e),
        },
{
    crate::promises::enqueues_come_to_their_results(s, jobs);
}

/// Whether an enqueue of a list wrote a key of its own.
pub open spec fn newly_written(results: Seq<EnqueueResultView>, i: int) -> bool {
    i < results.len() && results[i] is New
}

/// After enqueues the bound of the scheduled keys is the earliest of what it was and
/// the times of the newly scheduled jobs.
pub proof fn bound_is_the_earliest_time(
    bound: u64,
    jobs: Seq<PreparedView>,
    results: Seq<EnqueueResultView>,
)
    ensures
        ({
            let after = enqueues_bounded(bound, jobs, results);
            &&& after <= bound
            &&& forall|i: int|
                0 <= i < jobs.len() && newly_written(results, i) ==> ((#[trigger] jobs[i]).key
                    matches RecordKeyView::Scheduled { run_at, .. } ==> after <= run_at)
            &&& after == bound || exists|i: int|
                0 <= i < jobs.len() && newly_written(results, i) && ((#[trigger] jobs[i]).key
                    matches RecordKeyView::Scheduled { run_at, .. } && after == run_at)
        }),
    decreases jobs.len(),
{
    if jobs.len() > 0 {
        let rest = jobs.drop_last();
        let last = jobs.len() - 1;
        let mid = enqueues_bounded(bound, rest, results);
        let after = enqueues_bounded(bound, jobs, results);
        bound_is_the_earliest_time(bound, rest, results);
        assert(jobs[last] == jobs.last());
        assert forall|i: int| 0 <= i < jobs.len() && newly_written(results, i) implies ((
        #[trigger] jobs[i]).key matches RecordKeyView::Scheduled { run_at, .. } ==> after
            <= run_at) by {
            if i < last {
                assert(rest[i] == jobs[i]);
            }
        }
        if after != bound {
            if after == mid {
                let i = choose|i: int|
                    0 <= i < rest.len() && newly_written(results, i) && ((#[trigger] rest[i]).key
                        matches RecordKeyView::Scheduled { run_at, .. } && mid == run_at);
                assert(jobs[i] == rest[i]);
            } else {
                assert(newly_written(results, last));
            }
        }
    }
}

/// A key that was inserted is not excluded by the bound, and the queue is not known to
/// be empty. What the bound did not exclude it still does not, and a bound that does
/// not exclude the key stays.
pub proof fn inserted_key_is_within_the_bound(state: CursorView, key: Seq<u8>, other: Seq<u8>)
    ensures
        ({
            let after = state.inserted(key);
            &&& within(key, after.scan_from)
            &&& within(other, state.scan_from) ==> within(other, after.scan_from)
            &&& within(key, state.scan_from) ==> after.scan_from == state.scan_from
            &&& !within(key, state.scan_from) ==> after.scan_from == Some(
                ScanFromView { key, inclusive: true },
            )
            &&& !after.known_empty
            &&& after.epoch == (state.epoch + 1) % 0x1_0000_0000_0000_0000
        }),
{
    if let Some(bound) = state.scan_from {
        if !within(key, state.scan_from) && within(other, state.scan_from) {
            before_is_total(bound.key, key);
            if before(key, bound.key) && before(bound.key, other) {
                before_is_transitive(key, bound.key, other);
            }
        }
    }
}

/// A bound excludes the keys before it, and its own key unless it includes it.
pub proof fn bound_excludes_what_is_before_it(key: Seq<u8>, bound: Option<ScanFromView>)
    ensures
        bound is None ==> within(key, bound),
        bound matches Some(b) ==> {
            &&& before(b.key, key) ==> within(key, bound)
            &&& key == b.key ==> within(key, bound) == b.inclusive
            &&& before(key, b.key) ==> !within(key, bound)
        },
{
    if let Some(b) = bound {
        crate::bytes::before_is_irreflexive(key);
        if before(key, b.key) && before(b.key, key) {
            before_is_transitive(key, b.key, key);
        }
    }
}

/// A scan that found nothing makes its queue known to be empty, and one that claimed
/// makes the bound follow the last key, unless a key was inserted meanwhile. Nothing
/// else of the state changes.
pub proof fn scan_moves_the_cursor(state: CursorView, last: Seq<u8>, epoch: u64)
    ensures
        ({
            let empty = state.emptied(epoch);
            let moved = state.advanced(last, epoch);
            &&& empty.known_empty == (state.known_empty || state.epoch == epoch)
            &&& empty.scan_from == state.scan_from
            &&& empty.epoch == state.epoch
            &&& state.epoch != epoch ==> moved == state
            &&& state.epoch == epoch ==> moved.scan_from == Some(
                ScanFromView { key: last, inclusive: false },
            ) && moved.known_empty == state.known_empty && moved.epoch == epoch
            &&& CursorView::unknown().scan_from is None
            &&& !CursorView::unknown().known_empty
        }),
{
}

/// After enqueues each new pending key is within the bound of its queue, which is not
/// known to be empty, and a queue without a new pending key has the state it had.
pub proof fn enqueued_keys_are_within_the_bounds(
    cursors: Map<Seq<char>, CursorView>,
    jobs: Seq<PreparedView>,
    results: Seq<EnqueueResultView>,
)
    ensures
        ({
            let after = enqueues_noted(cursors, jobs, results);
            &&& forall|i: int|
                0 <= i < jobs.len() && newly_written(results, i) && (#[trigger] jobs[i]).key
                    is Pending ==> {
                    let queue = jobs[i].key.queue();
                    &&& after.contains_key(queue)
                    &&& within(jobs[i].key.encode(), after[queue].scan_from)
                    &&& !after[queue].known_empty
                }
            &&& forall|queue: Seq<char>|
                #![trigger after.contains_key(queue)]
                #![trigger cursors.contains_key(queue)]
                (forall|i: int|
                    0 <= i < jobs.len() && newly_written(results, i) && (#[trigger] jobs[i]).key
                        is Pending ==> jobs[i].key.queue() != queue) ==> after.contains_key(queue)
                    == cursors.contains_key(queue) && after[queue] == cursors[queue]
        }),
    decreases jobs.len(),
{
    if jobs.len() > 0 {
        let rest = jobs.drop_last();
        let last = jobs.len() - 1;
        let mid = enqueues_noted(cursors, rest, results);
        let after = enqueues_noted(cursors, jobs, results);
        let key = jobs.last().key;
        enqueued_keys_are_within_the_bounds(cursors, rest, results);
        assert(jobs[last] == jobs.last());
        assert forall|i: int|
            0 <= i < jobs.len() && newly_written(results, i) && (#[trigger] jobs[i]).key
                is Pending implies {
            let queue = jobs[i].key.queue();
            &&& after.contains_key(queue)
            &&& within(jobs[i].key.encode(), after[queue].scan_from)
            &&& !after[queue].known_empty
        } by {
            let queue = jobs[i].key.queue();
            if i < last {
                assert(rest[i] == jobs[i]);
                if newly_written(results, last) && key is Pending && key.queue() == queue {
                    inserted_key_is_within_the_bound(
                        mid[queue],
                        key.encode(),
                        jobs[i].key.encode(),
                    );
                }
            } else {
                let state = if mid.contains_key(queue) {
                    mid[queue]
                } else {
                    CursorView::unknown()
                };
                inserted_key_is_within_the_bound(state, key.encode(), key.encode());
                assert(after == pending_noted(mid, key));
            }
        }
        assert forall|queue: Seq<char>|
            #![trigger after.contains_key(queue)]
            #![trigger cursors.contains_key(queue)]
            (forall|i: int|
                0 <= i < jobs.len() && newly_written(results, i) && (#[trigger] jobs[i]).key
                    is Pending ==> jobs[i].key.queue() != queue) implies after.contains_key(queue)
            == cursors.contains_key(queue) && after[queue] == cursors[queue] by {
            assert forall|i: int|
                0 <= i < rest.len() && newly_written(results, i) && (#[trigger] rest[i]).key
                    is Pending implies rest[i].key.queue() != queue by {
                assert(rest[i] == jobs[i]);
            }
            assert(mid.contains_key(queue) == cursors.contains_key(queue));
        }
    }
}

/// Counter deltas add up: merging deltas into a counter gives the sum, and an absent
/// counter counts as zero.
pub proof fn counter_deltas_add_up(existing: Option<i64>, deltas: Seq<i64>)
    ensures
        counter_total(
            match existing {
                Some(x) => Some(counter_encoding(x)),
                None => None,
            },
            deltas.map_values(|d: i64| counter_encoding(d)),
        ) == Some(
            deltas.fold_left(
                match existing {
                    Some(x) => x as int,
                    None => 0,
                },
                |sum: int, d: i64| sum + d,
            ),
        ),
    decreases deltas.len(),
{
    let stored = match existing {
        Some(x) => Some(counter_encoding(x)),
        None => None,
    };
    let operands = deltas.map_values(|d: i64| counter_encoding(d));
    if let Some(x) = existing {
        counter_round_trip(x);
    }
    if deltas.len() > 0 {
        counter_deltas_add_up(existing, deltas.drop_last());
        counter_round_trip(deltas.last());
        assert(operands.drop_last() =~= deltas.drop_last().map_values(
            |d: i64| counter_encoding(d),
        ));
        assert(operands.last() == counter_encoding(deltas.last()));
    }
}

/// Whether a total, where there is one, fits 64 bits.
pub open spec fn total_fits(total: Option<int>) -> bool {
    total matches Some(n) ==> i64::MIN <= n <= i64::MAX
}

/// Deltas fit a counter exactly where the total after each of them does.
pub proof fn every_running_total_fits(existing: Option<Seq<u8>>, operands: Seq<Seq<u8>>)
    ensures
        totals_fit(existing, operands) <==> forall|n: int|
            0 <= n <= operands.len() ==> total_fits(
                counter_total(existing, #[trigger] operands.subrange(0, n)),
            ),
    decreases operands.len(),
{
    assert(operands.subrange(0, operands.len() as int) =~= operands);
    if operands.len() == 0 {
        assert(operands.subrange(0, 0) =~= operands);
    } else {
        let rest = operands.drop_last();
        every_running_total_fits(existing, rest);
        if totals_fit(existing, operands) {
            assert forall|n: int| 0 <= n <= operands.len() implies total_fits(
                counter_total(existing, #[trigger] operands.subrange(0, n)),
            ) by {
                if n < operands.len() {
                    assert(operands.subrange(0, n) =~= rest.subrange(0, n));
                }
            }
        } else if totals_fit(existing, rest) {
            assert(!total_fits(
                counter_total(existing, operands.subrange(0, operands.len() as int)),
            ));
        } else {
            let n = choose|n: int|
                0 <= n <= rest.len() && !total_fits(
                    counter_total(existing, #[trigger] rest.subrange(0, n)),
                );
            assert(operands.subrange(0, n) =~= rest.subrange(0, n));
        }
    }
}

/// A counter is read from eight bytes and from no other number of them.
pub proof fn counters_have_eight_bytes(bytes: Seq<u8>)
    ensures
        counter_value(bytes) is Some <==> bytes.len() == 8,
{
}

/// A counter that is absent reads as zero, and one that is there as its value.
pub proof fn absent_counter_is_zero(bytes: Option<Vec<u8>>)
    ensures
        bytes is None ==> raw_count(bytes) == Some(0int),
        bytes matches Some(b) ==> raw_count(bytes) == counter_value(b@),
{
}

/// Appending puts the new bytes behind what was there, in order.
pub proof fn appended_bytes_follow(existing: Seq<u8>, operands: Seq<Seq<u8>>, next: Seq<u8>)
    ensures
        appended(existing, Seq::empty()) == existing,
        appended(existing, operands.push(next)) == appended(existing, operands) + next,
        appended(existing, operands).len() >= existing.len(),
        appended(existing, operands).subrange(0, existing.len() as int) == existing,
    decreases operands.len(),
{
    assert(operands.push(next).drop_last() =~= operands);
    if operands.len() > 0 {
        appended_bytes_follow(existing, operands.drop_last(), next);
        assert(appended(existing, operands).subrange(0, existing.len() as int) =~= appended(
            existing,
            operands.drop_last(),
        ).subrange(0, existing.len() as int));
    } else {
        assert(existing.subrange(0, existing.len() as int) =~= existing);
    }
}

/// Counters are added to, histories are appended to, and merging into any other entry
/// is refused.
pub proof fn merging_goes_by_the_key_space(
    key: StoreKey,
    existing: Option<Seq<u8>>,
    operands: Seq<Seq<u8>>,
)
    ensures
        key is History ==> merged(key.encode(), existing, operands) == Ok::<
            Seq<u8>,
            MergeError,
        >(
            appended(
                match existing {
                    Some(bytes) => bytes,
                    None => Seq::empty(),
                },
                operands,
            ),
        ),
        key is Stats ==> match counter_total(existing, operands) {
            Some(total) => i64::MIN <= total <= i64::MAX ==> (merged(
                key.encode(),
                existing,
                operands,
            ) matches Ok(bytes) && counter_value(bytes) == Some(total)),
            None => merged(key.encode(), existing, operands) is Err,
        },
        !(key is History) && !(key is Stats) ==> merged(key.encode(), existing, operands) is Err,
{
    crate::keys::encoding_leads_with_tag(key);
    if let Some(total) = counter_total(existing, operands) {
        if i64::MIN <= total <= i64::MAX {
            counter_round_trip(total as i64);
        }
    }
}

/// A span in milliseconds is cut to whole ones, and to the largest number there is.
pub proof fn millis_are_whole(nanos: nat)
    ensures
        nanos < 0x1_0000_0000_0000_0000 * 1_000_000 ==> millis_of(nanos) * 1_000_000 <= nanos < (
        millis_of(nanos) + 1) * 1_000_000,
        nanos >= 0x1_0000_0000_0000_0000 * 1_000_000 ==> millis_of(nanos) == u64::MAX,
{
}

/// Of two spans the shorter is the lesser, and of two times the earlier.
pub proof fn lesser_of_two(a: nat, b: nat, x: u64, y: u64)
    ensures
        shorter(a, b) <= a,
        shorter(a, b) <= b,
        shorter(a, b) == a || shorter(a, b) == b,
        earlier(x, y) <= x,
        earlier(x, y) <= y,
        earlier(x, y) == x || earlier(x, y) == y,
{
}

/// A key is due once its retention has passed, and a job is put off exactly where its
/// time is to come.
pub proof fn due_times(at: u64, now: u64, retention: u64, run_at: Option<UnixTime>)
    ensures
        key_due(at, now, retention) <==> now - at >= retention,
        due_at(run_at, now) matches Some(ms) ==> ms > now && (run_at matches Some(when) && (when
            matches UnixTime::SinceEpoch(d) && ms == millis_of(d@))),
        due_at(run_at, now) is None ==> match run_at {
            Some(UnixTime::SinceEpoch(d)) => millis_of(d@) <= now,
            _ => true,
        },
{
}

/// A supplied id is the job's id and draws none; otherwise the id is drawn.
pub proof fn supplied_id_is_the_job_id(
    last: u128,
    after: u128,
    now: u64,
    id_override: Option<String>,
    id: Seq<char>,
)
    requires
        id_drawn(last, after, now, id_override, id),
    ensures
        id_override matches Some(supplied) ==> id == supplied@ && after == last,
        id_override is None ==> next_id(last, after, now, id),
{
}

/// An id that is drawn is the text of a value after the last one: of the given time,
/// or of the last id's time where the clock went back. Where that millisecond has no
/// room left the id is of the given time.
pub proof fn drawn_id_has_its_time(last: u128, after: u128, now: u64, id: Seq<char>)
    requires
        next_id(last, after, now, id),
    ensures
        ({
            let last_time = last / 0x1_0000_0000_0000_0000_0000;
            let room = last % 0x1_0000_0000_0000_0000_0000 < 0xffff_ffff_ffff_ffff_ffff;
            &&& room || last_time < now ==> {
                &&& encode_utf8(id) == ulid_digits(after)
                &&& after > last
                &&& last_time < now ==> after / 0x1_0000_0000_0000_0000_0000 == now
                &&& last_time >= now ==> after / 0x1_0000_0000_0000_0000_0000 == last_time
            }
            &&& !room && last_time >= now ==> after == last && exists|v: u128|
                v / 0x1_0000_0000_0000_0000_0000 == now && encode_utf8(id)
                    == #[trigger] ulid_digits(v)
        }),
{
    assert(has_next(last, now) <==> last % 0x1_0000_0000_0000_0000_0000
        < 0xffff_ffff_ffff_ffff_ffff || last / 0x1_0000_0000_0000_0000_0000 < now);
}

/// The digits of ids are the digits and capital letters without I, L, O and U, in
/// order.
pub proof fn digits_are_of_crockfords_alphabet(d: nat)
    requires
        d < 32,
    ensures
        base32_digit(d) == "0123456789ABCDEFGHJKMNPQRSTVWXYZ"@[d as int] as u8,
{
    reveal_strlit("0123456789ABCDEFGHJKMNPQRSTVWXYZ");
}

/// An id has 26 digits, the last of which is its value modulo 32.
pub proof fn ids_have_their_digits(v: u128, n: nat)
    ensures
        ulid_digits(v) == base32(v as nat, 26),
        base32(v as nat, n).len() == n,
        n > 0 ==> base32(v as nat, n).last() == base32_digit(v as nat % 32) && base32(
            v as nat,
            n,
        ).drop_last() == base32(v as nat / 32, (n - 1) as nat),
    decreases n,
{
    if n > 0 {
        ids_have_their_digits(v / 32, (n - 1) as nat);
        assert(base32(v as nat, n).drop_last() =~= base32(v as nat / 32, (n - 1) as nat));
    }
}

/// A range holds the keys between its bounds, and a bound itself where it includes it.
pub proof fn range_is_between_its_bounds(key: Seq<u8>, start: KeyBoundView, end: KeyBoundView)
    ensures
        in_range(key, start, end) <==> {
            &&& match start {
                KeyBoundView::Unbounded => true,
                KeyBoundView::Included(b) => !before(key, b),
                KeyBoundView::Excluded(b) => !before(key, b) && key != b,
            }
            &&& match end {
                KeyBoundView::Unbounded => true,
                KeyBoundView::Included(b) => !before(b, key),
                KeyBoundView::Excluded(b) => !before(b, key) && key != b,
            }
        },
{
    crate::bytes::before_is_irreflexive(key);
    match start {
        KeyBoundView::Unbounded => {},
        KeyBoundView::Included(b) | KeyBoundView::Excluded(b) => {
            before_is_total(key, b);
            if before(key, b) && before(b, key) {
                before_is_transitive(key, b, key);
            }
        },
    }
    match end {
        KeyBoundView::Unbounded => {},
        KeyBoundView::Included(b) | KeyBoundView::Excluded(b) => {
            before_is_total(key, b);
            if before(key, b) && before(b, key) {
                before_is_transitive(key, b, key);
            }
        },
    }
}

/// A worker processes what it claimed, waits where there was nothing, and otherwise
/// claims again. It stops exactly where it sees the shutdown signal between jobs.
pub proof fn worker_stops_between_jobs(event: WorkerEvent)
    ensures
        ({
            let action = worker_action(event);
            let between = event is Settled || event is Waited;
            let signalled = (event matches WorkerEvent::Settled { shutdown } && shutdown) || (event
                matches WorkerEvent::Waited { shutdown } && shutdown);
            &&& action is Stop <==> signalled
            &&& action is Process <==> event is Claimed
            &&& action is Wait <==> event is Empty
            &&& action is Claim <==> event is Started || (between && !signalled)
        }),
{
}

/// A pool claims exactly where it has free slots, work may be there and no shutdown was
/// signalled, and then as many jobs as it has free slots. After the signal it waits for
/// what is running and then ends.
pub proof fn pool_claims_for_its_free_slots(pool: WorkerPool)
    requires
        pool.concurrency() <= usize::MAX,
    ensures
        match pool.action() {
            PoolAction::Claim(max) => {
                &&& !pool.draining()
                &&& !pool.idle()
                &&& pool.running() < pool.concurrency()
                &&& max == pool.concurrency() - pool.running()
            },
            PoolAction::AwaitSlot => !pool.draining() && !pool.idle() && pool.running()
                >= pool.concurrency(),
            PoolAction::Wait => !pool.draining() && pool.idle(),
            PoolAction::Drain => pool.draining() && pool.running() > 0,
            PoolAction::Finished => pool.draining() && pool.running() == 0,
        },
{
}

/// A permanent failure is settled by a dead letter and any other by a failed attempt,
/// with the failure in words. A failure with effects is as the one it wraps.
pub proof fn failures_are_settled_by_their_kind(error: WorkerError, settlement: Settlement)
    requires
        failure_settled(error, settlement),
    ensures
        error is Permanent <==> settlement is DeadLetter,
        !(error is Permanent) <==> settlement is Nack,
        settlement matches Settlement::DeadLetter { reason, .. } ==> reason@ == error_text(error),
        settlement matches Settlement::Nack { reason, .. } ==> reason@ == error_text(error),
        error matches WorkerError::Permanent(failure) ==> error_text(error) == failure.reason@,
        error matches WorkerError::Other(text) ==> error_text(error) == text@,
        error matches WorkerError::With(wrapped) ==> error_text(error) == error_text(
            wrapped.error,
        ),
{
}

/// What an error tells is what it was made with.
pub proof fn error_contents_are_its_fields(error: Error)
    ensures
        match error {
            Error::KvValueTooLarge { size, max } => error@ == (ErrorView::KvValueTooLarge {
                size: size as nat,
                max: max as nat,
            }),
            Error::InvalidQueueName { queue, reason } => error@ == (ErrorView::InvalidQueueName {
                queue: queue@,
                reason: reason@,
            }),
            Error::InvalidId { id, reason } => error@ == (ErrorView::InvalidId {
                id: id@,
                reason: reason@,
            }),
            Error::DuplicateJobId { id } => error@ == (ErrorView::DuplicateJobId { id: id@ }),
            Error::ConflictingKvEffect { key } => error@ == (ErrorView::ConflictingKvEffect {
                key: key@,
            }),
            Error::ClaimLost => error@ == ErrorView::ClaimLost,
            Error::CancelRequested => error@ == ErrorView::CancelRequested,
            Error::InvalidState => error@ == ErrorView::InvalidState,
            Error::JobNotFound(id) => error@ == (ErrorView::JobNotFound { id: id@ }),
            Error::PayloadMissing { id } => error@ == (ErrorView::PayloadMissing { id: id@ }),
            Error::StoreNotInitialized { path } => error@ == (ErrorView::StoreNotInitialized {
                path: path@,
            }),
        },
{
}

/// The contents of a list are those of its items, in order.
pub proof fn list_contents_are_its_items(
    results: Seq<EnqueueResult>,
    jobs: Seq<PreparedJob>,
    entries: Seq<(Vec<u8>, Vec<u8>)>,
    keys: Seq<Vec<u8>>,
    records: Seq<JobRecord>,
    names: Seq<String>,
    rows: Seq<ClaimRow>,
    ops: Seq<Op>,
    i: int,
)
    ensures
        result_views(results).len() == results.len(),
        0 <= i < results.len() ==> result_views(results)[i] == results[i]@,
        prepared_views(jobs).len() == jobs.len(),
        0 <= i < jobs.len() ==> prepared_views(jobs)[i] == jobs[i]@,
        kv_views(entries).len() == entries.len(),
        0 <= i < entries.len() ==> kv_views(entries)[i].0 == entries[i].0@ && kv_views(
            entries,
        )[i].1 == entries[i].1@,
        entry_views(entries) == kv_views(entries),
        key_views(keys).len() == keys.len(),
        0 <= i < keys.len() ==> key_views(keys)[i] == keys[i]@,
        operand_views(keys) == key_views(keys),
        record_views(records).len() == records.len(),
        0 <= i < records.len() ==> record_views(records)[i] == records[i]@,
        texts(names).len() == names.len(),
        0 <= i < names.len() ==> texts(names)[i] == names[i]@,
        row_views(rows).len() == rows.len(),
        0 <= i < rows.len() ==> row_views(rows)[i].0 == rows[i].key@ && row_views(rows)[i].1
            == rows[i].job@,
        op_views(ops).len() == ops.len(),
        0 <= i < ops.len() ==> op_views(ops)[i] == ops[i]@,
{
    assert(entry_views(entries) =~= kv_views(entries));
    assert(operand_views(keys) =~= key_views(keys));
}

/// What a transition reports is what it was made with.
pub proof fn report_contents_are_their_fields(
    settled: Settled,
    cancelled: Cancelled,
    woken: Woken,
    promoted: Promoted,
    reaped: Reaped,
    batch: BatchEnqueued,
    effects: PreparedEffects,
)
    ensures
        settled@.job == settled.job@,
        settled.pending_key matches Some(key) ==> settled@.pending_key == Some(key@),
        settled.pending_key is None ==> settled@.pending_key is None,
        settled.results matches Some(results) ==> settled@.results == Some(result_views(results@)),
        settled.results is None ==> settled@.results is None,
        cancelled@.outcome == cancelled.outcome,
        cancelled.job matches Some(job) ==> cancelled@.job == Some(job@),
        cancelled.job is None ==> cancelled@.job is None,
        cancelled@.results == result_views(cancelled.results@),
        woken@.outcome == woken.outcome,
        woken.moved matches Some((job, key)) ==> woken@.moved == Some((job@, key@)),
        woken.moved is None ==> woken@.moved is None,
        promoted.moved matches Some((job, key)) ==> promoted@.moved == Some((job@, key@)),
        promoted.moved is None ==> promoted@.moved is None,
        reaped is Superseded <==> reaped@ is Superseded,
        reaped is Orphaned <==> reaped@ is Orphaned,
        reaped matches Reaped::Ended(ended) ==> reaped@ == ReapedView::Ended(ended@),
        batch@.results == result_views(batch.results@),
        effects@.jobs == prepared_views(effects.jobs@),
        effects@.kv_writes == kv_views(effects.kv_writes@),
        effects@.kv_deletes == key_views(effects.kv_deletes@),
{
}

/// What a transition asks for, and what a scan, a lease or a sweep holds, is what it
/// was made with.
pub proof fn request_contents_are_their_fields(
    need: Need,
    bound: KeyBound,
    scan: ClaimScan,
    due: DueLease,
    victim: Victim,
)
    ensures
        match need {
            Need::Location { id } => need@ == (NeedView::Location { id: id@ }) && need@.key() == (
            StoreKey::Index { id: id@ }),
            Need::Record { key } => need@ == (NeedView::Record { key: key@ }) && need@.key()
                == StoreKey::Record(key@),
            Need::Dedup { queue, dedup_key } => need@ == (NeedView::Dedup {
                queue: queue@,
                dedup_key: dedup_key@,
            }) && need@.key() == (StoreKey::Dedup { queue: queue@, dedup_key: dedup_key@ }),
            Need::Kv { kv_key } => need@ == (NeedView::Kv { kv_key: kv_key@ }) && need@.key() == (
            StoreKey::User { key: kv_key@ }),
        },
        match bound {
            KeyBound::Unbounded => bound@ == KeyBoundView::Unbounded,
            KeyBound::Included(key) => bound@ == KeyBoundView::Included(key@),
            KeyBound::Excluded(key) => bound@ == KeyBoundView::Excluded(key@),
        },
        scan@.known_empty == scan.known_empty,
        scan@.epoch == scan.epoch,
        scan.scan_from matches Some(b) ==> scan@.scan_from == Some(
            ScanFromView { key: b.key@, inclusive: b.inclusive },
        ),
        scan.scan_from is None ==> scan@.scan_from is None,
        due@.queue == due.queue@,
        due@.id == due.id@,
        due@.token == due.token,
        due@.expires_at == due.expires_at,
        victim@.key == victim.key@,
        victim@.queue == victim.queue@,
        victim@.id == victim.id@,
        victim.payload_ref matches Some(name) ==> victim@.payload_ref == Some(name@),
        victim.payload_ref is None ==> victim@.payload_ref is None,
{
}

/// A persisted scan state stands for the bound it was made from.
pub proof fn persisted_bound_is_kept(cursor: PersistedCursor)
    ensures
        cursor.bound_key matches Some(key) ==> persisted_bound(cursor) == Some(
            ScanFromView { key: key@, inclusive: cursor.bound_inclusive },
        ),
        cursor.bound_key is None ==> persisted_bound(cursor) is None,
{
}

/// A sweep takes exactly the records that it reaches and whose retention ran out, each
/// with its place, its queue, its id and the name of its payload object. It goes on up
/// to the first key at or after its end.
pub proof fn sweep_takes_what_expired(
    sweep: SweepView,
    configs: QueueConfigs,
    key: Seq<u8>,
    row: Option<(RecordKeyView, JobView)>,
)
    ensures
        ({
            let (after, more) = sweep.visited(configs, key, row);
            let time = key_timestamp(key, KeyTag::Done);
            let reached = match sweep.end {
                None => true,
                Some(end) => time is Some && time.unwrap() < end,
            };
            let taken = reached && (row matches Some((_, job)) && expired(
                configs,
                sweep.status,
                job,
                sweep.now,
            ));
            &&& after.status == sweep.status
            &&& after.now == sweep.now
            &&& after.end == sweep.end
            &&& !taken ==> after.victims == sweep.victims
            &&& taken ==> {
                let (place, job) = row.unwrap();
                let victim = after.victims.last();
                &&& after.victims.len() == sweep.victims.len() + 1
                &&& after.victims.drop_last() == sweep.victims
                &&& victim.key == place
                &&& victim.queue == job.queue
                &&& victim.id == job.id
                &&& victim.payload_ref == job.payload_ref
            }
            &&& more <==> match sweep.end {
                None => true,
                Some(end) => time is None || time.unwrap() < end,
            }
        }),
{
    let (after, _) = sweep.visited(configs, key, row);
    if sweep.condemns(configs, key, row) {
        assert(after.victims.drop_last() =~= sweep.victims);
    }
}

/// A promotion pass takes the keys whose time has come and ends at the first that is
/// still to come, whose time it remembers. A key without a time is passed over.
pub proof fn promotion_pass_takes_what_is_due(pass: PromotionView, key: Seq<u8>)
    requires
        pass.scan.retention_ms == 0,
    ensures
        ({
            let (after, more) = pass.visited(key);
            let time = key_timestamp(key, KeyTag::Scheduled);
            &&& after.scan.now_ms == pass.scan.now_ms
            &&& after.scan.retention_ms == pass.scan.retention_ms
            &&& after.scan.from == pass.scan.from
            &&& time is None ==> after == pass && more
            &&& time matches Some(at) ==> if at <= pass.scan.now_ms {
                &&& more
                &&& after.due == pass.due.push(key)
                &&& after.scan.retained == pass.scan.retained
            } else {
                &&& !more
                &&& after.due == pass.due
                &&& after.scan.retained <= at
                &&& after.scan.retained <= pass.scan.retained
                &&& after.scan.retained == at || after.scan.retained == pass.scan.retained
            }
        }),
{
    if key.len() >= 9 {
        crate::bytes::from_big_endian_round_trip(key.subrange(1, 9));
        crate::bytes::pow256_values();
    }
}

/// A list of counter deltas of a queue adds each to the counter of its state.
pub proof fn counted_deltas_are_added(
    s: StoreView,
    queue: Seq<char>,
    deltas: Seq<(JobStatus, i64)>,
    status: JobStatus,
    delta: i64,
)
    ensures
        counted_all(s, queue, Seq::empty()) == s,
        ({
            let first = counted_all(s, queue, deltas);
            let all = counted_all(s, queue, deltas.push((status, delta)));
            &&& all.records == s.records
            &&& all.index == s.index
            &&& all.dedup == s.dedup
            &&& all.history == s.history
            &&& all.kv == s.kv
            &&& forall|q: Seq<char>, st: JobStatus| #[trigger]
                all.count(q, st) == first.count(q, st) + if q == queue && st == status {
                    delta as int
                } else {
                    0
                }
        }),
    decreases deltas.len(),
{
    assert(deltas.push((status, delta)).drop_last() =~= deltas);
    if deltas.len() > 0 {
        let (last_status, last_delta) = deltas.last();
        counted_deltas_are_added(s, queue, deltas.drop_last(), last_status, last_delta);
        assert(deltas.drop_last().push((last_status, last_delta)) =~= deltas);
    }
    let first = counted_all(s, queue, deltas);
    assert(counted_all(s, queue, deltas.push((status, delta))) == first.counted(
        queue,
        status,
        delta as int,
    ));
}

/// A listing reads exactly the keys of the jobs in the state: of the queue, or of all
/// queues where the keys lead with a time.
pub proof fn listing_reads_the_jobs_in_the_state(
    queue: Seq<char>,
    status: JobStatus,
    key: RecordKeyView,
)
    requires
        name_fits(queue),
        name_fits(key.queue()),
    ensures
        starts_with(key.encode(), listing_prefix(queue, status)) <==> {
            &&& key.status() == status
            &&& key.queue() == queue || status == JobStatus::Scheduled || status == JobStatus::Done
        },
{
    let k = StoreKey::Record(key);
    crate::keys::encoding_leads_with_tag(k);
    match status {
        JobStatus::Pending => queue_prefix_selects_the_queue(KeyTag::Pending, queue, k),
        JobStatus::Claimed => queue_prefix_selects_the_queue(KeyTag::Claimed, queue, k),
        JobStatus::Dead => queue_prefix_selects_the_queue(KeyTag::Dead, queue, k),
        JobStatus::Scheduled | JobStatus::Done => {
            let prefix = listing_prefix(queue, status);
            assert(key.encode().subrange(0, 1) =~= seq![key.encode()[0]]);
            assert(key.encode().subrange(0, 1)[0] == key.encode()[0]);
            assert(prefix[0] == if status == JobStatus::Scheduled {
                KeyTag::Scheduled.byte()
            } else {
                KeyTag::Done.byte()
            });
        },
    }
}

/// The counter of a queue's jobs in a state counts jobs of that queue and of no other.
pub proof fn counters_name_their_queue(queue: Seq<char>, status: JobStatus, other: Seq<char>)
    requires
        name_fits(queue),
    ensures
        counts_queue((StoreKey::Stats { queue, status }).encode(), queue),
        counts_queue((StoreKey::Stats { queue, status }).encode(), other) ==> other == queue,
{
    let key = (StoreKey::Stats { queue, status }).encode();
    let metric = metric_text(status);
    assert(key == seq![crate::keys::TAG_STATS] + (crate::keys::name_field(queue) + encode_utf8(
        metric,
    )));
    if counts_queue(key, other) {
        let named = choose|named: Seq<char>|
            key == seq![crate::keys::TAG_STATS] + #[trigger] (crate::keys::name_field(other)
                + encode_utf8(named));
        crate::keys::named_is_injective(crate::keys::TAG_STATS, queue, metric, other, named);
    }
}

/// How a claim ends is told by what it was ended with.
pub proof fn claim_end_contents_are_its_fields(end: ClaimEnd<'_>)
    ensures
        match end {
            ClaimEnd::Done { keep } => end@ == (ClaimEndView::Done { keep }),
            ClaimEnd::Dead { error } => end@ == (ClaimEndView::Dead { error: error@ }),
            ClaimEnd::Retry { run_at, outcome, error } => end@ == (ClaimEndView::Retry {
                run_at,
                outcome,
                error: match error {
                    Some(text) => Some(text@),
                    None => None,
                },
            }),
        },
        end@.terminal() <==> end is Done || end is Dead,
{
}

/// The effects of a settlement are those it was made with, and effects do nothing
/// exactly where they enqueue, write and delete nothing.
pub proof fn settlement_effects_are_its_own(settlement: Settlement, effects: SettlementEffects)
    ensures
        match settlement {
            Settlement::Ack(own) => settlement.effects() == own,
            Settlement::DeadLetter { effects: own, .. } => settlement.effects() == own,
            Settlement::Nack { effects: own, .. } => settlement.effects() == own,
        },
        no_effects(effects) <==> effects.enqueues@.len() + effects.kv_writes@.len()
            + effects.kv_deletes@.len() == 0,
{
}

/// An instant before the epoch counts as the epoch, and a later one as the span since.
pub proof fn instants_count_from_the_epoch(instant: UnixTime)
    ensures
        instant is BeforeEpoch ==> instant.millis() == 0,
        instant matches UnixTime::SinceEpoch(span) ==> instant.millis() == millis_of(span@),
{
}

/// The counters of a queue go by the names of the states.
pub proof fn counters_go_by_the_state()
    ensures
        metric_text(JobStatus::Pending) == "pending"@,
        metric_text(JobStatus::Claimed) == "claimed"@,
        metric_text(JobStatus::Done) == "done"@,
        metric_text(JobStatus::Dead) == "dead"@,
        metric_text(JobStatus::Scheduled) == "scheduled"@,
{
}

/// A queue name as a field of a key: one byte for its length, then its bytes.
pub open spec fn named(queue: Seq<char>) -> Seq<u8> {
    seq![encode_utf8(queue).len() as u8] + encode_utf8(queue)
}

/// The layout of the keys: the byte of the key space, then the fields in order, with
/// numbers most significant byte first, and last the id or the key, to the end.
pub proof fn keys_are_laid_out_in_order(key: StoreKey)
    ensures
        match key {
            StoreKey::Record(RecordKeyView::Pending { queue, priority, id }) => key.encode()
                == seq![3u8] + named(queue) + big_endian(priority as nat, 4) + encode_utf8(id),
            StoreKey::Record(RecordKeyView::Scheduled { run_at, queue, id }) => key.encode()
                == seq![4u8] + big_endian(run_at as nat, 8) + named(queue) + encode_utf8(id),
            StoreKey::Record(RecordKeyView::Claimed { queue, id }) => key.encode() == seq![5u8]
                + named(queue) + encode_utf8(id),
            StoreKey::Record(RecordKeyView::Done { completed_at, queue, id }) => key.encode()
                == seq![6u8] + big_endian(completed_at as nat, 8) + named(queue) + encode_utf8(id),
            StoreKey::Record(RecordKeyView::Dead { queue, id }) => key.encode() == seq![7u8]
                + named(queue) + encode_utf8(id),
            StoreKey::Stats { queue, status } => key.encode() == seq![1u8] + named(queue)
                + encode_utf8(metric_text(status)),
            StoreKey::History { id } => key.encode() == seq![2u8] + encode_utf8(id),
            StoreKey::Index { id } => key.encode() == seq![8u8] + encode_utf8(id),
            StoreKey::Dedup { queue, dedup_key } => key.encode() == seq![9u8] + named(queue)
                + encode_utf8(dedup_key),
            StoreKey::Cursor { queue } => key.encode() == seq![10u8] + named(queue),
            StoreKey::Heartbeat => key.encode() == seq![11u8],
            StoreKey::User { key: bytes } => key.encode() == seq![12u8] + bytes,
        },
{
    match key {
        StoreKey::Record(RecordKeyView::Pending { queue, priority, id }) => {
            assert(key.encode() =~= seq![3u8] + named(queue) + big_endian(priority as nat, 4)
                + encode_utf8(id));
        },
        StoreKey::Record(RecordKeyView::Scheduled { run_at, queue, id }) => {
            assert(key.encode() =~= seq![4u8] + big_endian(run_at as nat, 8) + named(queue)
                + encode_utf8(id));
        },
        StoreKey::Record(RecordKeyView::Claimed { queue, id }) => {
            assert(key.encode() =~= seq![5u8] + named(queue) + encode_utf8(id));
        },
        StoreKey::Record(RecordKeyView::Done { completed_at, queue, id }) => {
            assert(key.encode() =~= seq![6u8] + big_endian(completed_at as nat, 8) + named(queue)
                + encode_utf8(id));
        },
        StoreKey::Record(RecordKeyView::Dead { queue, id }) => {
            assert(key.encode() =~= seq![7u8] + named(queue) + encode_utf8(id));
        },
        StoreKey::Stats { queue, status } => {
            assert(key.encode() =~= seq![1u8] + named(queue) + encode_utf8(metric_text(status)));
        },
        StoreKey::Dedup { queue, dedup_key } => {
            assert(key.encode() =~= seq![9u8] + named(queue) + encode_utf8(dedup_key));
        },
        _ => {},
    }
}

/// A number in bytes has its least significant one last, and reads back.
pub proof fn numbers_end_in_their_lowest_byte(x: nat, n: nat)
    ensures
        big_endian(x, n).len() == n,
        n > 0 ==> big_endian(x, n).last() == x % 256 && big_endian(x, n).drop_last()
            == big_endian(x / 256, (n - 1) as nat),
{
    crate::bytes::big_endian_len(x, n);
    if n > 0 {
        assert(big_endian(x, n).drop_last() =~= big_endian(x / 256, (n - 1) as nat));
    }
}

} // verus!

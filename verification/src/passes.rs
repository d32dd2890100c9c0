//! What whole passes over the store leave behind: the promotion of due jobs, the
//! sweeps of done and dead jobs, the reaping of leases that ran out, and the
//! recovery of claims when the store is opened.

use crate::bytes::{before, before_is_irreflexive};
use crate::job::{AttemptOutcome, JobStatus, JobView};
use crate::keys::{
    done_keys_are_in_time_order, encoding_is_injective, key_timestamp_reads_the_time, name_fits,
    RecordKeyView, StoreKey,
};
use crate::laws::{
    claims_leased, fits_place, jobs_in, promotion_keeps_well_formed, reaping_keeps_well_formed,
    recovery_keeps_well_formed, sweep_keeps_well_formed, well_formed,
};
use crate::lease_registry::{all_due, named, DueView, LeaseRegistry, LeaseState};
use crate::options::QueueConfigs;
use crate::reaper::{
    expired, interrupted_end, latest_cutoff, reaped, sweep_end_misses_nothing, swept, sweeps,
    unsettled, unsettled_end, SweepView, VictimView,
};
use crate::scheduler::{promoted, promotion_end_misses_nothing, PromotionView};
use crate::store::StoreView;
use crate::time_bound::{bound_sound, earlier};
use crate::txn::{claimed_place, ClaimEndView};
use vstd::prelude::*;

verus! {

/// Whether places are in the order of their keys.
pub open spec fn in_key_order(keys: Seq<RecordKeyView>) -> bool {
    forall|i: int, j: int|
        0 <= i < j < keys.len() ==> before(
            (#[trigger] keys[i]).encode(),
            (#[trigger] keys[j]).encode(),
        )
}

/// The keys of a list of places.
pub open spec fn encoded(keys: Seq<RecordKeyView>) -> Seq<Seq<u8>> {
    Seq::new(keys.len(), |i: int| keys[i].encode())
}

proof fn key_order_of_rest(keys: Seq<RecordKeyView>)
    requires
        in_key_order(keys),
        keys.len() > 0,
    ensures
        in_key_order(keys.drop_first()),
        encoded(keys).drop_first() == encoded(keys.drop_first()),
{
    let rest = keys.drop_first();
    assert forall|i: int, j: int| 0 <= i < j < rest.len() implies before(
        (#[trigger] rest[i]).encode(),
        (#[trigger] rest[j]).encode(),
    ) by {
        assert(rest[i] == keys[i + 1]);
        assert(rest[j] == keys[j + 1]);
    }
    assert(encoded(keys).drop_first() =~= encoded(rest));
}

proof fn key_order_has_no_duplicates(keys: Seq<RecordKeyView>)
    requires
        in_key_order(keys),
    ensures
        keys.no_duplicates(),
{
    assert forall|i: int, j: int| 0 <= i < j < keys.len() implies keys[i] != keys[j] by {
        assert(before(keys[i].encode(), keys[j].encode()));
        before_is_irreflexive(keys[i].encode());
    }
}

/// Whether a job is scheduled at a place and due.
pub open spec fn due_at(key: RecordKeyView, now: u64) -> bool {
    key matches RecordKeyView::Scheduled { run_at, .. } && run_at <= now
}

/// The times of the scheduled jobs.
pub open spec fn scheduled_times(s: StoreView) -> Set<u64> {
    Set::new(
        |at: u64|
            exists|key: RecordKeyView| #[trigger]
                s.records.contains_key(key) && (key matches RecordKeyView::Scheduled { run_at, .. }
                    && run_at == at),
    )
}

/// Whether `keys` are the places of the jobs scheduled at `from` or later, in
/// key order.
pub open spec fn scheduled_from(s: StoreView, from: u64, keys: Seq<RecordKeyView>) -> bool {
    &&& in_key_order(keys)
    &&& forall|i: int|
        0 <= i < keys.len() ==> s.records.contains_key(#[trigger] keys[i]) && (keys[i] matches
            RecordKeyView::Scheduled { run_at, .. } && from <= run_at)
    &&& forall|key: RecordKeyView| #[trigger]
        s.records.contains_key(key) && (key matches RecordKeyView::Scheduled { run_at, .. } && from
            <= run_at) ==> keys.contains(key)
}

/// The store after jobs are promoted one after the other.
pub open spec fn promoted_all(s: StoreView, keys: Seq<RecordKeyView>) -> StoreView
    decreases keys.len(),
{
    if keys.len() == 0 {
        s
    } else {
        promoted(promoted_all(s, keys.drop_last()), keys.last())->Ok_0.0
    }
}

proof fn promotion_pass_step(pass: PromotionView, keys: Seq<RecordKeyView>)
    requires
        pass.scan.retention_ms == 0,
        keys.len() > 0,
        keys[0] is Scheduled,
    ensures
        due_at(keys[0], pass.scan.now_ms) ==> pass.over(encoded(keys)) == (PromotionView {
            due: pass.due.push(keys[0].encode()),
            ..pass
        }).over(encoded(keys.drop_first())),
        !due_at(keys[0], pass.scan.now_ms) ==> pass.over(encoded(keys)).due == pass.due
            && pass.over(encoded(keys)).scan.retained == earlier(
            pass.scan.retained,
            keys[0]->Scheduled_run_at,
        ),
{
    key_timestamp_reads_the_time(keys[0]);
    assert(encoded(keys)[0] == keys[0].encode());
    assert(encoded(keys).drop_first() =~= encoded(keys.drop_first()));
}

/// A pass over scheduled keys in order returns those that are due, which come
/// first, and retains the time of the first that is not.
proof fn promotion_pass_returns_the_due(pass: PromotionView, keys: Seq<RecordKeyView>) -> (n: int)
    requires
        pass.scan.retention_ms == 0,
        in_key_order(keys),
        forall|i: int| 0 <= i < keys.len() ==> #[trigger] keys[i] is Scheduled,
    ensures
        0 <= n <= keys.len(),
        forall|i: int|
            0 <= i < keys.len() ==> due_at(#[trigger] keys[i], pass.scan.now_ms) == (i < n),
        pass.over(encoded(keys)).due == pass.due + encoded(keys.subrange(0, n)),
        n == keys.len() ==> pass.over(encoded(keys)).scan == pass.scan,
        n < keys.len() ==> pass.over(encoded(keys)).scan.retained == earlier(
            pass.scan.retained,
            keys[n]->Scheduled_run_at,
        ),
    decreases keys.len(),
{
    if keys.len() == 0 {
        assert(encoded(keys.subrange(0, 0)) =~= Seq::empty());
        assert(pass.due + Seq::<Seq<u8>>::empty() =~= pass.due);
        0
    } else {
        let first = keys[0];
        let rest = keys.drop_first();
        key_order_of_rest(keys);
        promotion_pass_step(pass, keys);
        if due_at(first, pass.scan.now_ms) {
            let after = PromotionView { due: pass.due.push(first.encode()), ..pass };
            assert forall|i: int| 0 <= i < rest.len() implies #[trigger] rest[i] is Scheduled by {
                assert(rest[i] == keys[i + 1]);
            }
            let n = promotion_pass_returns_the_due(after, rest) + 1;
            assert forall|i: int| 0 <= i < keys.len() implies due_at(
                #[trigger] keys[i],
                pass.scan.now_ms,
            ) == (i < n) by {
                if i > 0 {
                    assert(rest[i - 1] == keys[i]);
                }
            }
            assert(after.due + encoded(rest.subrange(0, n - 1)) =~= pass.due + encoded(
                keys.subrange(0, n),
            ));
            n
        } else {
            assert forall|i: int| 0 <= i < keys.len() implies !due_at(
                #[trigger] keys[i],
                pass.scan.now_ms,
            ) by {
                if i > 0 {
                    assert(before(keys[0].encode(), keys[i].encode()));
                    promotion_end_misses_nothing(
                        first->Scheduled_run_at,
                        first.queue(),
                        first.id(),
                        keys[i]->Scheduled_run_at,
                        keys[i].queue(),
                        keys[i].id(),
                        pass.scan.now_ms,
                    );
                }
            }
            assert(encoded(keys.subrange(0, 0)) =~= Seq::empty());
            assert(pass.due + Seq::<Seq<u8>>::empty() =~= pass.due);
            0
        }
    }
}

/// Whether `after` is `s` with the jobs at `keys` pending and all else as it was.
spec fn promoted_exactly(s: StoreView, after: StoreView, keys: Seq<RecordKeyView>) -> bool {
    &&& well_formed(after)
    &&& after.index.dom() == s.index.dom()
    &&& after.dedup == s.dedup
    &&& after.history == s.history
    &&& after.kv == s.kv
    &&& forall|queue: Seq<char>| #[trigger]
        after.count(queue, JobStatus::Done) == s.count(queue, JobStatus::Done)
    &&& forall|id: Seq<char>| #[trigger]
        s.index.contains_key(id) ==> if keys.contains(s.index[id]) {
            let job = s.records[s.index[id]];
            &&& after.index[id] == (RecordKeyView::Pending {
                queue: job.queue,
                priority: job.priority,
                id,
            })
            &&& after.job(id) == Some(
                (JobView { status: JobStatus::Pending, run_at: None, ..job }).stored(),
            )
        } else {
            after.index[id] == s.index[id] && after.job(id) == s.job(id)
        }
}

#[verifier::spinoff_prover]
proof fn promotions_are_exact(s: StoreView, keys: Seq<RecordKeyView>)
    requires
        well_formed(s),
        keys.no_duplicates(),
        forall|i: int|
            0 <= i < keys.len() ==> s.records.contains_key(#[trigger] keys[i]) && keys[i]
                is Scheduled,
    ensures
        promoted_exactly(s, promoted_all(s, keys), keys),
    decreases keys.len(),
{
    if keys.len() > 0 {
        let fewer = keys.drop_last();
        let key = keys.last();
        let mid = promoted_all(s, fewer);
        let after = promoted_all(s, keys);
        assert forall|i: int| 0 <= i < fewer.len() implies s.records.contains_key(
            #[trigger] fewer[i],
        ) && fewer[i] is Scheduled by {
            assert(fewer[i] == keys[i]);
        }
        promotions_are_exact(s, fewer);
        assert(keys[keys.len() - 1] == key);
        assert(s.index[key.id()] == key);
        assert(!fewer.contains(key));
        assert(fits_place(key, s.records[key]));
        assert(mid.records.contains_key(mid.index[key.id()]));
        promotion_keeps_well_formed(mid, key);
        assert(after.index.dom() =~= mid.index.dom());
        assert forall|queue: Seq<char>| #[trigger] after.count(queue, JobStatus::Done) == s.count(
            queue,
            JobStatus::Done,
        ) by {
            assert(mid.count(queue, JobStatus::Done) == s.count(queue, JobStatus::Done));
        }
        assert forall|id: Seq<char>| #[trigger] s.index.contains_key(id) implies (
        if keys.contains(s.index[id]) {
            let job = s.records[s.index[id]];
            &&& after.index[id] == (RecordKeyView::Pending {
                queue: job.queue,
                priority: job.priority,
                id,
            })
            &&& after.job(id) == Some(
                (JobView { status: JobStatus::Pending, run_at: None, ..job }).stored(),
            )
        } else {
            after.index[id] == s.index[id] && after.job(id) == s.job(id)
        }) by {
            let place = s.index[id];
            assert(mid.index.contains_key(id));
            assert(s.records.contains_key(place));
            if keys.contains(place) {
                let i = choose|i: int| 0 <= i < keys.len() && keys[i] == place;
                if i < fewer.len() {
                    assert(fewer[i] == place);
                }
            }
            if fewer.contains(place) {
                let i = choose|i: int| 0 <= i < fewer.len() && fewer[i] == place;
                assert(keys[i] == place);
            }
        }
    }
}

/// What a pass from a bound that is right returns and retains: the places of all
/// due jobs, and a time that is not after that of any other scheduled job.
#[verifier::spinoff_prover]
proof fn promotion_pass_returns_all_due(
    s: StoreView,
    bound: u64,
    keys: Seq<RecordKeyView>,
    due: Seq<RecordKeyView>,
    now: u64,
)
    requires
        well_formed(s),
        bound_sound(bound, None, scheduled_times(s)),
        scheduled_from(s, bound, keys),
        encoded(due) == PromotionView::begun(bound, now).over(encoded(keys)).due,
        forall|i: int| 0 <= i < due.len() ==> name_fits((#[trigger] due[i]).queue()),
    ensures
        due.no_duplicates(),
        forall|i: int|
            0 <= i < due.len() ==> s.records.contains_key(#[trigger] due[i]) && due[i]
                is Scheduled,
        forall|key: RecordKeyView| #[trigger]
            s.records.contains_key(key) ==> due_at(key, now) == due.contains(key),
        forall|key: RecordKeyView| #[trigger]
            s.records.contains_key(key) && key is Scheduled && !due_at(key, now)
                ==> PromotionView::begun(bound, now).over(encoded(keys)).scan.retained
                <= key->Scheduled_run_at,
{
    let pass = PromotionView::begun(bound, now);
    let n = promotion_pass_returns_the_due(pass, keys);
    let end = pass.over(encoded(keys));
    assert(end.due =~= encoded(keys.subrange(0, n)));
    assert(encoded(due).len() == n);
    assert forall|i: int| 0 <= i < n implies due[i] == keys[i] by {
        assert(encoded(due)[i] == due[i].encode());
        assert(encoded(keys.subrange(0, n))[i] == keys[i].encode());
        assert(s.records.contains_key(keys[i]));
        assert(fits_place(keys[i], s.records[keys[i]]));
        encoding_is_injective(StoreKey::Record(due[i]), StoreKey::Record(keys[i]));
    }
    key_order_has_no_duplicates(keys);
    assert forall|key: RecordKeyView| #[trigger] s.records.contains_key(key) && key
        is Scheduled implies keys.contains(key) by {
        assert(scheduled_times(s).contains(key->Scheduled_run_at));
    }
    assert forall|key: RecordKeyView| #[trigger] s.records.contains_key(key) implies due_at(
        key,
        now,
    ) == due.contains(key) by {
        if due_at(key, now) {
            let i = choose|i: int| 0 <= i < keys.len() && keys[i] == key;
            assert(due[i] == key);
        }
        if due.contains(key) {
            let i = choose|i: int| 0 <= i < due.len() && due[i] == key;
            assert(due_at(keys[i], now));
        }
    }
    assert forall|key: RecordKeyView| #[trigger] s.records.contains_key(key) && key is Scheduled
        && !due_at(key, now) implies end.scan.retained <= key->Scheduled_run_at by {
        let i = choose|i: int| 0 <= i < keys.len() && keys[i] == key;
        assert(due_at(keys[i], now) == (i < n));
        if i > n {
            assert(before(keys[n].encode(), keys[i].encode()));
            assert(!due_at(keys[n], now));
            promotion_end_misses_nothing(
                keys[n]->Scheduled_run_at,
                keys[n].queue(),
                keys[n].id(),
                key->Scheduled_run_at,
                key.queue(),
                key.id(),
                now,
            );
        }
    }
}

/// A promotion pass moves every due job to pending and leaves all others where
/// they are. The pass begins at a bound that is right about the scheduled jobs,
/// visits their keys in order up to the one that ends it, and each key it
/// returns is promoted. No scheduled job is due afterwards, and the time the pass
/// retained is right about those that are left.
pub proof fn promotion_pass_leaves_nothing_due(
    s: StoreView,
    bound: u64,
    keys: Seq<RecordKeyView>,
    due: Seq<RecordKeyView>,
    now: u64,
)
    requires
        well_formed(s),
        bound_sound(bound, None, scheduled_times(s)),
        scheduled_from(s, bound, keys),
        encoded(due) == PromotionView::begun(bound, now).over(encoded(keys)).due,
        forall|i: int| 0 <= i < due.len() ==> name_fits((#[trigger] due[i]).queue()),
    ensures
        ({
            let after = promoted_all(s, due);
            let retained = PromotionView::begun(bound, now).over(encoded(keys)).scan.retained;
            &&& well_formed(after)
            &&& forall|key: RecordKeyView| #[trigger]
                after.records.contains_key(key) ==> !due_at(key, now)
            &&& after.index.dom() == s.index.dom()
            &&& forall|id: Seq<char>| #[trigger]
                s.index.contains_key(id) ==> if due_at(s.index[id], now) {
                    let job = s.records[s.index[id]];
                    &&& after.index[id] == (RecordKeyView::Pending {
                        queue: job.queue,
                        priority: job.priority,
                        id,
                    })
                    &&& after.job(id) == Some(
                        (JobView { status: JobStatus::Pending, run_at: None, ..job }).stored(),
                    )
                } else {
                    after.index[id] == s.index[id] && after.job(id) == s.job(id)
                }
            &&& forall|queue: Seq<char>| #[trigger]
                after.count(queue, JobStatus::Done) == s.count(queue, JobStatus::Done)
            &&& after.dedup == s.dedup
            &&& after.history == s.history
            &&& after.kv == s.kv
            &&& bound_sound(retained, None, scheduled_times(after))
        }),
{
    promotion_pass_returns_all_due(s, bound, keys, due, now);
    promotions_are_exact(s, due);
    let after = promoted_all(s, due);
    assert forall|id: Seq<char>| #[trigger] s.index.contains_key(id) implies due_at(
        s.index[id],
        now,
    ) == due.contains(s.index[id]) by {
        assert(s.records.contains_key(s.index[id]));
    }
    assert forall|key: RecordKeyView| #[trigger] after.records.contains_key(key) && key
        is Scheduled implies s.records.contains_key(key) && !due_at(key, now) by {
        assert(after.index.contains_key(key.id()));
        assert(s.index.contains_key(key.id()));
    }
    assert forall|at: u64| #[trigger] scheduled_times(after).contains(at) implies
        PromotionView::begun(bound, now).over(encoded(keys)).scan.retained <= at by {
        let key = choose|key: RecordKeyView| #[trigger]
            after.records.contains_key(key) && (key matches RecordKeyView::Scheduled { run_at, .. }
                && run_at == at);
        assert(s.records.contains_key(key));
    }
}

/// Whether `keys` are the places of the jobs in a state, in key order.
pub open spec fn all_in_state(s: StoreView, status: JobStatus, keys: Seq<RecordKeyView>) -> bool {
    &&& in_key_order(keys)
    &&& forall|i: int|
        0 <= i < keys.len() ==> s.records.contains_key(#[trigger] keys[i]) && keys[i].status()
            == status
    &&& forall|key: RecordKeyView| #[trigger]
        s.records.contains_key(key) && key.status() == status ==> keys.contains(key)
}

/// The rows of a sweep: keys with the places and records that they decode to.
pub open spec fn sweep_rows(s: StoreView, keys: Seq<RecordKeyView>) -> Seq<
    (Seq<u8>, Option<(RecordKeyView, JobView)>),
> {
    Seq::new(keys.len(), |i: int| (keys[i].encode(), Some((keys[i], s.records[keys[i]]))))
}

/// The store after the jobs that a sweep found are removed one after the other.
pub open spec fn swept_all(s: StoreView, victims: Seq<VictimView>) -> StoreView
    decreases victims.len(),
{
    if victims.len() == 0 {
        s
    } else {
        let last = victims.last();
        swept(swept_all(s, victims.drop_last()), last.key, last.queue, last.id)->Ok_0.0
    }
}

/// Whether the jobs from the `from`-th on that a sweep found are the expired ones
/// at `keys`, each once.
spec fn finds_expired(
    s: StoreView,
    configs: QueueConfigs,
    sweep: SweepView,
    from: nat,
    keys: Seq<RecordKeyView>,
) -> bool {
    &&& from <= sweep.victims.len()
    &&& forall|v: int|
        from <= v < sweep.victims.len() ==> {
            let victim = #[trigger] sweep.victims[v];
            &&& keys.contains(victim.key)
            &&& expired(configs, sweep.status, s.records[victim.key], sweep.now)
            &&& victim.queue == victim.key.queue()
            &&& victim.id == victim.key.id()
        }
    &&& forall|v: int, w: int|
        from <= v < w < sweep.victims.len() ==> (#[trigger] sweep.victims[v]).key != (
        #[trigger] sweep.victims[w]).key
    &&& forall|i: int|
        0 <= i < keys.len() && expired(
            configs,
            sweep.status,
            s.records[#[trigger] keys[i]],
            sweep.now,
        ) ==> exists|v: int|
            from <= v < sweep.victims.len() && (#[trigger] sweep.victims[v]).key == keys[i]
}

#[verifier::spinoff_prover]
proof fn sweep_finds_the_expired(
    s: StoreView,
    configs: QueueConfigs,
    sweep: SweepView,
    keys: Seq<RecordKeyView>,
)
    requires
        well_formed(s),
        in_key_order(keys),
        forall|i: int|
            0 <= i < keys.len() ==> s.records.contains_key(#[trigger] keys[i]) && keys[i].status()
                == sweep.status,
        match sweep.status {
            JobStatus::Done => sweep.end matches Some(end) && latest_cutoff(
                configs,
                sweep.status,
                sweep.now,
                end,
            ),
            _ => sweep.end is None,
        },
    ensures
        ({
            let end = sweep.over(configs, sweep_rows(s, keys));
            &&& end.status == sweep.status
            &&& end.now == sweep.now
            &&& sweep.victims == end.victims.subrange(0, sweep.victims.len() as int)
            &&& finds_expired(s, configs, end, sweep.victims.len(), keys)
        }),
    decreases keys.len(),
{
    let rows = sweep_rows(s, keys);
    let from = sweep.victims.len();
    let end = sweep.over(configs, rows);
    if keys.len() == 0 {
        assert(sweep.victims.subrange(0, from as int) =~= sweep.victims);
    } else {
        let first = keys[0];
        let rest = keys.drop_first();
        key_order_of_rest(keys);
        key_order_has_no_duplicates(keys);
        key_timestamp_reads_the_time(first);
        assert(fits_place(first, s.records[first]));
        assert(rows[0] == (first.encode(), Some((first, s.records[first]))));
        assert(rows.drop_first() =~= sweep_rows(s, rest));
        let (after, more) = sweep.visited(configs, rows[0].0, rows[0].1);
        if more {
            assert forall|i: int| 0 <= i < rest.len() implies s.records.contains_key(
                #[trigger] rest[i],
            ) && rest[i].status() == after.status by {
                assert(rest[i] == keys[i + 1]);
            }
            sweep_finds_the_expired(s, configs, after, rest);
            let condemned = expired(configs, sweep.status, s.records[first], sweep.now);
            assert(sweep.condemns(configs, rows[0].0, rows[0].1) == condemned);
            assert(sweep.victims =~= end.victims.subrange(0, from as int)) by {
                assert(after.victims.subrange(0, from as int) =~= sweep.victims);
                assert(end.victims.subrange(0, from as int) =~= after.victims.subrange(
                    0,
                    from as int,
                ));
            }
            if condemned {
                assert(after.victims[from as int] == end.victims[from as int]);
                assert(end.victims[from as int].key == first);
            }
            assert forall|v: int| from <= v < end.victims.len() implies {
                let victim = #[trigger] end.victims[v];
                &&& keys.contains(victim.key)
                &&& expired(configs, end.status, s.records[victim.key], end.now)
                &&& victim.queue == victim.key.queue()
                &&& victim.id == victim.key.id()
            } by {
                if condemned && v == from {
                    assert(keys[0] == first);
                } else {
                    assert(rest.contains(end.victims[v].key));
                    let i = choose|i: int| 0 <= i < rest.len() && rest[i] == end.victims[v].key;
                    assert(keys[i + 1] == end.victims[v].key);
                }
            }
            assert forall|v: int, w: int| from <= v < w < end.victims.len() implies (
            #[trigger] end.victims[v]).key != (#[trigger] end.victims[w]).key by {
                if condemned && v == from {
                    assert(rest.contains(end.victims[w].key));
                    let i = choose|i: int| 0 <= i < rest.len() && rest[i] == end.victims[w].key;
                    assert(keys[i + 1] == end.victims[w].key);
                }
            }
            assert forall|i: int|
                0 <= i < keys.len() && expired(
                    configs,
                    end.status,
                    s.records[#[trigger] keys[i]],
                    end.now,
                ) implies exists|v: int|
                from <= v < end.victims.len() && (#[trigger] end.victims[v]).key == keys[i] by {
                if i > 0 {
                    assert(rest[i - 1] == keys[i]);
                }
            }
        } else {
            assert(sweep.victims.subrange(0, from as int) =~= sweep.victims);
            let latest = sweep.end.unwrap();
            assert forall|i: int| 0 <= i < keys.len() implies !expired(
                configs,
                sweep.status,
                s.records[#[trigger] keys[i]],
                sweep.now,
            ) by {
                let key = keys[i];
                assert(fits_place(key, s.records[key]));
                if i > 0 && first->Done_completed_at != key->Done_completed_at {
                    assert(before(keys[0].encode(), keys[i].encode()));
                    done_keys_are_in_time_order(
                        first->Done_completed_at,
                        first.queue(),
                        first.id(),
                        key->Done_completed_at,
                        key.queue(),
                        key.id(),
                    );
                }
                sweep_end_misses_nothing(configs, sweep.now, latest, key, s.records[key]);
            }
        }
    }
}

/// Whether `after` is `s` without the jobs that a sweep found.
spec fn swept_exactly(s: StoreView, after: StoreView, victims: Seq<VictimView>) -> bool {
    &&& well_formed(after)
    &&& after.dedup == s.dedup
    &&& after.kv == s.kv
    &&& forall|queue: Seq<char>| #[trigger]
        after.count(queue, JobStatus::Done) == s.count(queue, JobStatus::Done)
    &&& forall|key: RecordKeyView| #[trigger]
        after.records.contains_key(key) ==> s.records.contains_key(key) && after.records[key]
            == s.records[key] && after.attempts(key.id()) == s.attempts(key.id())
    &&& forall|key: RecordKeyView| #[trigger]
        s.records.contains_key(key) ==> after.records.contains_key(key) == !exists|v: int|
            0 <= v < victims.len() && (#[trigger] victims[v]).key == key
}

proof fn sweeps_are_exact(s: StoreView, victims: Seq<VictimView>)
    requires
        well_formed(s),
        forall|v: int|
            0 <= v < victims.len() ==> {
                let victim = #[trigger] victims[v];
                &&& s.records.contains_key(victim.key)
                &&& victim.key is Done || victim.key is Dead
                &&& victim.queue == victim.key.queue()
                &&& victim.id == victim.key.id()
            },
    ensures
        swept_exactly(s, swept_all(s, victims), victims),
    decreases victims.len(),
{
    if victims.len() > 0 {
        let fewer = victims.drop_last();
        let last = victims.last();
        let mid = swept_all(s, fewer);
        let after = swept_all(s, victims);
        assert forall|v: int| 0 <= v < fewer.len() implies {
            let victim = #[trigger] fewer[v];
            &&& s.records.contains_key(victim.key)
            &&& victim.key is Done || victim.key is Dead
            &&& victim.queue == victim.key.queue()
            &&& victim.id == victim.key.id()
        } by {
            assert(fewer[v] == victims[v]);
        }
        sweeps_are_exact(s, fewer);
        assert(victims[victims.len() - 1] == last);
        sweep_keeps_well_formed(mid, last.key);
        assert forall|queue: Seq<char>| #[trigger] after.count(queue, JobStatus::Done) == s.count(
            queue,
            JobStatus::Done,
        ) by {
            assert(mid.count(queue, JobStatus::Done) == s.count(queue, JobStatus::Done));
        }
        assert forall|key: RecordKeyView| #[trigger] after.records.contains_key(
            key,
        ) implies s.records.contains_key(key) && after.records[key] == s.records[key]
            && after.attempts(key.id()) == s.attempts(key.id()) by {
            assert(mid.records.contains_key(key));
            if mid.records.contains_key(last.key) {
                assert(mid.index[last.key.id()] == last.key);
                assert(mid.index[key.id()] == key);
            }
        }
        assert forall|key: RecordKeyView| #[trigger] s.records.contains_key(
            key,
        ) implies after.records.contains_key(key) == !exists|v: int|
            0 <= v < victims.len() && (#[trigger] victims[v]).key == key by {
            if exists|v: int| 0 <= v < victims.len() && (#[trigger] victims[v]).key == key {
                let v = choose|v: int| 0 <= v < victims.len() && (#[trigger] victims[v]).key == key;
                if v < fewer.len() {
                    assert(fewer[v].key == key);
                    assert(!mid.records.contains_key(key));
                }
            } else {
                if exists|v: int| 0 <= v < fewer.len() && (#[trigger] fewer[v]).key == key {
                    let v = choose|v: int| 0 <= v < fewer.len() && (#[trigger] fewer[v]).key == key;
                    assert(victims[v].key == key);
                }
                assert(mid.records.contains_key(key));
            }
        }
    }
}

/// A sweep removes every job in its state whose retention has run out, and no
/// other job. The sweep visits the keys of the state in order up to the one that
/// ends it, and each job it found is removed.
pub proof fn sweep_leaves_nothing_expired(
    s: StoreView,
    configs: QueueConfigs,
    status: JobStatus,
    now: u64,
    sweep: SweepView,
    keys: Seq<RecordKeyView>,
)
    requires
        well_formed(s),
        status == JobStatus::Done || status == JobStatus::Dead,
        sweep.begun(configs, status, now),
        all_in_state(s, status, keys),
    ensures
        ({
            let after = swept_all(s, sweep.over(configs, sweep_rows(s, keys)).victims);
            &&& well_formed(after)
            &&& forall|key: RecordKeyView| #[trigger]
                after.records.contains_key(key) ==> s.records.contains_key(key)
                    && after.records[key] == s.records[key] && after.attempts(key.id())
                    == s.attempts(key.id())
            &&& forall|key: RecordKeyView| #[trigger]
                s.records.contains_key(key) ==> after.records.contains_key(key) == !(key.status()
                    == status && expired(configs, status, s.records[key], now))
            &&& forall|queue: Seq<char>| #[trigger]
                after.count(queue, JobStatus::Done) == s.count(queue, JobStatus::Done)
            &&& after.dedup == s.dedup
            &&& after.kv == s.kv
        }),
{
    sweep_finds_the_expired(s, configs, sweep, keys);
    let end = sweep.over(configs, sweep_rows(s, keys));
    let victims = end.victims;
    assert forall|v: int| 0 <= v < victims.len() implies {
        let victim = #[trigger] victims[v];
        &&& s.records.contains_key(victim.key)
        &&& victim.key.status() == status
        &&& victim.queue == victim.key.queue()
        &&& victim.id == victim.key.id()
    } by {
        assert(keys.contains(victims[v].key));
    }
    sweeps_are_exact(s, victims);
    assert forall|key: RecordKeyView| #[trigger] s.records.contains_key(key) implies (exists|v: int|
        0 <= v < victims.len() && (#[trigger] victims[v]).key == key) == (key.status() == status
        && expired(configs, status, s.records[key], now)) by {
        if key.status() == status && expired(configs, status, s.records[key], now) {
            assert(keys.contains(key));
            let i = choose|i: int| 0 <= i < keys.len() && keys[i] == key;
            assert(expired(configs, end.status, s.records[keys[i]], end.now));
        }
    }
}

/// Where no queue has a retention for a state, no job in it is expired.
pub proof fn nothing_expires_without_a_retention(
    configs: QueueConfigs,
    status: JobStatus,
    job: JobView,
    now: u64,
)
    requires
        !sweeps(configs, status),
    ensures
        !expired(configs, status, job, now),
{
    if configs.overrides().contains_key(job.queue) {
        assert(configs.config(job.queue) == configs.overrides()[job.queue]);
    }
}

/// Whether `keys` are the places of the claimed jobs, each once.
pub open spec fn all_claimed(s: StoreView, keys: Seq<RecordKeyView>) -> bool {
    &&& keys.no_duplicates()
    &&& forall|i: int|
        0 <= i < keys.len() ==> s.records.contains_key(#[trigger] keys[i]) && keys[i] is Claimed
    &&& forall|key: RecordKeyView| #[trigger]
        s.records.contains_key(key) && key is Claimed ==> keys.contains(key)
}

/// The records at a list of places.
pub open spec fn records_at(s: StoreView, keys: Seq<RecordKeyView>) -> Seq<JobView> {
    Seq::new(keys.len(), |i: int| s.records[keys[i]])
}

/// The store after the claims on jobs are ended one after the other.
pub open spec fn recovered_all(s: StoreView, jobs: Seq<JobView>, now: u64) -> StoreView
    decreases jobs.len(),
{
    if jobs.len() == 0 {
        s
    } else {
        let job = jobs.last();
        unsettled(recovered_all(s, jobs.drop_last(), now), job, interrupted_end(job), now).0
    }
}

/// How many of the jobs are of a queue and left in a state by the end of their
/// claims.
pub open spec fn ended_in(jobs: Seq<JobView>, queue: Seq<char>, status: JobStatus) -> int
    decreases jobs.len(),
{
    if jobs.len() == 0 {
        0
    } else {
        let job = jobs.last();
        ended_in(jobs.drop_last(), queue, status) + if job.queue == queue && interrupted_end(
            job,
        ).status() == status {
            1int
        } else {
            0
        }
    }
}

/// Whether `after` is `s` with the claims at `keys` ended and all else as it was.
spec fn recovered_exactly(
    s: StoreView,
    after: StoreView,
    keys: Seq<RecordKeyView>,
    now: u64,
) -> bool {
    &&& well_formed(after)
    &&& after.index.dom() == s.index.dom()
    &&& after.dedup == s.dedup
    &&& after.kv == s.kv
    &&& forall|queue: Seq<char>, status: JobStatus|
        status != JobStatus::Claimed ==> #[trigger] after.count(queue, status) == s.count(
            queue,
            status,
        ) + ended_in(records_at(s, keys), queue, status)
    &&& forall|id: Seq<char>| #[trigger]
        s.index.contains_key(id) ==> if keys.contains(s.index[id]) {
            let job = s.records[s.index[id]];
            let end = interrupted_end(job);
            &&& after.index[id] == end.place(job, now)
            &&& after.job(id) == Some(end.ended(job, now).stored())
            &&& after.attempts(id) == s.attempts(id).push(end.attempt(job, now))
        } else {
            &&& after.index[id] == s.index[id]
            &&& after.job(id) == s.job(id)
            &&& after.attempts(id) == s.attempts(id)
        }
}

#[verifier::spinoff_prover]
proof fn recoveries_are_exact(s: StoreView, keys: Seq<RecordKeyView>, now: u64)
    requires
        well_formed(s),
        keys.no_duplicates(),
        forall|i: int|
            0 <= i < keys.len() ==> s.records.contains_key(#[trigger] keys[i]) && keys[i]
                is Claimed,
    ensures
        recovered_exactly(s, recovered_all(s, records_at(s, keys), now), keys, now),
    decreases keys.len(),
{
    let jobs = records_at(s, keys);
    if keys.len() > 0 {
        let fewer = keys.drop_last();
        let key = keys.last();
        let job = s.records[key];
        let end = interrupted_end(job);
        assert(jobs.drop_last() =~= records_at(s, fewer));
        assert(jobs.last() == job);
        let mid = recovered_all(s, records_at(s, fewer), now);
        let after = recovered_all(s, jobs, now);
        assert forall|i: int| 0 <= i < fewer.len() implies s.records.contains_key(
            #[trigger] fewer[i],
        ) && fewer[i] is Claimed by {
            assert(fewer[i] == keys[i]);
        }
        recoveries_are_exact(s, fewer, now);
        assert(keys[keys.len() - 1] == key);
        assert(s.index[key.id()] == key);
        assert(!fewer.contains(key));
        assert(fits_place(key, job));
        assert(key == claimed_place(job.queue, job.id));
        assert(mid.records.contains_key(mid.index[key.id()]));
        assert(mid.records[key] == job);
        recovery_keeps_well_formed(mid, job.queue, job.id, end, now);
        assert(after.index.dom() =~= mid.index.dom());
        assert forall|queue: Seq<char>, status: JobStatus|
            status != JobStatus::Claimed implies #[trigger] after.count(queue, status) == s.count(
            queue,
            status,
        ) + ended_in(jobs, queue, status) by {
            assert(mid.count(queue, status) == s.count(queue, status) + ended_in(
                records_at(s, fewer),
                queue,
                status,
            ));
        }
        assert forall|id: Seq<char>| #[trigger] s.index.contains_key(id) implies (
        if keys.contains(s.index[id]) {
            let job = s.records[s.index[id]];
            let end = interrupted_end(job);
            &&& after.index[id] == end.place(job, now)
            &&& after.job(id) == Some(end.ended(job, now).stored())
            &&& after.attempts(id) == s.attempts(id).push(end.attempt(job, now))
        } else {
            &&& after.index[id] == s.index[id]
            &&& after.job(id) == s.job(id)
            &&& after.attempts(id) == s.attempts(id)
        }) by {
            let place = s.index[id];
            assert(mid.index.contains_key(id));
            assert(s.records.contains_key(place));
            if keys.contains(place) {
                let i = choose|i: int| 0 <= i < keys.len() && keys[i] == place;
                if i < fewer.len() {
                    assert(fewer[i] == place);
                }
            }
            if fewer.contains(place) {
                let i = choose|i: int| 0 <= i < fewer.len() && fewer[i] == place;
                assert(keys[i] == place);
            }
        }
    }
}

/// Ending every claim found when the store is opened leaves no job claimed. Each
/// claimed job is pending again, or dead where its attempts are exhausted, with
/// the attempt in its history; every other job is as it was, and the counters
/// follow.
pub proof fn recovery_leaves_nothing_claimed(s: StoreView, keys: Seq<RecordKeyView>, now: u64)
    requires
        well_formed(s),
        all_claimed(s, keys),
    ensures
        ({
            let after = recovered_all(s, records_at(s, keys), now);
            &&& well_formed(after)
            &&& forall|key: RecordKeyView| #[trigger]
                after.records.contains_key(key) ==> !(key is Claimed)
            &&& after.index.dom() == s.index.dom()
            &&& forall|id: Seq<char>| #[trigger]
                s.index.contains_key(id) ==> if s.index[id] is Claimed {
                    let job = s.records[s.index[id]];
                    let end = interrupted_end(job);
                    &&& after.index[id] == end.place(job, now)
                    &&& after.job(id) == Some(end.ended(job, now).stored())
                    &&& after.attempts(id) == s.attempts(id).push(end.attempt(job, now))
                } else {
                    &&& after.index[id] == s.index[id]
                    &&& after.job(id) == s.job(id)
                    &&& after.attempts(id) == s.attempts(id)
                }
            &&& forall|queue: Seq<char>, status: JobStatus| #[trigger]
                after.count(queue, status) == if status == JobStatus::Claimed {
                    0
                } else {
                    s.count(queue, status) + ended_in(records_at(s, keys), queue, status)
                }
            &&& after.dedup == s.dedup
            &&& after.kv == s.kv
        }),
{
    recoveries_are_exact(s, keys, now);
    let after = recovered_all(s, records_at(s, keys), now);
    assert forall|id: Seq<char>| #[trigger] s.index.contains_key(id) implies keys.contains(
        s.index[id],
    ) == (s.index[id] is Claimed) by {
        assert(s.records.contains_key(s.index[id]));
    }
    assert forall|key: RecordKeyView| #[trigger] after.records.contains_key(key) implies !(key
        is Claimed) by {
        assert(after.index.contains_key(key.id()));
        assert(s.index.contains_key(key.id()));
    }
    assert forall|queue: Seq<char>| #[trigger] after.count(queue, JobStatus::Claimed) == 0 by {
        assert(jobs_in(after, queue, JobStatus::Claimed) =~= Set::empty());
    }
}

/// How a claim whose lease ran out ends.
pub open spec fn lapsed_end(job: JobView) -> ClaimEndView {
    unsettled_end(job, AttemptOutcome::LeaseExpired, "lease expired"@)
}

/// The store and the leases after leases are reaped one after the other, each
/// dropped with its claim.
pub open spec fn reaped_all(
    s: StoreView,
    leases: Map<(Seq<char>, Seq<char>), LeaseState>,
    due: Seq<DueView>,
    now: u64,
) -> (StoreView, Map<(Seq<char>, Seq<char>), LeaseState>)
    decreases due.len(),
{
    if due.len() == 0 {
        (s, leases)
    } else {
        let (mid, held) = reaped_all(s, leases, due.drop_last(), now);
        let lease = due.last();
        let key = (lease.queue, lease.id);
        (
            reaped(mid, held, lease.queue, lease.id, lease.token, now)->Ok_0.0,
            if held.contains_key(key) && held[key].token == lease.token {
                held.remove(key)
            } else {
                held
            },
        )
    }
}

/// Whether `after` and `held` are `s` and `leases` with the claims of `due` ended
/// and all else as it was.
spec fn reaped_exactly(
    s: StoreView,
    leases: Map<(Seq<char>, Seq<char>), LeaseState>,
    after: StoreView,
    held: Map<(Seq<char>, Seq<char>), LeaseState>,
    due: Seq<DueView>,
    now: u64,
) -> bool {
    &&& well_formed(after)
    &&& after.index.dom() == s.index.dom()
    &&& after.dedup == s.dedup
    &&& after.kv == s.kv
    &&& forall|queue: Seq<char>| #[trigger]
        after.count(queue, JobStatus::Done) == s.count(queue, JobStatus::Done)
    &&& forall|key: (Seq<char>, Seq<char>)| #[trigger]
        held.contains_key(key) <==> leases.contains_key(key) && !named(due, key)
    &&& forall|key: (Seq<char>, Seq<char>)| #[trigger]
        held.contains_key(key) ==> held[key] == leases[key]
    &&& forall|id: Seq<char>| #[trigger]
        s.index.contains_key(id) ==> if s.index[id] is Claimed && named(
            due,
            (s.index[id].queue(), id),
        ) {
            let job = s.records[s.index[id]];
            let end = lapsed_end(job);
            &&& after.index[id] == end.place(job, now)
            &&& after.job(id) == Some(end.ended(job, now).stored())
            &&& after.attempts(id) == s.attempts(id).push(end.attempt(job, now))
        } else {
            &&& after.index[id] == s.index[id]
            &&& after.job(id) == s.job(id)
            &&& after.attempts(id) == s.attempts(id)
        }
}

proof fn named_with_one_more(due: Seq<DueView>, key: (Seq<char>, Seq<char>))
    requires
        due.len() > 0,
    ensures
        named(due, key) <==> named(due.drop_last(), key) || (due.last().queue, due.last().id)
            == key,
{
    let fewer = due.drop_last();
    if named(due, key) {
        let i = choose|i: int| 0 <= i < due.len() && ((#[trigger] due[i]).queue, due[i].id) == key;
        if i < fewer.len() {
            assert((fewer[i].queue, fewer[i].id) == key);
        }
    }
    if named(fewer, key) {
        let i = choose|i: int|
            0 <= i < fewer.len() && ((#[trigger] fewer[i]).queue, fewer[i].id) == key;
        assert((due[i].queue, due[i].id) == key);
    }
    assert(due[due.len() - 1] == due.last());
}

#[verifier::spinoff_prover]
proof fn reapings_are_exact(
    s: StoreView,
    leases: Map<(Seq<char>, Seq<char>), LeaseState>,
    due: Seq<DueView>,
    now: u64,
)
    requires
        well_formed(s),
        forall|i: int|
            0 <= i < due.len() ==> leases.contains_key(
                ((#[trigger] due[i]).queue, due[i].id),
            ) && leases[(due[i].queue, due[i].id)].token == due[i].token,
        forall|i: int, j: int|
            0 <= i < j < due.len() ==> (#[trigger] due[i]).queue != (#[trigger] due[j]).queue
                || due[i].id != due[j].id,
    ensures
        ({
            let (after, held) = reaped_all(s, leases, due, now);
            reaped_exactly(s, leases, after, held, due, now)
        }),
    decreases due.len(),
{
    if due.len() > 0 {
        let fewer = due.drop_last();
        let lease = due.last();
        let key = (lease.queue, lease.id);
        let place = claimed_place(lease.queue, lease.id);
        let (mid, held) = reaped_all(s, leases, fewer, now);
        let (after, left) = reaped_all(s, leases, due, now);
        assert forall|i: int| 0 <= i < fewer.len() implies leases.contains_key(
            ((#[trigger] fewer[i]).queue, fewer[i].id),
        ) && leases[(fewer[i].queue, fewer[i].id)].token == fewer[i].token by {
            assert(fewer[i] == due[i]);
        }
        assert forall|i: int, j: int| 0 <= i < j < fewer.len() implies (#[trigger] fewer[i]).queue
            != (#[trigger] fewer[j]).queue || fewer[i].id != fewer[j].id by {
            assert(fewer[i] == due[i]);
            assert(fewer[j] == due[j]);
        }
        reapings_are_exact(s, leases, fewer, now);
        assert(due[due.len() - 1] == lease);
        assert(!named(fewer, key)) by {
            if named(fewer, key) {
                let i = choose|i: int|
                    0 <= i < fewer.len() && ((#[trigger] fewer[i]).queue, fewer[i].id) == key;
                assert(due[i] == fewer[i]);
            }
        }
        assert(held.contains_key(key));
        reaping_keeps_well_formed(mid, held, lease.queue, lease.id, lease.token, now);
        assert forall|k: (Seq<char>, Seq<char>)| #[trigger] left.contains_key(k)
            <==> leases.contains_key(k) && !named(due, k) by {
            named_with_one_more(due, k);
            assert(held.contains_key(k) <==> leases.contains_key(k) && !named(fewer, k));
        }
        assert forall|k: (Seq<char>, Seq<char>)| #[trigger] left.contains_key(k) implies left[k]
            == leases[k] by {
            assert(held.contains_key(k));
        }
        if mid.records.contains_key(place) {
            assert(mid.index[lease.id] == place);
            assert(fits_place(place, mid.records[place]));
            assert(s.index.contains_key(lease.id));
        }
        assert(after.index.dom() =~= mid.index.dom());
        assert forall|queue: Seq<char>| #[trigger] after.count(queue, JobStatus::Done) == s.count(
            queue,
            JobStatus::Done,
        ) by {
            assert(mid.count(queue, JobStatus::Done) == s.count(queue, JobStatus::Done));
        }
        assert forall|id: Seq<char>| #[trigger] s.index.contains_key(id) implies (
        if s.index[id] is Claimed && named(due, (s.index[id].queue(), id)) {
            let job = s.records[s.index[id]];
            let end = lapsed_end(job);
            &&& after.index[id] == end.place(job, now)
            &&& after.job(id) == Some(end.ended(job, now).stored())
            &&& after.attempts(id) == s.attempts(id).push(end.attempt(job, now))
        } else {
            &&& after.index[id] == s.index[id]
            &&& after.job(id) == s.job(id)
            &&& after.attempts(id) == s.attempts(id)
        }) by {
            named_with_one_more(due, (s.index[id].queue(), id));
            assert(s.records.contains_key(s.index[id]));
            assert(mid.index.contains_key(id));
            assert(mid.records.contains_key(mid.index[id]));
        }
    }
}

/// Reaping every lease that ran out ends each claim that a lease of them held: the
/// job is pending again, or dead where its attempts are exhausted, with the
/// attempt in its history. Every other job and lease is as it was, and no claimed
/// job is left without a lease that still runs. The leases are marked when they
/// are listed.
pub proof fn reaping_leaves_no_lapsed_claim(
    s: StoreView,
    leases: Map<(Seq<char>, Seq<char>), LeaseState>,
    due: Seq<DueView>,
    now: u64,
)
    requires
        well_formed(s),
        claims_leased(s, leases),
        all_due(leases, due, now),
    ensures
        ({
            let (after, held) = reaped_all(s, LeaseRegistry::marked(leases, now), due, now);
            &&& well_formed(after)
            &&& claims_leased(after, held)
            &&& forall|key: (Seq<char>, Seq<char>)| #[trigger]
                held.contains_key(key) <==> leases.contains_key(key) && leases[key].expires_at > now
            &&& forall|key: (Seq<char>, Seq<char>)| #[trigger]
                held.contains_key(key) ==> held[key] == leases[key]
            &&& after.index.dom() == s.index.dom()
            &&& forall|id: Seq<char>| #[trigger]
                s.index.contains_key(id) ==> if s.index[id] is Claimed && leases[(
                    s.index[id].queue(),
                    id,
                )].expires_at <= now {
                    let job = s.records[s.index[id]];
                    let end = lapsed_end(job);
                    &&& after.index[id] == end.place(job, now)
                    &&& after.job(id) == Some(end.ended(job, now).stored())
                    &&& after.attempts(id) == s.attempts(id).push(end.attempt(job, now))
                } else {
                    &&& after.index[id] == s.index[id]
                    &&& after.job(id) == s.job(id)
                    &&& after.attempts(id) == s.attempts(id)
                }
            &&& forall|queue: Seq<char>| #[trigger]
                after.count(queue, JobStatus::Done) == s.count(queue, JobStatus::Done)
            &&& after.dedup == s.dedup
            &&& after.kv == s.kv
        }),
{
    let marked = LeaseRegistry::marked(leases, now);
    reapings_are_exact(s, marked, due, now);
    let (after, held) = reaped_all(s, marked, due, now);
    assert forall|key: (Seq<char>, Seq<char>)| #[trigger] leases.contains_key(key) implies named(
        due,
        key,
    ) == (leases[key].expires_at <= now) by {
        if named(due, key) {
            let i = choose|i: int|
                0 <= i < due.len() && ((#[trigger] due[i]).queue, due[i].id) == key;
            assert(leases[(due[i].queue, due[i].id)].expires_at <= now);
        }
    }
    assert forall|id: Seq<char>| #[trigger] s.index.contains_key(id) && s.index[id]
        is Claimed implies leases.contains_key((s.index[id].queue(), id)) by {
        assert(s.records.contains_key(claimed_place(s.index[id].queue(), id)));
    }
    assert forall|queue: Seq<char>, id: Seq<char>| #[trigger]
        after.records.contains_key(claimed_place(queue, id)) implies held.contains_key(
        (queue, id),
    ) by {
        let place = claimed_place(queue, id);
        assert(after.index.contains_key(place.id()));
        assert(s.index.contains_key(id));
        assert(s.index[id] == place);
    }
}

} // verus!

//! Transactions: what has been read, what is staged, and the steps that the
//! queue's transitions share.
//!
//! A transition is decided from the store entries read so far. Where it
//! depends on an entry that has not been read it stops and names the entry;
//! the caller reads it in the same snapshot and runs the transition again.

use crate::bytes::{same_bytes, same_text};
use crate::error::{Error, ErrorView};
use crate::job::{
    opt_text, AttemptOutcome, JobAttempt, JobAttemptView, JobRecord, JobStatus, JobView,
};
use crate::keys::{
    dedup_index_key, job_index_key, queue_fits, user_scoped_key, RecordKey, RecordKeyView, StoreKey,
};
use crate::lease_registry::LeaseRegistry;
use crate::store::{
    apply, apply_op, apply_push, entry, op_views, staged_dedup, staged_dedup_is_applied,
    staged_location, staged_location_is_applied, touches_no_record, untouched_records_are_kept, Op,
    OpView, StoreView,
};
use vstd::prelude::*;

verus! {

/// A store entry that a transition depends on.
#[derive(Debug)]
pub enum Need {
    /// The index entry of a job.
    Location { id: String },
    /// A job record.
    Record { key: RecordKey },
    /// The holder of a deduplication key.
    Dedup { queue: String, dedup_key: String },
    /// An entry of the caller.
    Kv { kv_key: Vec<u8> },
}

/// The contents of a [`Need`].
pub enum NeedView {
    Location { id: Seq<char> },
    Record { key: RecordKeyView },
    Dedup { queue: Seq<char>, dedup_key: Seq<char> },
    Kv { kv_key: Seq<u8> },
}

impl View for Need {
    type V = NeedView;

    open spec fn view(&self) -> NeedView {
        match self {
            Need::Location { id } => NeedView::Location { id: id@ },
            Need::Record { key } => NeedView::Record { key: key@ },
            Need::Dedup { queue, dedup_key } => NeedView::Dedup {
                queue: queue@,
                dedup_key: dedup_key@,
            },
            Need::Kv { kv_key } => NeedView::Kv { kv_key: kv_key@ },
        }
    }
}

impl NeedView {
    /// The store key of the entry.
    pub open spec fn key(self) -> StoreKey {
        match self {
            NeedView::Location { id } => StoreKey::Index { id },
            NeedView::Record { key } => StoreKey::Record(key),
            NeedView::Dedup { queue, dedup_key } => StoreKey::Dedup { queue, dedup_key },
            NeedView::Kv { kv_key } => StoreKey::User { key: kv_key },
        }
    }
}

impl Need {
    /// Whether the key to read can be encoded.
    pub fn fits(&self) -> (r: bool)
        ensures
            r == self@.key().fits(),
    {
        match self {
            Need::Record { key } => key.fits(),
            Need::Dedup { queue, .. } => queue_fits(queue.as_str()),
            _ => true,
        }
    }

    /// The key to read, as bytes.
    pub fn key(&self) -> (r: Vec<u8>)
        requires
            self@.key().fits(),
        ensures
            r@ == self@.key().encode(),
    {
        match self {
            Need::Location { id } => job_index_key(id.as_str()),
            Need::Record { key } => key.encode(),
            Need::Dedup { queue, dedup_key } => dedup_index_key(
                queue.as_str(),
                dedup_key.as_str(),
            ),
            Need::Kv { kv_key } => user_scoped_key(kv_key.as_slice()),
        }
    }
}

/// Why a transition came to no plan.
#[derive(Debug)]
pub enum Stop {
    /// An entry has to be read first.
    Need(Need),
    /// The request is refused.
    Fail(Error),
}

/// The decision of a transition: what to write, and what to report once it
/// is committed.
#[derive(Debug)]
pub struct Plan<T> {
    /// The operations of the transaction, in order.
    pub ops: Vec<Op>,
    /// What the transition reports.
    pub value: T,
}

/// The store entries read so far in one snapshot.
#[derive(Debug)]
pub struct Reads {
    locations: Vec<(String, Option<RecordKey>)>,
    records: Vec<(RecordKey, Option<JobRecord>)>,
    dedups: Vec<(String, String, Option<String>)>,
    kvs: Vec<(Vec<u8>, Option<Vec<u8>>)>,
}

/// The place inside an option.
pub open spec fn opt_key(o: Option<RecordKey>) -> Option<RecordKeyView> {
    match o {
        Some(k) => Some(k@),
        None => None,
    }
}

/// The contents of an optional record.
pub open spec fn opt_job(o: Option<JobRecord>) -> Option<JobView> {
    match o {
        Some(j) => Some(j@),
        None => None,
    }
}

spec fn last_location(
    s: Seq<(String, Option<RecordKey>)>,
    id: Seq<char>,
) -> Option<Option<RecordKeyView>>
    decreases s.len(),
{
    if s.len() == 0 {
        None
    } else if s.last().0@ == id {
        Some(opt_key(s.last().1))
    } else {
        last_location(s.drop_last(), id)
    }
}

spec fn last_record(
    s: Seq<(RecordKey, Option<JobRecord>)>,
    key: RecordKeyView,
) -> Option<Option<JobView>>
    decreases s.len(),
{
    if s.len() == 0 {
        None
    } else if s.last().0@ == key {
        Some(opt_job(s.last().1))
    } else {
        last_record(s.drop_last(), key)
    }
}

spec fn last_dedup(
    s: Seq<(String, String, Option<String>)>,
    queue: Seq<char>,
    dedup_key: Seq<char>,
) -> Option<Option<Seq<char>>>
    decreases s.len(),
{
    if s.len() == 0 {
        None
    } else if s.last().0@ == queue && s.last().1@ == dedup_key {
        Some(opt_text(s.last().2))
    } else {
        last_dedup(s.drop_last(), queue, dedup_key)
    }
}

spec fn last_kv(s: Seq<(Vec<u8>, Option<Vec<u8>>)>, key: Seq<u8>) -> Option<Option<Seq<u8>>>
    decreases s.len(),
{
    if s.len() == 0 {
        None
    } else if s.last().0@ == key {
        Some(crate::job::opt_bytes(s.last().1))
    } else {
        last_kv(s.drop_last(), key)
    }
}

impl Reads {
    /// What is known of a job's index entry: `None` when it was not read.
    pub closed spec fn location(self, id: Seq<char>) -> Option<Option<RecordKeyView>> {
        last_location(self.locations@, id)
    }

    /// What is known of a record: `None` when it was not read.
    pub closed spec fn record(self, key: RecordKeyView) -> Option<Option<JobView>> {
        last_record(self.records@, key)
    }

    /// What is known of the holder of a deduplication key: `None` when it was
    /// not read.
    pub closed spec fn dedup(
        self,
        queue: Seq<char>,
        dedup_key: Seq<char>,
    ) -> Option<Option<Seq<char>>> {
        last_dedup(self.dedups@, queue, dedup_key)
    }

    /// What is known of an entry of the caller: `None` when it was not read.
    pub closed spec fn kv(self, key: Seq<u8>) -> Option<Option<Seq<u8>>> {
        last_kv(self.kvs@, key)
    }

    /// Whether an entry was read.
    pub open spec fn knows(self, need: NeedView) -> bool {
        match need {
            NeedView::Location { id } => self.location(id) is Some,
            NeedView::Record { key } => self.record(key) is Some,
            NeedView::Dedup { queue, dedup_key } => self.dedup(queue, dedup_key) is Some,
            NeedView::Kv { kv_key } => self.kv(kv_key) is Some,
        }
    }

    /// Whether everything read is what the store `s` holds.
    pub open spec fn agrees(self, s: StoreView) -> bool {
        &&& forall|id: Seq<char>|
            #![trigger self.location(id)]
            self.location(id) matches Some(place) ==> place == entry(s.index, id)
        &&& forall|key: RecordKeyView|
            #![trigger self.record(key)]
            self.record(key) matches Some(job) ==> job == entry(s.records, key)
        &&& forall|queue: Seq<char>, dk: Seq<char>|
            #![trigger self.dedup(queue, dk)]
            self.dedup(queue, dk) matches Some(holder) ==> holder == entry(s.dedup, (queue, dk))
        &&& forall|key: Seq<u8>|
            #![trigger self.kv(key)]
            self.kv(key) matches Some(value) ==> value == entry(s.kv, key)
    }

    /// Nothing read yet.
    pub fn new() -> (r: Reads)
        ensures
            forall|need: NeedView| !(#[trigger] r.knows(need)),
    {
        Reads {
            locations: Vec::new(),
            records: Vec::new(),
            dedups: Vec::new(),
            kvs: Vec::new(),
        }
    }

    /// Takes in a job's index entry.
    pub fn learn_location(&mut self, id: String, place: Option<RecordKey>)
        ensures
            forall|other: Seq<char>| #[trigger]
                final(self).location(other) == if other == id@ {
                    Some(opt_key(place))
                } else {
                    old(self).location(other)
                },
            forall|key: RecordKeyView| #[trigger]
                final(self).record(key) == old(self).record(key),
            forall|queue: Seq<char>, dk: Seq<char>| #[trigger]
                final(self).dedup(queue, dk) == old(self).dedup(queue, dk),
            forall|key: Seq<u8>| #[trigger] final(self).kv(key) == old(self).kv(key),
    {
        let ghost before = self.locations@;
        self.locations.push((id, place));
        assert(self.locations@.drop_last() =~= before);
    }

    /// Takes in a record.
    pub fn learn_record(&mut self, key: RecordKey, job: Option<JobRecord>)
        ensures
            forall|other: RecordKeyView| #[trigger]
                final(self).record(other) == if other == key@ {
                    Some(opt_job(job))
                } else {
                    old(self).record(other)
                },
            forall|id: Seq<char>| #[trigger] final(self).location(id) == old(self).location(id),
            forall|queue: Seq<char>, dk: Seq<char>| #[trigger]
                final(self).dedup(queue, dk) == old(self).dedup(queue, dk),
            forall|key: Seq<u8>| #[trigger] final(self).kv(key) == old(self).kv(key),
    {
        let ghost before = self.records@;
        self.records.push((key, job));
        assert(self.records@.drop_last() =~= before);
    }

    /// Takes in the holder of a deduplication key.
    pub fn learn_dedup(&mut self, queue: String, dedup_key: String, id: Option<String>)
        ensures
            forall|q: Seq<char>, dk: Seq<char>| #[trigger]
                final(self).dedup(q, dk) == if q == queue@ && dk == dedup_key@ {
                    Some(opt_text(id))
                } else {
                    old(self).dedup(q, dk)
                },
            forall|id: Seq<char>| #[trigger] final(self).location(id) == old(self).location(id),
            forall|key: RecordKeyView| #[trigger]
                final(self).record(key) == old(self).record(key),
            forall|key: Seq<u8>| #[trigger] final(self).kv(key) == old(self).kv(key),
    {
        let ghost before = self.dedups@;
        self.dedups.push((queue, dedup_key, id));
        assert(self.dedups@.drop_last() =~= before);
    }

    /// Takes in an entry of the caller.
    pub fn learn_kv(&mut self, key: Vec<u8>, value: Option<Vec<u8>>)
        ensures
            forall|other: Seq<u8>| #[trigger]
                final(self).kv(other) == if other == key@ {
                    Some(crate::job::opt_bytes(value))
                } else {
                    old(self).kv(other)
                },
            forall|id: Seq<char>| #[trigger] final(self).location(id) == old(self).location(id),
            forall|key: RecordKeyView| #[trigger]
                final(self).record(key) == old(self).record(key),
            forall|queue: Seq<char>, dk: Seq<char>| #[trigger]
                final(self).dedup(queue, dk) == old(self).dedup(queue, dk),
    {
        let ghost before = self.kvs@;
        self.kvs.push((key, value));
        assert(self.kvs@.drop_last() =~= before);
    }

    fn find_location(&self, id: &str) -> (r: Option<Option<RecordKey>>)
        ensures
            match r {
                Some(place) => self.location(id@) == Some(opt_key(place)),
                None => self.location(id@) is None,
            },
    {
        let mut n: usize = self.locations.len();
        proof {
            assert(self.locations@.subrange(0, n as int) =~= self.locations@);
        }
        while n > 0
            invariant
                0 <= n <= self.locations@.len(),
                last_location(self.locations@.subrange(0, n as int), id@) == self.location(id@),
            decreases n,
        {
            proof {
                assert(self.locations@.subrange(0, n as int).drop_last()
                    =~= self.locations@.subrange(0, n - 1));
            }
            n -= 1;
            if same_text(self.locations[n].0.as_str(), id) {
                return Some(
                    match &self.locations[n].1 {
                        Some(key) => Some(key.clone()),
                        None => None,
                    },
                );
            }
        }
        None
    }

    /// What is known of a record.
    pub fn find_record(&self, key: &RecordKey) -> (r: Option<Option<JobRecord>>)
        ensures
            match r {
                Some(job) => self.record(key@) == Some(opt_job(job)),
                None => self.record(key@) is None,
            },
    {
        let mut n: usize = self.records.len();
        proof {
            assert(self.records@.subrange(0, n as int) =~= self.records@);
        }
        while n > 0
            invariant
                0 <= n <= self.records@.len(),
                last_record(self.records@.subrange(0, n as int), key@) == self.record(key@),
            decreases n,
        {
            proof {
                assert(self.records@.subrange(0, n as int).drop_last() =~= self.records@.subrange(
                    0,
                    n - 1,
                ));
            }
            n -= 1;
            if self.records[n].0.same(key) {
                return Some(
                    match &self.records[n].1 {
                        Some(job) => Some(job.clone()),
                        None => None,
                    },
                );
            }
        }
        None
    }

    fn find_dedup(&self, queue: &str, dedup_key: &str) -> (r: Option<Option<String>>)
        ensures
            match r {
                Some(holder) => self.dedup(queue@, dedup_key@) == Some(opt_text(holder)),
                None => self.dedup(queue@, dedup_key@) is None,
            },
    {
        let mut n: usize = self.dedups.len();
        proof {
            assert(self.dedups@.subrange(0, n as int) =~= self.dedups@);
        }
        while n > 0
            invariant
                0 <= n <= self.dedups@.len(),
                last_dedup(self.dedups@.subrange(0, n as int), queue@, dedup_key@) == self.dedup(
                    queue@,
                    dedup_key@,
                ),
            decreases n,
        {
            proof {
                assert(self.dedups@.subrange(0, n as int).drop_last() =~= self.dedups@.subrange(
                    0,
                    n - 1,
                ));
            }
            n -= 1;
            if same_text(self.dedups[n].0.as_str(), queue) && same_text(
                self.dedups[n].1.as_str(),
                dedup_key,
            ) {
                return Some(self.dedups[n].2.clone());
            }
        }
        None
    }

    /// What is known of an entry of the caller.
    pub fn find_kv(&self, key: &[u8]) -> (r: Option<Option<Vec<u8>>>)
        ensures
            match r {
                Some(value) => self.kv(key@) == Some(crate::job::opt_bytes(value)),
                None => self.kv(key@) is None,
            },
    {
        let mut n: usize = self.kvs.len();
        proof {
            assert(self.kvs@.subrange(0, n as int) =~= self.kvs@);
        }
        while n > 0
            invariant
                0 <= n <= self.kvs@.len(),
                last_kv(self.kvs@.subrange(0, n as int), key@) == self.kv(key@),
            decreases n,
        {
            proof {
                assert(self.kvs@.subrange(0, n as int).drop_last() =~= self.kvs@.subrange(
                    0,
                    n - 1,
                ));
            }
            n -= 1;
            if same_bytes(self.kvs[n].0.as_slice(), key) {
                return Some(crate::job::copy_opt_bytes(&self.kvs[n].1));
            }
        }
        None
    }
}

/// A transaction being put together.
#[derive(Debug)]
pub struct Txn<'a> {
    /// The entries read in the transaction's snapshot.
    pub known: &'a Reads,
    /// The operations staged so far.
    pub ops: Vec<Op>,
}

impl<'a> Txn<'a> {
    /// The operations staged so far.
    pub open spec fn staged(self) -> Seq<OpView> {
        op_views(self.ops@)
    }

    /// The store that the transaction would leave of `s`.
    pub open spec fn result(self, s: StoreView) -> StoreView {
        apply(s, self.staged())
    }

    /// A transaction that writes nothing yet.
    pub fn new(known: &'a Reads) -> (r: Txn<'a>)
        ensures
            *r.known == *known,
            r.staged() == Seq::<OpView>::empty(),
            forall|s: StoreView| #[trigger] r.result(s) == s,
    {
        let r = Txn { known, ops: Vec::new() };
        assert(r.staged() =~= Seq::empty());
        r
    }

    /// The plan to commit what is staged and report `value`.
    pub fn plan<T>(self, value: T) -> (r: Plan<T>)
        ensures
            r.value == value,
            r.ops == self.ops,
            forall|s: StoreView| #[trigger] apply(s, op_views(r.ops@)) == self.result(s),
    {
        Plan { ops: self.ops, value }
    }

    /// Adds an operation.
    pub fn stage(&mut self, op: Op)
        ensures
            *final(self).known == *old(self).known,
            final(self).staged() == old(self).staged().push(op@),
            forall|s: StoreView| #[trigger]
                final(self).result(s) == apply_op(old(self).result(s), op@),
    {
        let ghost before = self.staged();
        let ghost view = op@;
        self.ops.push(op);
        proof {
            assert(self.staged() =~= before.push(view));
            assert forall|s: StoreView| #[trigger] self.result(s) == apply_op(
                apply(s, before),
                view,
            ) by {
                apply_push(s, before, view);
            }
        }
    }

    /// The place that the transaction sees in a job's index entry.
    pub fn location(&self, id: &str) -> (r: Result<Option<RecordKey>, Stop>)
        ensures
            match r {
                Ok(place) => forall|s: StoreView| #[trigger]
                    self.known.agrees(s) ==> entry(self.result(s).index, id@) == opt_key(place),
                Err(Stop::Need(need)) => need@ == (NeedView::Location { id: id@ })
                    && !self.known.knows(need@) && staged_location(self.staged(), id@) is None,
                Err(Stop::Fail(_)) => false,
            },
            self.staged().len() == 0 ==> (r matches Ok(place) ==> self.known.location(id@) == Some(
                opt_key(place),
            )),
    {
        let ghost ops = self.staged();
        let mut n: usize = self.ops.len();
        proof {
            assert(ops.subrange(0, n as int) =~= ops);
        }
        while n > 0
            invariant
                0 <= n <= self.ops@.len(),
                ops == self.staged(),
                staged_location(ops.subrange(0, n as int), id@) == staged_location(ops, id@),
            decreases n,
        {
            proof {
                assert(ops.subrange(0, n as int).drop_last() =~= ops.subrange(0, n - 1));
                assert(ops.subrange(0, n as int).last() == self.ops@[n - 1]@);
            }
            n -= 1;
            let written: Option<Option<RecordKey>> = match &self.ops[n] {
                Op::PutIndex { id: other, key } => if same_text(other.as_str(), id) {
                    Some(Some(key.clone()))
                } else {
                    None
                },
                Op::DeleteIndex { id: other } => if same_text(other.as_str(), id) {
                    Some(None)
                } else {
                    None
                },
                _ => None,
            };
            if let Some(place) = written {
                proof {
                    assert forall|s: StoreView| #[trigger] self.known.agrees(s) implies entry(
                        self.result(s).index,
                        id@,
                    ) == opt_key(place) by {
                        staged_location_is_applied(s, ops, id@);
                    }
                }
                return Ok(place);
            }
        }
        match self.known.find_location(id) {
            Some(place) => {
                proof {
                    assert forall|s: StoreView| #[trigger] self.known.agrees(s) implies entry(
                        self.result(s).index,
                        id@,
                    ) == opt_key(place) by {
                        staged_location_is_applied(s, ops, id@);
                    }
                }
                Ok(place)
            },
            None => Err(Stop::Need(Need::Location { id: id.to_owned() })),
        }
    }

    /// The holder that the transaction sees of a deduplication key.
    pub fn dedup(&self, queue: &str, dedup_key: &str) -> (r: Result<Option<String>, Stop>)
        ensures
            match r {
                Ok(holder) => forall|s: StoreView| #[trigger]
                    self.known.agrees(s) ==> entry(self.result(s).dedup, (queue@, dedup_key@))
                        == opt_text(holder),
                Err(Stop::Need(need)) => need@ == (NeedView::Dedup {
                    queue: queue@,
                    dedup_key: dedup_key@,
                }) && !self.known.knows(need@) && staged_dedup(
                    self.staged(),
                    queue@,
                    dedup_key@,
                ) is None,
                Err(Stop::Fail(_)) => false,
            },
    {
        let ghost ops = self.staged();
        let mut n: usize = self.ops.len();
        proof {
            assert(ops.subrange(0, n as int) =~= ops);
        }
        while n > 0
            invariant
                0 <= n <= self.ops@.len(),
                ops == self.staged(),
                staged_dedup(ops.subrange(0, n as int), queue@, dedup_key@) == staged_dedup(
                    ops,
                    queue@,
                    dedup_key@,
                ),
            decreases n,
        {
            proof {
                assert(ops.subrange(0, n as int).drop_last() =~= ops.subrange(0, n - 1));
                assert(ops.subrange(0, n as int).last() == self.ops@[n - 1]@);
            }
            n -= 1;
            let written: Option<Option<String>> = match &self.ops[n] {
                Op::PutDedup { queue: q, dedup_key: dk, id } => if same_text(q.as_str(), queue)
                    && same_text(dk.as_str(), dedup_key) {
                    Some(Some(id.clone()))
                } else {
                    None
                },
                Op::DeleteDedup { queue: q, dedup_key: dk } => if same_text(q.as_str(), queue)
                    && same_text(dk.as_str(), dedup_key) {
                    Some(None)
                } else {
                    None
                },
                _ => None,
            };
            if let Some(holder) = written {
                proof {
                    assert forall|s: StoreView| #[trigger] self.known.agrees(s) implies entry(
                        self.result(s).dedup,
                        (queue@, dedup_key@),
                    ) == opt_text(holder) by {
                        staged_dedup_is_applied(s, ops, queue@, dedup_key@);
                    }
                }
                return Ok(holder);
            }
        }
        match self.known.find_dedup(queue, dedup_key) {
            Some(holder) => {
                proof {
                    assert forall|s: StoreView| #[trigger] self.known.agrees(s) implies entry(
                        self.result(s).dedup,
                        (queue@, dedup_key@),
                    ) == opt_text(holder) by {
                        staged_dedup_is_applied(s, ops, queue@, dedup_key@);
                    }
                }
                Ok(holder)
            },
            None => Err(
                Stop::Need(
                    Need::Dedup { queue: queue.to_owned(), dedup_key: dedup_key.to_owned() },
                ),
            ),
        }
    }

    /// The record that the transaction sees at a place. Called before the
    /// transaction writes a record.
    pub fn record(&self, key: &RecordKey) -> (r: Result<Option<JobRecord>, Stop>)
        requires
            touches_no_record(self.staged()),
        ensures
            match r {
                Ok(job) => self.known.record(key@) == Some(opt_job(job)) && forall|s: StoreView|
                    #[trigger]
                    self.known.agrees(s) ==> entry(self.result(s).records, key@) == opt_job(job),
                Err(Stop::Need(need)) => need@ == (NeedView::Record { key: key@ })
                    && !self.known.knows(need@),
                Err(Stop::Fail(_)) => false,
            },
    {
        match self.known.find_record(key) {
            Some(job) => {
                proof {
                    assert forall|s: StoreView| #[trigger] self.known.agrees(s) implies entry(
                        self.result(s).records,
                        key@,
                    ) == opt_job(job) by {
                        untouched_records_are_kept(s, self.staged());
                    }
                }
                Ok(job)
            },
            None => Err(Stop::Need(Need::Record { key: key.clone() })),
        }
    }
}

/// Whether `r` decides a transition whose effect on every store that holds
/// what was read is `outcome`; a transition that cannot be decided yet asks
/// for an entry that is `needed` and was not read.
pub open spec fn follows<T: View>(
    r: Result<Plan<T>, Stop>,
    reads: Reads,
    outcome: spec_fn(StoreView) -> Result<(StoreView, T::V), ErrorView>,
    needed: spec_fn(NeedView) -> bool,
) -> bool {
    match r {
        Ok(plan) => forall|s: StoreView| #[trigger]
            reads.agrees(s) ==> outcome(s) == Ok::<(StoreView, T::V), ErrorView>(
                (apply(s, op_views(plan.ops@)), plan.value@),
            ),
        Err(Stop::Fail(e)) => forall|s: StoreView| #[trigger]
            reads.agrees(s) ==> outcome(s) == Err::<(StoreView, T::V), ErrorView>(e@),
        Err(Stop::Need(need)) => !reads.knows(need@) && needed(need@),
    }
}

/// Whatever was read, some store holds it, so that a decided transition is
/// always decided for some store.
pub proof fn reads_describe_a_store(reads: Reads) -> (s: StoreView)
    ensures
        reads.agrees(s),
{
    StoreView {
        records: Map::new(
            |key: RecordKeyView| reads.record(key) matches Some(Some(_)),
            |key: RecordKeyView| reads.record(key).unwrap().unwrap(),
        ),
        index: Map::new(
            |id: Seq<char>| reads.location(id) matches Some(Some(_)),
            |id: Seq<char>| reads.location(id).unwrap().unwrap(),
        ),
        dedup: Map::new(
            |k: (Seq<char>, Seq<char>)| reads.dedup(k.0, k.1) matches Some(Some(_)),
            |k: (Seq<char>, Seq<char>)| reads.dedup(k.0, k.1).unwrap().unwrap(),
        ),
        counters: Map::empty(),
        history: Map::empty(),
        kv: Map::new(
            |key: Seq<u8>| reads.kv(key) matches Some(Some(_)),
            |key: Seq<u8>| reads.kv(key).unwrap().unwrap(),
        ),
    }
}

/// Writes a job record at `key` and points the job's index entry there.
pub fn put_job_record(txn: &mut Txn<'_>, key: &RecordKey, job: &JobRecord)
    ensures
        *final(txn).known == *old(txn).known,
        forall|s: StoreView| #[trigger]
            final(txn).result(s) == old(txn).result(s).placed(key@, job@.stored()),
{
    txn.stage(Op::PutRecord { key: key.clone(), record: job.stored_clone() });
    txn.stage(Op::PutIndex { id: job.id.clone(), key: key.clone() });
}

/// The store with each delta added to a queue's counter of its state.
pub open spec fn counted_all(
    s: StoreView,
    queue: Seq<char>,
    deltas: Seq<(JobStatus, i64)>,
) -> StoreView
    decreases deltas.len(),
{
    if deltas.len() == 0 {
        s
    } else {
        counted_all(s, queue, deltas.drop_last()).counted(
            queue,
            deltas.last().0,
            deltas.last().1 as int,
        )
    }
}

/// Adds deltas to a queue's counters.
pub fn update_stats(txn: &mut Txn<'_>, queue: &str, deltas: &[(JobStatus, i64)])
    ensures
        *final(txn).known == *old(txn).known,
        touches_no_record(old(txn).staged()) ==> touches_no_record(final(txn).staged()),
        forall|s: StoreView| #[trigger]
            final(txn).result(s) == counted_all(old(txn).result(s), queue@, deltas@),
{
    let ghost start = *txn;
    let mut i: usize = 0;
    proof {
        assert(deltas@.subrange(0, 0) =~= Seq::empty());
    }
    while i < deltas.len()
        invariant
            0 <= i <= deltas@.len(),
            *txn.known == *start.known,
            touches_no_record(start.staged()) ==> touches_no_record(txn.staged()),
            forall|s: StoreView| #[trigger]
                txn.result(s) == counted_all(
                    start.result(s),
                    queue@,
                    deltas@.subrange(0, i as int),
                ),
        decreases deltas@.len() - i,
    {
        proof {
            assert(deltas@.subrange(0, i + 1).drop_last() =~= deltas@.subrange(0, i as int));
        }
        let (status, delta) = deltas[i];
        if delta != 0 {
            txn.stage(Op::AddStat { queue: queue.to_owned(), status, delta });
        }
        i += 1;
    }
    proof {
        assert(deltas@.subrange(0, i as int) =~= deltas@);
    }
}

/// Moves one job of a queue from one counter to another.
pub fn recount(txn: &mut Txn<'_>, queue: &str, from: JobStatus, to: JobStatus)
    ensures
        *final(txn).known == *old(txn).known,
        forall|s: StoreView| #[trigger]
            final(txn).result(s) == old(txn).result(s).recounted(queue@, from, to),
{
    let deltas: [(JobStatus, i64); 2] = [(from, -1), (to, 1)];
    proof {
        reveal_with_fuel(counted_all, 3);
        assert(deltas@.drop_last().drop_last() =~= Seq::empty());
    }
    update_stats(txn, queue, &deltas);
}

/// Adds to one counter of a queue.
pub fn count_one(txn: &mut Txn<'_>, queue: &str, status: JobStatus, delta: i64)
    ensures
        *final(txn).known == *old(txn).known,
        forall|s: StoreView| #[trigger]
            final(txn).result(s) == old(txn).result(s).counted(queue@, status, delta as int),
{
    let deltas: [(JobStatus, i64); 1] = [(status, delta)];
    proof {
        reveal_with_fuel(counted_all, 2);
        assert(deltas@.drop_last() =~= Seq::empty());
    }
    update_stats(txn, queue, &deltas);
}

/// Appends an entry to a job's history.
pub fn append_attempt(txn: &mut Txn<'_>, id: &str, attempt: JobAttempt)
    ensures
        *final(txn).known == *old(txn).known,
        forall|s: StoreView| #[trigger]
            final(txn).result(s) == old(txn).result(s).noted(id@, attempt@),
{
    txn.stage(Op::AppendAttempt { id: id.to_owned(), attempt });
}

/// Deletes a job's index entry and history.
pub fn forget_job(txn: &mut Txn<'_>, id: &str)
    ensures
        *final(txn).known == *old(txn).known,
        forall|s: StoreView| #[trigger]
            final(txn).result(s) == old(txn).result(s).forgotten(id@),
{
    txn.stage(Op::DeleteIndex { id: id.to_owned() });
    txn.stage(Op::DeleteHistory { id: id.to_owned() });
}

/// How a claim ends.
#[derive(Clone, Copy, Debug)]
#[allow(inconsistent_fields)]
pub enum ClaimEnd<'a> {
    /// The job is done; its record is kept or dropped.
    Done { keep: bool },
    /// The job is dead-lettered.
    Dead { error: &'a str },
    /// The job goes back to wait for another attempt, at once or until
    /// `run_at`.
    Retry { run_at: Option<u64>, outcome: AttemptOutcome, error: Option<&'a str> },
}

/// The contents of a [`ClaimEnd`].
#[allow(inconsistent_fields)]
pub enum ClaimEndView {
    Done { keep: bool },
    Dead { error: Seq<char> },
    Retry { run_at: Option<u64>, outcome: AttemptOutcome, error: Option<Seq<char>> },
}

impl<'a> View for ClaimEnd<'a> {
    type V = ClaimEndView;

    open spec fn view(&self) -> ClaimEndView {
        match self {
            ClaimEnd::Done { keep } => ClaimEndView::Done { keep: *keep },
            ClaimEnd::Dead { error } => ClaimEndView::Dead { error: error@ },
            ClaimEnd::Retry { run_at, outcome, error } => ClaimEndView::Retry {
                run_at: *run_at,
                outcome: *outcome,
                error: match error {
                    Some(text) => Some(text@),
                    None => None,
                },
            },
        }
    }
}

impl ClaimEndView {
    /// Whether the job's life ends with the claim.
    pub open spec fn terminal(self) -> bool {
        !(self is Retry)
    }

    /// The state the job is left in.
    pub open spec fn status(self) -> JobStatus {
        match self {
            ClaimEndView::Done { .. } => JobStatus::Done,
            ClaimEndView::Dead { .. } => JobStatus::Dead,
            ClaimEndView::Retry { run_at: Some(_), .. } => JobStatus::Scheduled,
            ClaimEndView::Retry { run_at: None, .. } => JobStatus::Pending,
        }
    }

    /// The job as the end of its claim leaves it.
    pub open spec fn ended(self, job: JobView, now: u64) -> JobView {
        match self {
            ClaimEndView::Done { .. } => JobView {
                status: JobStatus::Done,
                completed_at: Some(now),
                ..job
            },
            ClaimEndView::Dead { error } => JobView {
                status: JobStatus::Dead,
                failed_at: Some(now),
                claimed_at: None,
                last_error: Some(error),
                ..job
            },
            ClaimEndView::Retry { run_at, error, .. } => JobView {
                status: self.status(),
                run_at,
                claimed_at: None,
                last_error: match error {
                    Some(text) => Some(text),
                    None => job.last_error,
                },
                ..job
            },
        }
    }

    /// The history entry of the claim.
    pub open spec fn attempt(self, job: JobView, now: u64) -> JobAttemptView {
        JobAttemptView {
            attempt: job.attempts,
            claimed_at: job.claimed_at,
            recorded_at: now,
            outcome: match self {
                ClaimEndView::Done { .. } => AttemptOutcome::Completed,
                ClaimEndView::Dead { .. } => AttemptOutcome::DeadLettered,
                ClaimEndView::Retry { outcome, .. } => outcome,
            },
            error: match self {
                ClaimEndView::Done { .. } => None,
                ClaimEndView::Dead { error } => Some(error),
                ClaimEndView::Retry { error, .. } => error,
            },
        }
    }

    /// The place of the job's record after the end of its claim.
    pub open spec fn place(self, job: JobView, now: u64) -> RecordKeyView {
        match self {
            ClaimEndView::Done { .. } => RecordKeyView::Done {
                completed_at: now,
                queue: job.queue,
                id: job.id,
            },
            ClaimEndView::Dead { .. } => RecordKeyView::Dead { queue: job.queue, id: job.id },
            ClaimEndView::Retry { run_at: Some(at), .. } => RecordKeyView::Scheduled {
                run_at: at,
                queue: job.queue,
                id: job.id,
            },
            ClaimEndView::Retry { run_at: None, .. } => RecordKeyView::Pending {
                queue: job.queue,
                priority: job.priority,
                id: job.id,
            },
        }
    }

    /// The store after the end of a claim on `job`, whose claimed record is
    /// gone already.
    pub open spec fn settled(self, s: StoreView, job: JobView, now: u64) -> StoreView {
        let recorded = if self == (ClaimEndView::Done { keep: false }) {
            s.forgotten(job.id)
        } else {
            s.placed(self.place(job, now), self.ended(job, now).stored()).noted(
                job.id,
                self.attempt(job, now),
            )
        };
        recorded.recounted(job.queue, JobStatus::Claimed, self.status())
    }
}

impl<'a> ClaimEnd<'a> {
    /// Whether the job's life ends with the claim.
    pub fn is_terminal(&self) -> (r: bool)
        ensures
            r == self@.terminal(),
    {
        match self {
            ClaimEnd::Retry { .. } => false,
            _ => true,
        }
    }
}

/// Moves a job to pending, counted in `from` before, and returns the place of
/// its record.
pub fn stage_to_pending(txn: &mut Txn<'_>, job: &mut JobRecord, from: JobStatus) -> (r: RecordKey)
    ensures
        *final(txn).known == *old(txn).known,
        final(job)@ == (JobView { status: JobStatus::Pending, run_at: None, ..old(job)@ }),
        r@ == (RecordKeyView::Pending {
            queue: old(job)@.queue,
            priority: old(job)@.priority,
            id: old(job)@.id,
        }),
        forall|s: StoreView| #[trigger]
            final(txn).result(s) == old(txn).result(s).placed(r@, final(job)@.stored()).recounted(
                old(job)@.queue,
                from,
                JobStatus::Pending,
            ),
{
    job.status = JobStatus::Pending;
    job.run_at = None;
    let key = RecordKey::Pending {
        queue: job.queue.clone(),
        priority: job.priority,
        id: job.id.clone(),
    };
    put_job_record(txn, &key, job);
    recount(txn, job.queue.as_str(), from, JobStatus::Pending);
    key
}

/// Moves a claimed job to the dead jobs.
pub fn stage_dead_letter(txn: &mut Txn<'_>, job: &mut JobRecord, now: u64, error: &str)
    ensures
        *final(txn).known == *old(txn).known,
        final(job)@ == (ClaimEndView::Dead { error: error@ }).ended(old(job)@, now),
        forall|s: StoreView| #[trigger]
            final(txn).result(s) == (ClaimEndView::Dead { error: error@ }).settled(
                old(txn).result(s),
                old(job)@,
                now,
            ),
{
    let attempt = JobAttempt {
        attempt: job.attempts,
        claimed_at: job.claimed_at,
        recorded_at: now,
        outcome: AttemptOutcome::DeadLettered,
        error: Some(error.to_owned()),
    };
    job.status = JobStatus::Dead;
    job.failed_at = Some(now);
    job.claimed_at = None;
    job.last_error = Some(error.to_owned());
    let key = RecordKey::Dead { queue: job.queue.clone(), id: job.id.clone() };
    put_job_record(txn, &key, job);
    append_attempt(txn, job.id.as_str(), attempt);
    recount(txn, job.queue.as_str(), JobStatus::Claimed, JobStatus::Dead);
}

/// Stages the end of a claim whose claimed record is already deleted.
/// Returns the place of the job's record when the job is pending again.
pub fn stage_claim_end(
    txn: &mut Txn<'_>,
    job: &mut JobRecord,
    end: &ClaimEnd<'_>,
    now: u64,
) -> (r: Option<RecordKey>)
    ensures
        *final(txn).known == *old(txn).known,
        final(job)@ == end@.ended(old(job)@, now),
        forall|s: StoreView| #[trigger]
            final(txn).result(s) == end@.settled(old(txn).result(s), old(job)@, now),
        opt_key(r) == if end@.status() == JobStatus::Pending {
            Some(end@.place(old(job)@, now))
        } else {
            None
        },
{
    match end {
        ClaimEnd::Done { keep } => {
            let attempt = JobAttempt {
                attempt: job.attempts,
                claimed_at: job.claimed_at,
                recorded_at: now,
                outcome: AttemptOutcome::Completed,
                error: None,
            };
            job.status = JobStatus::Done;
            job.completed_at = Some(now);
            if *keep {
                let key = RecordKey::Done {
                    completed_at: now,
                    queue: job.queue.clone(),
                    id: job.id.clone(),
                };
                put_job_record(txn, &key, job);
                append_attempt(txn, job.id.as_str(), attempt);
            } else {
                forget_job(txn, job.id.as_str());
            }
            recount(txn, job.queue.as_str(), JobStatus::Claimed, JobStatus::Done);
            None
        },
        ClaimEnd::Dead { error } => {
            stage_dead_letter(txn, job, now, error);
            None
        },
        ClaimEnd::Retry { run_at, outcome, error } => {
            let text: Option<String> = match error {
                Some(text) => Some((*text).to_owned()),
                None => None,
            };
            let attempt = JobAttempt {
                attempt: job.attempts,
                claimed_at: job.claimed_at,
                recorded_at: now,
                outcome: *outcome,
                error: text.clone(),
            };
            append_attempt(txn, job.id.as_str(), attempt);
            job.claimed_at = None;
            if text.is_some() {
                job.last_error = text;
            }
            match run_at {
                None => Some(stage_to_pending(txn, job, JobStatus::Claimed)),
                Some(at) => {
                    job.status = JobStatus::Scheduled;
                    job.run_at = Some(*at);
                    let key = RecordKey::Scheduled {
                        run_at: *at,
                        queue: job.queue.clone(),
                        id: job.id.clone(),
                    };
                    put_job_record(txn, &key, job);
                    recount(txn, job.queue.as_str(), JobStatus::Claimed, JobStatus::Scheduled);
                    None
                },
            }
        },
    }
}

/// The place of a claimed record.
pub open spec fn claimed_place(queue: Seq<char>, id: Seq<char>) -> RecordKeyView {
    RecordKeyView::Claimed { queue, id }
}

/// Whether a claim is still held in the store `s`: the lease in force carries
/// its token and the claimed record is there.
pub open spec fn claim_held(
    leases: Map<(Seq<char>, Seq<char>), crate::lease_registry::LeaseState>,
    s: StoreView,
    queue: Seq<char>,
    id: Seq<char>,
    token: u64,
) -> bool {
    &&& leases.contains_key((queue, id))
    &&& leases[(queue, id)].token == token
    &&& s.records.contains_key(claimed_place(queue, id))
}

/// Verifies that the claim `token` identifies is still held, stages the
/// deletion of its record and returns the stored record.
///
/// A settlement passes through here. The token rejects one superseded by a
/// later claim. The record read rejects one whose claim ended while its lease
/// entry, removed only after the ending commit, was still present. What a
/// settlement writes is based on the returned record, which has the changes
/// committed during the claim.
pub fn take_claim(
    txn: &mut Txn<'_>,
    registry: &LeaseRegistry,
    queue: &str,
    id: &str,
    token: u64,
) -> (r: Result<JobRecord, Stop>)
    requires
        touches_no_record(old(txn).staged()),
    ensures
        *final(txn).known == *old(txn).known,
        match r {
            Ok(job) => {
                &&& registry@.contains_key((queue@, id@))
                &&& registry@[(queue@, id@)].token == token
                &&& old(txn).known.record(claimed_place(queue@, id@)) == Some(Some(job@))
                &&& final(txn).staged() == old(txn).staged().push(
                    OpView::DeleteRecord { key: claimed_place(queue@, id@) },
                )
                &&& forall|s: StoreView| #[trigger]
                    old(txn).known.agrees(s) ==> {
                        &&& claim_held(registry@, old(txn).result(s), queue@, id@, token)
                        &&& old(txn).result(s).records[claimed_place(queue@, id@)] == job@
                        &&& final(txn).result(s) == old(txn).result(s).vacated(
                            claimed_place(queue@, id@),
                        )
                    }
            },
            Err(Stop::Need(need)) => {
                &&& registry@.contains_key((queue@, id@))
                &&& registry@[(queue@, id@)].token == token
                &&& need@ == (NeedView::Record { key: claimed_place(queue@, id@) })
                &&& !old(txn).known.knows(need@)
                &&& final(txn).staged() == old(txn).staged()
            },
            Err(Stop::Fail(e)) => {
                &&& e == Error::ClaimLost
                &&& final(txn).staged() == old(txn).staged()
                &&& forall|s: StoreView| #[trigger]
                    old(txn).known.agrees(s) ==> !claim_held(
                        registry@,
                        old(txn).result(s),
                        queue@,
                        id@,
                        token,
                    )
            },
        },
{
    match registry.current(queue, id) {
        Some((_, current)) => {
            if current != token {
                return Err(Stop::Fail(Error::ClaimLost));
            }
        },
        None => {
            return Err(Stop::Fail(Error::ClaimLost));
        },
    }
    let key = RecordKey::Claimed { queue: queue.to_owned(), id: id.to_owned() };
    match txn.record(&key) {
        Ok(Some(job)) => {
            txn.stage(Op::DeleteRecord { key });
            Ok(job)
        },
        Ok(None) => Err(Stop::Fail(Error::ClaimLost)),
        Err(stop) => Err(stop),
    }
}

/// Whether `need` is an entry that finding a job through the index depends
/// on.
pub open spec fn needs_job(known: Reads, id: Seq<char>, need: NeedView) -> bool {
    ||| need == (NeedView::Location { id })
    ||| known.location(id) matches Some(Some(key)) && need == (NeedView::Record { key })
}

/// The place and the record of a job, found through its index entry.
pub fn get_indexed_job(txn: &Txn<'_>, id: &str) -> (r: Result<Option<(RecordKey, JobRecord)>, Stop>)
    requires
        txn.staged().len() == 0,
    ensures
        match r {
            Ok(Some((key, job))) => forall|s: StoreView| #[trigger]
                txn.known.agrees(s) ==> entry(s.index, id@) == Some(key@) && entry(s.records, key@)
                    == Some(job@),
            Ok(None) => forall|s: StoreView| #[trigger]
                txn.known.agrees(s) ==> s.job(id@) is None,
            Err(Stop::Need(need)) => !txn.known.knows(need@) && needs_job(*txn.known, id@, need@),
            Err(Stop::Fail(_)) => false,
        },
{
    proof {
        assert forall|s: StoreView| #[trigger] txn.result(s) == s by {
            assert(txn.staged() =~= Seq::empty());
        }
    }
    match txn.location(id) {
        Ok(Some(key)) => {
            proof {
                assert forall|s: StoreView| #[trigger] txn.known.agrees(s) implies entry(
                    s.index,
                    id@,
                ) == Some(key@) by {
                    assert(txn.result(s) == s);
                }
            }
            match txn.record(&key) {
                Ok(Some(job)) => {
                    proof {
                        assert forall|s: StoreView| #[trigger] txn.known.agrees(s) implies entry(
                            s.records,
                            key@,
                        ) == Some(job@) by {
                            assert(txn.result(s) == s);
                        }
                    }
                    Ok(Some((key, job)))
                },
                Ok(None) => {
                    proof {
                        assert forall|s: StoreView| #[trigger] txn.known.agrees(s) implies s.job(
                            id@,
                        ) is None by {
                            assert(txn.result(s) == s);
                        }
                    }
                    Ok(None)
                },
                Err(stop) => Err(stop),
            }
        },
        Ok(None) => {
            proof {
                assert forall|s: StoreView| #[trigger] txn.known.agrees(s) implies s.job(id@)
                    is None by {
                    assert(txn.result(s) == s);
                }
            }
            Ok(None)
        },
        Err(stop) => Err(stop),
    }
}

} // verus!

//! The key layout of the store.
//!
//! A key leads with a one-byte tag that names its key space. Queue names are
//! length-prefixed by one byte and integers are big-endian, so that the byte
//! order of the keys is the order in which jobs are claimed, promoted and
//! swept.

use crate::bytes::{
    before, before_after_common_prefix, before_by_leading_field, big_endian, big_endian_keeps_order,
    big_endian_len, big_endian_round_trip, concat_is_injective, copy_range, from_big_endian,
    from_big_endian_round_trip, pow256,
    pow256_values, push_big_endian, read_big_endian, starts_with, text_from_utf8, utf8_is_injective,
};
use crate::error::{Error, ErrorView};
use crate::job::JobStatus;
use crate::stats::{metric_name, metric_text, metric_text_is_injective};
use vstd::prelude::*;
use vstd::utf8::*;

verus! {

/// The longest queue name in bytes, set by the one-byte length field.
pub const MAX_QUEUE_NAME_LEN: usize = 255;

/// Tag of the stats counters.
pub const TAG_STATS: u8 = 1;

/// Tag of the attempt histories.
pub const TAG_ATTEMPT_HISTORY: u8 = 2;

/// Tag of the pending records.
pub const TAG_PENDING: u8 = 3;

/// Tag of the scheduled records.
pub const TAG_SCHEDULED: u8 = 4;

/// Tag of the claimed records.
pub const TAG_CLAIMED: u8 = 5;

/// Tag of the done records.
pub const TAG_DONE: u8 = 6;

/// Tag of the dead records.
pub const TAG_DEAD: u8 = 7;

/// Tag of the entries that locate a job's record.
pub const TAG_JOB_INDEX: u8 = 8;

/// Tag of the deduplication entries.
pub const TAG_DEDUP: u8 = 9;

/// Tag of the persisted claim cursors.
pub const TAG_CURSOR: u8 = 10;

/// Tag of the writer's liveness beat.
pub const TAG_HEARTBEAT: u8 = 11;

/// Tag of the caller's key space.
pub const TAG_USER: u8 = 12;

/// A key space.
#[derive(Clone, Copy, Debug, PartialEq, Eq, Structural)]
pub enum KeyTag {
    Stats,
    AttemptHistory,
    Pending,
    Scheduled,
    Claimed,
    Done,
    Dead,
    JobIndex,
    Dedup,
    Cursor,
    Heartbeat,
    User,
}

impl KeyTag {
    /// The byte that leads the keys of the space.
    pub open spec fn byte(self) -> u8 {
        match self {
            KeyTag::Stats => TAG_STATS,
            KeyTag::AttemptHistory => TAG_ATTEMPT_HISTORY,
            KeyTag::Pending => TAG_PENDING,
            KeyTag::Scheduled => TAG_SCHEDULED,
            KeyTag::Claimed => TAG_CLAIMED,
            KeyTag::Done => TAG_DONE,
            KeyTag::Dead => TAG_DEAD,
            KeyTag::JobIndex => TAG_JOB_INDEX,
            KeyTag::Dedup => TAG_DEDUP,
            KeyTag::Cursor => TAG_CURSOR,
            KeyTag::Heartbeat => TAG_HEARTBEAT,
            KeyTag::User => TAG_USER,
        }
    }

    /// The byte that leads the keys of the space.
    pub fn id(self) -> (r: u8)
        ensures
            r == self.byte(),
    {
        match self {
            KeyTag::Stats => TAG_STATS,
            KeyTag::AttemptHistory => TAG_ATTEMPT_HISTORY,
            KeyTag::Pending => TAG_PENDING,
            KeyTag::Scheduled => TAG_SCHEDULED,
            KeyTag::Claimed => TAG_CLAIMED,
            KeyTag::Done => TAG_DONE,
            KeyTag::Dead => TAG_DEAD,
            KeyTag::JobIndex => TAG_JOB_INDEX,
            KeyTag::Dedup => TAG_DEDUP,
            KeyTag::Cursor => TAG_CURSOR,
            KeyTag::Heartbeat => TAG_HEARTBEAT,
            KeyTag::User => TAG_USER,
        }
    }
}

/// Whether a queue name fits the one-byte length field.
pub open spec fn name_fits(queue: Seq<char>) -> bool {
    encode_utf8(queue).len() <= MAX_QUEUE_NAME_LEN
}

/// The field of a queue name: its length in bytes, then its bytes.
pub open spec fn name_field(queue: Seq<char>) -> Seq<u8> {
    seq![encode_utf8(queue).len() as u8] + encode_utf8(queue)
}

/// The place of a job's record.
pub enum RecordKeyView {
    Pending { queue: Seq<char>, priority: u32, id: Seq<char> },
    Scheduled { run_at: u64, queue: Seq<char>, id: Seq<char> },
    Claimed { queue: Seq<char>, id: Seq<char> },
    Done { completed_at: u64, queue: Seq<char>, id: Seq<char> },
    Dead { queue: Seq<char>, id: Seq<char> },
}

impl RecordKeyView {
    /// The queue of the job.
    pub open spec fn queue(self) -> Seq<char> {
        match self {
            RecordKeyView::Pending { queue, .. } => queue,
            RecordKeyView::Scheduled { queue, .. } => queue,
            RecordKeyView::Claimed { queue, .. } => queue,
            RecordKeyView::Done { queue, .. } => queue,
            RecordKeyView::Dead { queue, .. } => queue,
        }
    }

    /// The id of the job.
    pub open spec fn id(self) -> Seq<char> {
        match self {
            RecordKeyView::Pending { id, .. } => id,
            RecordKeyView::Scheduled { id, .. } => id,
            RecordKeyView::Claimed { id, .. } => id,
            RecordKeyView::Done { id, .. } => id,
            RecordKeyView::Dead { id, .. } => id,
        }
    }

    /// The lifecycle state of a job stored there.
    pub open spec fn status(self) -> JobStatus {
        match self {
            RecordKeyView::Pending { .. } => JobStatus::Pending,
            RecordKeyView::Scheduled { .. } => JobStatus::Scheduled,
            RecordKeyView::Claimed { .. } => JobStatus::Claimed,
            RecordKeyView::Done { .. } => JobStatus::Done,
            RecordKeyView::Dead { .. } => JobStatus::Dead,
        }
    }

    /// The key as bytes.
    pub open spec fn encode(self) -> Seq<u8> {
        match self {
            RecordKeyView::Pending { queue, priority, id } => seq![TAG_PENDING] + (name_field(queue)
                + (big_endian(priority as nat, 4) + encode_utf8(id))),
            RecordKeyView::Scheduled { run_at, queue, id } => seq![TAG_SCHEDULED] + (big_endian(
                run_at as nat,
                8,
            ) + (name_field(queue) + encode_utf8(id))),
            RecordKeyView::Claimed { queue, id } => seq![TAG_CLAIMED] + (name_field(queue)
                + encode_utf8(id)),
            RecordKeyView::Done { completed_at, queue, id } => seq![TAG_DONE] + (big_endian(
                completed_at as nat,
                8,
            ) + (name_field(queue) + encode_utf8(id))),
            RecordKeyView::Dead { queue, id } => seq![TAG_DEAD] + (name_field(queue) + encode_utf8(
                id,
            )),
        }
    }
}

/// A key of the store.
pub enum StoreKey {
    Record(RecordKeyView),
    Stats { queue: Seq<char>, status: JobStatus },
    History { id: Seq<char> },
    Index { id: Seq<char> },
    Dedup { queue: Seq<char>, dedup_key: Seq<char> },
    Cursor { queue: Seq<char> },
    Heartbeat,
    User { key: Seq<u8> },
}

impl StoreKey {
    /// Whether every field of the key can be encoded.
    pub open spec fn fits(self) -> bool {
        match self {
            StoreKey::Record(k) => name_fits(k.queue()),
            StoreKey::Stats { queue, .. } => name_fits(queue),
            StoreKey::Dedup { queue, .. } => name_fits(queue),
            StoreKey::Cursor { queue } => name_fits(queue),
            _ => true,
        }
    }

    /// The key as bytes.
    pub open spec fn encode(self) -> Seq<u8> {
        match self {
            StoreKey::Record(k) => k.encode(),
            StoreKey::Stats { queue, status } => seq![TAG_STATS] + (name_field(queue) + encode_utf8(
                metric_text(status),
            )),
            StoreKey::History { id } => seq![TAG_ATTEMPT_HISTORY] + encode_utf8(id),
            StoreKey::Index { id } => seq![TAG_JOB_INDEX] + encode_utf8(id),
            StoreKey::Dedup { queue, dedup_key } => seq![TAG_DEDUP] + (name_field(queue)
                + encode_utf8(dedup_key)),
            StoreKey::Cursor { queue } => seq![TAG_CURSOR] + name_field(queue),
            StoreKey::Heartbeat => seq![TAG_HEARTBEAT],
            StoreKey::User { key } => seq![TAG_USER] + key,
        }
    }

    /// The key space of the key.
    pub open spec fn tag(self) -> KeyTag {
        match self {
            StoreKey::Record(RecordKeyView::Pending { .. }) => KeyTag::Pending,
            StoreKey::Record(RecordKeyView::Scheduled { .. }) => KeyTag::Scheduled,
            StoreKey::Record(RecordKeyView::Claimed { .. }) => KeyTag::Claimed,
            StoreKey::Record(RecordKeyView::Done { .. }) => KeyTag::Done,
            StoreKey::Record(RecordKeyView::Dead { .. }) => KeyTag::Dead,
            StoreKey::Stats { .. } => KeyTag::Stats,
            StoreKey::History { .. } => KeyTag::AttemptHistory,
            StoreKey::Index { .. } => KeyTag::JobIndex,
            StoreKey::Dedup { .. } => KeyTag::Dedup,
            StoreKey::Cursor { .. } => KeyTag::Cursor,
            StoreKey::Heartbeat => KeyTag::Heartbeat,
            StoreKey::User { .. } => KeyTag::User,
        }
    }
}

/// The first byte of a key is the tag of its key space.
pub proof fn encoding_leads_with_tag(k: StoreKey)
    ensures
        k.encode().len() > 0,
        k.encode()[0] == k.tag().byte(),
{
}

proof fn tail_of(tag: u8, a: Seq<u8>, b: Seq<u8>)
    requires
        seq![tag] + a == seq![tag] + b,
    ensures
        a == b,
{
    concat_is_injective(seq![tag], seq![tag], a, b);
}

/// Two equal strings that open with queue name fields name one queue.
proof fn name_field_is_injective(p: Seq<char>, q: Seq<char>, a: Seq<u8>, b: Seq<u8>)
    requires
        name_fits(p),
        name_fits(q),
        name_field(p) + a == name_field(q) + b,
    ensures
        p == q,
        a == b,
{
    assert((name_field(p) + a)[0] == encode_utf8(p).len() as u8);
    assert((name_field(q) + b)[0] == encode_utf8(q).len() as u8);
    concat_is_injective(name_field(p), name_field(q), a, b);
    concat_is_injective(
        seq![encode_utf8(p).len() as u8],
        seq![encode_utf8(q).len() as u8],
        encode_utf8(p),
        encode_utf8(q),
    );
    utf8_is_injective(p, q);
}

proof fn big_endian_field_is_injective(x: nat, y: nat, n: nat, a: Seq<u8>, b: Seq<u8>)
    requires
        x < pow256(n),
        y < pow256(n),
        big_endian(x, n) + a == big_endian(y, n) + b,
    ensures
        x == y,
        a == b,
{
    big_endian_len(x, n);
    big_endian_len(y, n);
    concat_is_injective(big_endian(x, n), big_endian(y, n), a, b);
    big_endian_keeps_order(x, y, n);
}

/// Distinct keys have distinct encodings: no two key spaces share a key, and
/// no key of the caller's space is one of the queue's own.
pub proof fn encoding_is_injective(a: StoreKey, b: StoreKey)
    requires
        a.fits(),
        b.fits(),
        a.encode() == b.encode(),
    ensures
        a == b,
{
    encoding_leads_with_tag(a);
    encoding_leads_with_tag(b);
    pow256_values();
    match a {
        StoreKey::Record(RecordKeyView::Pending { queue, priority, id }) => {
            if let StoreKey::Record(RecordKeyView::Pending { queue: q2, priority: p2, id: id2 }) =
                b {
                let ra = big_endian(priority as nat, 4) + encode_utf8(id);
                let rb = big_endian(p2 as nat, 4) + encode_utf8(id2);
                tail_of(TAG_PENDING, name_field(queue) + ra, name_field(q2) + rb);
                name_field_is_injective(queue, q2, ra, rb);
                big_endian_field_is_injective(
                    priority as nat,
                    p2 as nat,
                    4,
                    encode_utf8(id),
                    encode_utf8(id2),
                );
                utf8_is_injective(id, id2);
            }
        },
        StoreKey::Record(RecordKeyView::Scheduled { run_at, queue, id }) => {
            if let StoreKey::Record(RecordKeyView::Scheduled { run_at: r2, queue: q2, id: id2 }) =
                b {
                timed_is_injective(TAG_SCHEDULED, run_at, queue, id, r2, q2, id2);
            }
        },
        StoreKey::Record(RecordKeyView::Done { completed_at, queue, id }) => {
            if let StoreKey::Record(RecordKeyView::Done { completed_at: c2, queue: q2, id: id2 }) =
                b {
                timed_is_injective(TAG_DONE, completed_at, queue, id, c2, q2, id2);
            }
        },
        StoreKey::Record(RecordKeyView::Claimed { queue, id }) => {
            if let StoreKey::Record(RecordKeyView::Claimed { queue: q2, id: id2 }) = b {
                named_is_injective(TAG_CLAIMED, queue, id, q2, id2);
            }
        },
        StoreKey::Record(RecordKeyView::Dead { queue, id }) => {
            if let StoreKey::Record(RecordKeyView::Dead { queue: q2, id: id2 }) = b {
                named_is_injective(TAG_DEAD, queue, id, q2, id2);
            }
        },
        StoreKey::Stats { queue, status } => {
            if let StoreKey::Stats { queue: q2, status: s2 } = b {
                named_is_injective(TAG_STATS, queue, metric_text(status), q2, metric_text(s2));
                metric_text_is_injective(status, s2);
            }
        },
        StoreKey::Dedup { queue, dedup_key } => {
            if let StoreKey::Dedup { queue: q2, dedup_key: d2 } = b {
                named_is_injective(TAG_DEDUP, queue, dedup_key, q2, d2);
            }
        },
        StoreKey::History { id } => {
            if let StoreKey::History { id: id2 } = b {
                tail_of(TAG_ATTEMPT_HISTORY, encode_utf8(id), encode_utf8(id2));
                utf8_is_injective(id, id2);
            }
        },
        StoreKey::Index { id } => {
            if let StoreKey::Index { id: id2 } = b {
                tail_of(TAG_JOB_INDEX, encode_utf8(id), encode_utf8(id2));
                utf8_is_injective(id, id2);
            }
        },
        StoreKey::Cursor { queue } => {
            if let StoreKey::Cursor { queue: q2 } = b {
                tail_of(TAG_CURSOR, name_field(queue), name_field(q2));
                assert(name_field(queue) + Seq::empty() =~= name_field(queue));
                assert(name_field(q2) + Seq::empty() =~= name_field(q2));
                name_field_is_injective(queue, q2, Seq::empty(), Seq::empty());
            }
        },
        StoreKey::Heartbeat => {},
        StoreKey::User { key } => {
            if let StoreKey::User { key: k2 } = b {
                tail_of(TAG_USER, key, k2);
            }
        },
    }
}

pub proof fn named_is_injective(
    tag: u8,
    queue: Seq<char>,
    id: Seq<char>,
    queue2: Seq<char>,
    id2: Seq<char>,
)
    requires
        name_fits(queue),
        name_fits(queue2),
        seq![tag] + (name_field(queue) + encode_utf8(id)) == seq![tag] + (name_field(queue2)
            + encode_utf8(id2)),
    ensures
        queue == queue2,
        id == id2,
{
    tail_of(tag, name_field(queue) + encode_utf8(id), name_field(queue2) + encode_utf8(id2));
    name_field_is_injective(queue, queue2, encode_utf8(id), encode_utf8(id2));
    utf8_is_injective(id, id2);
}

proof fn timed_is_injective(
    tag: u8,
    at: u64,
    queue: Seq<char>,
    id: Seq<char>,
    at2: u64,
    queue2: Seq<char>,
    id2: Seq<char>,
)
    requires
        name_fits(queue),
        name_fits(queue2),
        seq![tag] + (big_endian(at as nat, 8) + (name_field(queue) + encode_utf8(id))) == seq![tag]
            + (big_endian(at2 as nat, 8) + (name_field(queue2) + encode_utf8(id2))),
    ensures
        at == at2,
        queue == queue2,
        id == id2,
{
    pow256_values();
    let ra = name_field(queue) + encode_utf8(id);
    let rb = name_field(queue2) + encode_utf8(id2);
    tail_of(tag, big_endian(at as nat, 8) + ra, big_endian(at2 as nat, 8) + rb);
    big_endian_field_is_injective(at as nat, at2 as nat, 8, ra, rb);
    name_field_is_injective(queue, queue2, encode_utf8(id), encode_utf8(id2));
    utf8_is_injective(id, id2);
}

/// Within one queue, pending keys are ordered by priority and then by id.
pub proof fn pending_keys_are_in_claim_order(
    queue: Seq<char>,
    p1: u32,
    id1: Seq<char>,
    p2: u32,
    id2: Seq<char>,
)
    ensures
        before(
            (RecordKeyView::Pending { queue, priority: p1, id: id1 }).encode(),
            (RecordKeyView::Pending { queue, priority: p2, id: id2 }).encode(),
        ) == (p1 < p2 || (p1 == p2 && before(encode_utf8(id1), encode_utf8(id2)))),
{
    pow256_values();
    let b1 = big_endian(p1 as nat, 4);
    let b2 = big_endian(p2 as nat, 4);
    let a = b1 + encode_utf8(id1);
    let b = b2 + encode_utf8(id2);
    before_after_common_prefix(seq![TAG_PENDING], name_field(queue) + a, name_field(queue) + b);
    before_after_common_prefix(name_field(queue), a, b);
    big_endian_keeps_order(p1 as nat, p2 as nat, 4);
    big_endian_len(p1 as nat, 4);
    big_endian_len(p2 as nat, 4);
    if p1 == p2 {
        before_after_common_prefix(b1, encode_utf8(id1), encode_utf8(id2));
    } else {
        before_by_leading_field(b1, b2, encode_utf8(id1), encode_utf8(id2));
    }
}

proof fn timed_keys_are_in_time_order(tag: u8, at1: u64, rest1: Seq<u8>, at2: u64, rest2: Seq<u8>)
    ensures
        at1 != at2 ==> before(
            seq![tag] + (big_endian(at1 as nat, 8) + rest1),
            seq![tag] + (big_endian(at2 as nat, 8) + rest2),
        ) == (at1 < at2),
{
    pow256_values();
    let b1 = big_endian(at1 as nat, 8);
    let b2 = big_endian(at2 as nat, 8);
    before_after_common_prefix(seq![tag], b1 + rest1, b2 + rest2);
    big_endian_keeps_order(at1 as nat, at2 as nat, 8);
    big_endian_len(at1 as nat, 8);
    big_endian_len(at2 as nat, 8);
    if at1 != at2 {
        before_by_leading_field(b1, b2, rest1, rest2);
    }
}

/// Scheduled keys are ordered by the time at which they become due, whatever
/// their queues and ids.
pub proof fn scheduled_keys_are_in_time_order(
    at1: u64,
    queue1: Seq<char>,
    id1: Seq<char>,
    at2: u64,
    queue2: Seq<char>,
    id2: Seq<char>,
)
    requires
        at1 != at2,
    ensures
        before(
            (RecordKeyView::Scheduled { run_at: at1, queue: queue1, id: id1 }).encode(),
            (RecordKeyView::Scheduled { run_at: at2, queue: queue2, id: id2 }).encode(),
        ) == (at1 < at2),
{
    timed_keys_are_in_time_order(
        TAG_SCHEDULED,
        at1,
        name_field(queue1) + encode_utf8(id1),
        at2,
        name_field(queue2) + encode_utf8(id2),
    );
}

/// Done keys are ordered by the time of completion, whatever their queues
/// and ids.
pub proof fn done_keys_are_in_time_order(
    at1: u64,
    queue1: Seq<char>,
    id1: Seq<char>,
    at2: u64,
    queue2: Seq<char>,
    id2: Seq<char>,
)
    requires
        at1 != at2,
    ensures
        before(
            (RecordKeyView::Done { completed_at: at1, queue: queue1, id: id1 }).encode(),
            (RecordKeyView::Done { completed_at: at2, queue: queue2, id: id2 }).encode(),
        ) == (at1 < at2),
{
    timed_keys_are_in_time_order(
        TAG_DONE,
        at1,
        name_field(queue1) + encode_utf8(id1),
        at2,
        name_field(queue2) + encode_utf8(id2),
    );
}

/// Within one queue, claimed keys and dead keys are ordered by id.
pub proof fn claimed_and_dead_keys_are_in_id_order(queue: Seq<char>, id1: Seq<char>, id2: Seq<char>)
    ensures
        before(
            (RecordKeyView::Claimed { queue, id: id1 }).encode(),
            (RecordKeyView::Claimed { queue, id: id2 }).encode(),
        ) == before(encode_utf8(id1), encode_utf8(id2)),
        before(
            (RecordKeyView::Dead { queue, id: id1 }).encode(),
            (RecordKeyView::Dead { queue, id: id2 }).encode(),
        ) == before(encode_utf8(id1), encode_utf8(id2)),
{
    let a = name_field(queue) + encode_utf8(id1);
    let b = name_field(queue) + encode_utf8(id2);
    before_after_common_prefix(seq![TAG_CLAIMED], a, b);
    before_after_common_prefix(seq![TAG_DEAD], a, b);
    before_after_common_prefix(name_field(queue), encode_utf8(id1), encode_utf8(id2));
}

/// Keys of the caller's space keep the order of the caller's keys.
pub proof fn user_keys_keep_their_order(a: Seq<u8>, b: Seq<u8>)
    ensures
        before((StoreKey::User { key: a }).encode(), (StoreKey::User { key: b }).encode())
            == before(a, b),
{
    before_after_common_prefix(seq![TAG_USER], a, b);
}

/// The prefix of one queue's keys in a key space grouped by queue.
pub open spec fn queue_prefix(tag: u8, queue: Seq<char>) -> Seq<u8> {
    seq![tag] + name_field(queue)
}

/// The prefix of a queue's pending, claimed or dead keys opens the keys of
/// that queue in that state and no others.
pub proof fn queue_prefix_selects_the_queue(tag: KeyTag, queue: Seq<char>, k: StoreKey)
    requires
        tag == KeyTag::Pending || tag == KeyTag::Claimed || tag == KeyTag::Dead,
        name_fits(queue),
        k.fits(),
    ensures
        starts_with(k.encode(), queue_prefix(tag.byte(), queue)) <==> {
            k.tag() == tag && k is Record && k->Record_0.queue() == queue
        },
{
    let prefix = queue_prefix(tag.byte(), queue);
    encoding_leads_with_tag(k);
    if k.tag() == tag && k is Record {
        let key = k->Record_0;
        let rest = match key {
            RecordKeyView::Pending { priority, id, .. } => big_endian(priority as nat, 4)
                + encode_utf8(id),
            _ => encode_utf8(key.id()),
        };
        assert(k.encode() =~= queue_prefix(tag.byte(), key.queue()) + rest);
        if key.queue() == queue {
            assert(k.encode().subrange(0, prefix.len() as int) =~= prefix);
        }
        if starts_with(k.encode(), prefix) {
            let after = k.encode().subrange(prefix.len() as int, k.encode().len() as int);
            assert(k.encode() =~= prefix + after);
            assert(seq![tag.byte()] + (name_field(queue) + after) =~= prefix + after);
            assert(seq![tag.byte()] + (name_field(key.queue()) + rest) =~= k.encode());
            tail_of(tag.byte(), name_field(queue) + after, name_field(key.queue()) + rest);
            name_field_is_injective(queue, key.queue(), after, rest);
        }
    }
    if starts_with(k.encode(), prefix) {
        assert(k.encode().subrange(0, prefix.len() as int)[0] == prefix[0]);
    }
}

/// A job's record place, as held and written by the queue.
#[derive(Debug)]
pub enum RecordKey {
    /// In claim order: by priority and then by id.
    Pending { queue: String, priority: u32, id: String },
    /// By the time at which the job becomes due.
    Scheduled { run_at: u64, queue: String, id: String },
    /// By queue and id.
    Claimed { queue: String, id: String },
    /// By the time of completion.
    Done { completed_at: u64, queue: String, id: String },
    /// By queue and id.
    Dead { queue: String, id: String },
}

impl View for RecordKey {
    type V = RecordKeyView;

    open spec fn view(&self) -> RecordKeyView {
        match self {
            RecordKey::Pending { queue, priority, id } => RecordKeyView::Pending {
                queue: queue@,
                priority: *priority,
                id: id@,
            },
            RecordKey::Scheduled { run_at, queue, id } => RecordKeyView::Scheduled {
                run_at: *run_at,
                queue: queue@,
                id: id@,
            },
            RecordKey::Claimed { queue, id } => RecordKeyView::Claimed { queue: queue@, id: id@ },
            RecordKey::Done { completed_at, queue, id } => RecordKeyView::Done {
                completed_at: *completed_at,
                queue: queue@,
                id: id@,
            },
            RecordKey::Dead { queue, id } => RecordKeyView::Dead { queue: queue@, id: id@ },
        }
    }
}

impl Clone for RecordKey {
    fn clone(&self) -> (r: RecordKey)
        ensures
            r@ == self@,
    {
        match self {
            RecordKey::Pending { queue, priority, id } => RecordKey::Pending {
                queue: queue.clone(),
                priority: *priority,
                id: id.clone(),
            },
            RecordKey::Scheduled { run_at, queue, id } => RecordKey::Scheduled {
                run_at: *run_at,
                queue: queue.clone(),
                id: id.clone(),
            },
            RecordKey::Claimed { queue, id } => RecordKey::Claimed {
                queue: queue.clone(),
                id: id.clone(),
            },
            RecordKey::Done { completed_at, queue, id } => RecordKey::Done {
                completed_at: *completed_at,
                queue: queue.clone(),
                id: id.clone(),
            },
            RecordKey::Dead { queue, id } => RecordKey::Dead {
                queue: queue.clone(),
                id: id.clone(),
            },
        }
    }
}

fn push_name(out: &mut Vec<u8>, queue: &str)
    requires
        name_fits(queue@),
    ensures
        final(out)@ == old(out)@ + name_field(queue@),
{
    let name = queue.as_bytes();
    out.push(name.len() as u8);
    out.extend_from_slice(name);
    assert(out@ =~= old(out)@ + name_field(queue@));
}

fn push_text(out: &mut Vec<u8>, text: &str)
    ensures
        final(out)@ == old(out)@ + encode_utf8(text@),
{
    out.extend_from_slice(text.as_bytes());
    assert(out@ =~= old(out)@ + encode_utf8(text@));
}

fn tagged(tag: u8) -> (r: Vec<u8>)
    ensures
        r@ == seq![tag],
{
    let mut out: Vec<u8> = Vec::new();
    out.push(tag);
    assert(out@ =~= seq![tag]);
    out
}

/// The prefix shared by every key of a key space.
pub fn tag_prefix(tag: KeyTag) -> (r: Vec<u8>)
    ensures
        r@ == seq![tag.byte()],
{
    tagged(tag.id())
}

/// The key of a pending record.
pub fn pending_key(queue: &str, priority: u32, id: &str) -> (r: Vec<u8>)
    requires
        name_fits(queue@),
    ensures
        r@ == (RecordKeyView::Pending { queue: queue@, priority, id: id@ }).encode(),
{
    let mut out = tagged(TAG_PENDING);
    push_name(&mut out, queue);
    push_big_endian(&mut out, priority as u64, 4);
    push_text(&mut out, id);
    assert(out@ =~= (RecordKeyView::Pending { queue: queue@, priority, id: id@ }).encode());
    out
}

/// The key of a scheduled record.
pub fn scheduled_key(queue: &str, run_at: u64, id: &str) -> (r: Vec<u8>)
    requires
        name_fits(queue@),
    ensures
        r@ == (RecordKeyView::Scheduled { run_at, queue: queue@, id: id@ }).encode(),
{
    let mut out = tagged(TAG_SCHEDULED);
    push_big_endian(&mut out, run_at, 8);
    push_name(&mut out, queue);
    push_text(&mut out, id);
    assert(out@ =~= (RecordKeyView::Scheduled { run_at, queue: queue@, id: id@ }).encode());
    out
}

/// The key of a claimed record.
pub fn claimed_key(queue: &str, id: &str) -> (r: Vec<u8>)
    requires
        name_fits(queue@),
    ensures
        r@ == (RecordKeyView::Claimed { queue: queue@, id: id@ }).encode(),
{
    let mut out = tagged(TAG_CLAIMED);
    push_name(&mut out, queue);
    push_text(&mut out, id);
    assert(out@ =~= (RecordKeyView::Claimed { queue: queue@, id: id@ }).encode());
    out
}

/// The key of a done record.
pub fn done_key(completed_at: u64, queue: &str, id: &str) -> (r: Vec<u8>)
    requires
        name_fits(queue@),
    ensures
        r@ == (RecordKeyView::Done { completed_at, queue: queue@, id: id@ }).encode(),
{
    let mut out = tagged(TAG_DONE);
    push_big_endian(&mut out, completed_at, 8);
    push_name(&mut out, queue);
    push_text(&mut out, id);
    assert(out@ =~= (RecordKeyView::Done { completed_at, queue: queue@, id: id@ }).encode());
    out
}

/// The key of a dead record.
pub fn dead_key(queue: &str, id: &str) -> (r: Vec<u8>)
    requires
        name_fits(queue@),
    ensures
        r@ == (RecordKeyView::Dead { queue: queue@, id: id@ }).encode(),
{
    let mut out = tagged(TAG_DEAD);
    push_name(&mut out, queue);
    push_text(&mut out, id);
    assert(out@ =~= (RecordKeyView::Dead { queue: queue@, id: id@ }).encode());
    out
}

/// The prefix of a queue's pending keys.
pub fn pending_prefix(queue: &str) -> (r: Vec<u8>)
    requires
        name_fits(queue@),
    ensures
        r@ == queue_prefix(TAG_PENDING, queue@),
{
    let mut out = tagged(TAG_PENDING);
    push_name(&mut out, queue);
    out
}

/// The prefix of a queue's claimed keys.
pub fn claimed_prefix(queue: &str) -> (r: Vec<u8>)
    requires
        name_fits(queue@),
    ensures
        r@ == queue_prefix(TAG_CLAIMED, queue@),
{
    let mut out = tagged(TAG_CLAIMED);
    push_name(&mut out, queue);
    out
}

/// The prefix of a queue's dead keys.
pub fn dead_prefix(queue: &str) -> (r: Vec<u8>)
    requires
        name_fits(queue@),
    ensures
        r@ == queue_prefix(TAG_DEAD, queue@),
{
    let mut out = tagged(TAG_DEAD);
    push_name(&mut out, queue);
    out
}

/// The key of the entry that locates a job's record.
pub fn job_index_key(id: &str) -> (r: Vec<u8>)
    ensures
        r@ == (StoreKey::Index { id: id@ }).encode(),
{
    let mut out = tagged(TAG_JOB_INDEX);
    push_text(&mut out, id);
    out
}

/// The key of a deduplication entry.
pub fn dedup_index_key(queue: &str, dedup_key: &str) -> (r: Vec<u8>)
    requires
        name_fits(queue@),
    ensures
        r@ == (StoreKey::Dedup { queue: queue@, dedup_key: dedup_key@ }).encode(),
{
    let mut out = tagged(TAG_DEDUP);
    push_name(&mut out, queue);
    push_text(&mut out, dedup_key);
    assert(out@ =~= (StoreKey::Dedup { queue: queue@, dedup_key: dedup_key@ }).encode());
    out
}

/// The key of a job's attempt history.
pub fn attempt_history_key(id: &str) -> (r: Vec<u8>)
    ensures
        r@ == (StoreKey::History { id: id@ }).encode(),
{
    let mut out = tagged(TAG_ATTEMPT_HISTORY);
    push_text(&mut out, id);
    out
}

/// The key of a queue's persisted claim cursor.
pub fn cursor_key(queue: &str) -> (r: Vec<u8>)
    requires
        name_fits(queue@),
    ensures
        r@ == (StoreKey::Cursor { queue: queue@ }).encode(),
{
    let mut out = tagged(TAG_CURSOR);
    push_name(&mut out, queue);
    out
}

/// The key of the writer's liveness beat.
pub fn heartbeat_key() -> (r: Vec<u8>)
    ensures
        r@ == StoreKey::Heartbeat.encode(),
{
    tagged(TAG_HEARTBEAT)
}

/// The key under which a key of the caller's space is stored.
pub fn user_scoped_key(key: &[u8]) -> (r: Vec<u8>)
    ensures
        r@ == (StoreKey::User { key: key@ }).encode(),
{
    let mut out = tagged(TAG_USER);
    out.extend_from_slice(key);
    assert(out@ =~= (StoreKey::User { key: key@ }).encode());
    out
}

/// The key of a queue's counter for one state.
pub fn stats_key(queue: &str, status: JobStatus) -> (r: Vec<u8>)
    requires
        name_fits(queue@),
    ensures
        r@ == (StoreKey::Stats { queue: queue@, status }).encode(),
{
    let mut out = tagged(TAG_STATS);
    push_name(&mut out, queue);
    push_text(&mut out, metric_name(status));
    assert(out@ =~= (StoreKey::Stats { queue: queue@, status }).encode());
    out
}

impl RecordKey {
    /// Whether the key can be encoded.
    pub fn fits(&self) -> (r: bool)
        ensures
            r == name_fits(self@.queue()),
    {
        match self {
            RecordKey::Pending { queue, .. } => queue_fits(queue.as_str()),
            RecordKey::Scheduled { queue, .. } => queue_fits(queue.as_str()),
            RecordKey::Claimed { queue, .. } => queue_fits(queue.as_str()),
            RecordKey::Done { queue, .. } => queue_fits(queue.as_str()),
            RecordKey::Dead { queue, .. } => queue_fits(queue.as_str()),
        }
    }

    /// The key as bytes.
    pub fn encode(&self) -> (r: Vec<u8>)
        requires
            name_fits(self@.queue()),
        ensures
            r@ == self@.encode(),
    {
        match self {
            RecordKey::Pending { queue, priority, id } => pending_key(
                queue.as_str(),
                *priority,
                id.as_str(),
            ),
            RecordKey::Scheduled { run_at, queue, id } => scheduled_key(
                queue.as_str(),
                *run_at,
                id.as_str(),
            ),
            RecordKey::Claimed { queue, id } => claimed_key(queue.as_str(), id.as_str()),
            RecordKey::Done { completed_at, queue, id } => done_key(
                *completed_at,
                queue.as_str(),
                id.as_str(),
            ),
            RecordKey::Dead { queue, id } => dead_key(queue.as_str(), id.as_str()),
        }
    }

    /// The lifecycle state of a job stored there.
    pub fn status(&self) -> (r: JobStatus)
        ensures
            r == self@.status(),
    {
        match self {
            RecordKey::Pending { .. } => JobStatus::Pending,
            RecordKey::Scheduled { .. } => JobStatus::Scheduled,
            RecordKey::Claimed { .. } => JobStatus::Claimed,
            RecordKey::Done { .. } => JobStatus::Done,
            RecordKey::Dead { .. } => JobStatus::Dead,
        }
    }

    /// Whether two places are the same.
    pub fn same(&self, other: &RecordKey) -> (r: bool)
        ensures
            r == (self@ == other@),
    {
        match (self, other) {
            (
                RecordKey::Pending { queue, priority, id },
                RecordKey::Pending { queue: q2, priority: p2, id: id2 },
            ) => *queue == *q2 && *priority == *p2 && *id == *id2,
            (
                RecordKey::Scheduled { run_at, queue, id },
                RecordKey::Scheduled { run_at: r2, queue: q2, id: id2 },
            ) => *run_at == *r2 && *queue == *q2 && *id == *id2,
            (RecordKey::Claimed { queue, id }, RecordKey::Claimed { queue: q2, id: id2 }) => *queue
                == *q2 && *id == *id2,
            (
                RecordKey::Done { completed_at, queue, id },
                RecordKey::Done { completed_at: c2, queue: q2, id: id2 },
            ) => *completed_at == *c2 && *queue == *q2 && *id == *id2,
            (RecordKey::Dead { queue, id }, RecordKey::Dead { queue: q2, id: id2 }) => *queue == *q2
                && *id == *id2,
            _ => false,
        }
    }
}

/// The queue name whose field starts at `at`, and the position after it.
fn take_name(bytes: &[u8], at: usize) -> (r: Option<(String, usize)>)
    requires
        at <= bytes@.len(),
    ensures
        r matches Some((queue, end)) ==> {
            &&& at <= end <= bytes@.len()
            &&& name_fits(queue@)
            &&& name_field(queue@) == bytes@.subrange(at as int, end as int)
        },
        r is None ==> forall|queue: Seq<char>, rest: Seq<u8>|
            name_fits(queue) ==> bytes@.subrange(at as int, bytes@.len() as int) != #[trigger] (
            name_field(queue) + rest),
{
    let ghost tail = bytes@.subrange(at as int, bytes@.len() as int);
    if at == bytes.len() {
        proof {
            assert forall|queue: Seq<char>, rest: Seq<u8>| name_fits(queue) implies tail
                != #[trigger] (name_field(queue) + rest) by {
                assert((name_field(queue) + rest).len() > 0);
            }
        }
        return None;
    }
    let len: usize = bytes[at] as usize;
    let start: usize = at + 1;
    if bytes.len() - start < len {
        proof {
            assert forall|queue: Seq<char>, rest: Seq<u8>| name_fits(queue) implies tail
                != #[trigger] (name_field(queue) + rest) by {
                let whole = name_field(queue) + rest;
                if tail == whole {
                    assert(whole[0] == encode_utf8(queue).len() as u8);
                    assert(tail[0] == bytes@[at as int]);
                    assert(whole.len() >= 1 + encode_utf8(queue).len());
                }
            }
        }
        return None;
    }
    let end: usize = start + len;
    let name = copy_range(bytes, start, end);
    let ghost raw = name@;
    match text_from_utf8(name) {
        Some(queue) => {
            assert(name_field(queue@) =~= bytes@.subrange(at as int, end as int));
            Some((queue, end))
        },
        None => {
            proof {
                assert forall|queue: Seq<char>, rest: Seq<u8>| name_fits(queue) implies tail
                    != #[trigger] (name_field(queue) + rest) by {
                    let whole = name_field(queue) + rest;
                    if tail == whole {
                        assert(whole[0] == encode_utf8(queue).len() as u8);
                        assert(tail[0] == bytes@[at as int]);
                        assert(raw =~= tail.subrange(1, 1 + len as int));
                        assert(encode_utf8(queue) =~= whole.subrange(1, 1 + len as int));
                        encode_utf8_valid_utf8(queue);
                    }
                }
            }
            None
        },
    }
}

/// The text from `at` to the end.
fn take_text(bytes: &[u8], at: usize) -> (r: Option<String>)
    requires
        at <= bytes@.len(),
    ensures
        r matches Some(text) ==> encode_utf8(text@) == bytes@.subrange(
            at as int,
            bytes@.len() as int,
        ),
        r is None ==> forall|text: Seq<char>|
            bytes@.subrange(at as int, bytes@.len() as int) != #[trigger] encode_utf8(text),
{
    let rest = copy_range(bytes, at, bytes.len());
    let ghost raw = rest@;
    match text_from_utf8(rest) {
        Some(text) => Some(text),
        None => {
            proof {
                assert forall|text: Seq<char>| raw != #[trigger] encode_utf8(text) by {
                    encode_utf8_valid_utf8(text);
                }
            }
            None
        },
    }
}

/// The queue name and the text after it that make up the bytes from `at` on.
fn take_named(bytes: &[u8], at: usize) -> (r: Option<(String, String)>)
    requires
        at <= bytes@.len(),
    ensures
        r matches Some((queue, text)) ==> name_fits(queue@) && bytes@.subrange(
            at as int,
            bytes@.len() as int,
        ) == name_field(queue@) + encode_utf8(text@),
        r is None ==> forall|queue: Seq<char>, text: Seq<char>|
            name_fits(queue) ==> bytes@.subrange(at as int, bytes@.len() as int) != #[trigger] (
            name_field(queue) + encode_utf8(text)),
{
    let ghost tail = bytes@.subrange(at as int, bytes@.len() as int);
    match take_name(bytes, at) {
        None => None,
        Some((queue, end)) => {
            let ghost rest = bytes@.subrange(end as int, bytes@.len() as int);
            proof {
                assert(tail =~= name_field(queue@) + rest);
            }
            match take_text(bytes, end) {
                Some(text) => Some((queue, text)),
                None => {
                    proof {
                        assert forall|q: Seq<char>, text: Seq<char>| name_fits(q) implies tail
                            != #[trigger] (name_field(q) + encode_utf8(text)) by {
                            if tail == name_field(q) + encode_utf8(text) {
                                name_field_is_injective(queue@, q, rest, encode_utf8(text));
                            }
                        }
                    }
                    None
                },
            }
        },
    }
}

/// The queue and the metric of a stats key.
pub fn parse_stats_key(key: &[u8]) -> (r: Option<(String, String)>)
    ensures
        r matches Some((queue, metric)) ==> name_fits(queue@) && key@ == seq![TAG_STATS] + (
        name_field(queue@) + encode_utf8(metric@)),
        r is None ==> forall|queue: Seq<char>, metric: Seq<char>|
            name_fits(queue) ==> key@ != seq![TAG_STATS] + #[trigger] (name_field(queue)
                + encode_utf8(metric)),
{
    if key.len() == 0 || key[0] != TAG_STATS {
        proof {
            assert forall|queue: Seq<char>, metric: Seq<char>| name_fits(queue) implies key@
                != seq![TAG_STATS] + #[trigger] (name_field(queue) + encode_utf8(metric)) by {
                let whole = seq![TAG_STATS] + (name_field(queue) + encode_utf8(metric));
                assert(whole.len() > 0 && whole[0] == TAG_STATS);
            }
        }
        return None;
    }
    let ghost tail = key@.subrange(1, key@.len() as int);
    proof {
        assert(key@ =~= seq![TAG_STATS] + tail);
    }
    let parsed = take_named(key, 1);
    proof {
        if parsed is None {
            assert forall|queue: Seq<char>, metric: Seq<char>| name_fits(queue) implies key@
                != seq![TAG_STATS] + #[trigger] (name_field(queue) + encode_utf8(metric)) by {
                if key@ == seq![TAG_STATS] + (name_field(queue) + encode_utf8(metric)) {
                    tail_of(TAG_STATS, tail, name_field(queue) + encode_utf8(metric));
                }
            }
        }
    }
    parsed
}

/// What follows the tag of an encoded place.
spec fn record_tail(k: RecordKeyView) -> Seq<u8> {
    match k {
        RecordKeyView::Pending { queue, priority, id } => name_field(queue) + (big_endian(
            priority as nat,
            4,
        ) + encode_utf8(id)),
        RecordKeyView::Scheduled { run_at, queue, id } => big_endian(run_at as nat, 8) + (
        name_field(queue) + encode_utf8(id)),
        RecordKeyView::Claimed { queue, id } => name_field(queue) + encode_utf8(id),
        RecordKeyView::Done { completed_at, queue, id } => big_endian(completed_at as nat, 8) + (
        name_field(queue) + encode_utf8(id)),
        RecordKeyView::Dead { queue, id } => name_field(queue) + encode_utf8(id),
    }
}

proof fn record_encoding_parts(k: RecordKeyView, bytes: Seq<u8>)
    requires
        bytes.len() > 0,
        k.encode() == bytes,
    ensures
        bytes[0] == StoreKey::Record(k).tag().byte(),
        bytes.subrange(1, bytes.len() as int) == record_tail(k),
{
    encoding_leads_with_tag(StoreKey::Record(k));
    assert(k.encode() =~= seq![bytes[0]] + record_tail(k));
    assert(k.encode().subrange(1, bytes.len() as int) =~= record_tail(k));
}

impl RecordKey {
    /// The place that `bytes` is the key of.
    pub fn decode(bytes: &[u8]) -> (r: Option<RecordKey>)
        ensures
            r matches Some(k) ==> name_fits(k@.queue()) && k@.encode() == bytes@,
            r is None ==> forall|k: RecordKeyView|
                name_fits(k.queue()) ==> #[trigger] k.encode() != bytes@,
    {
        if bytes.len() == 0 {
            proof {
                assert forall|k: RecordKeyView| name_fits(k.queue()) implies #[trigger] k.encode()
                    != bytes@ by {
                    encoding_leads_with_tag(StoreKey::Record(k));
                }
            }
            return None;
        }
        let tag: u8 = bytes[0];
        let ghost tail = bytes@.subrange(1, bytes@.len() as int);
        proof {
            assert(bytes@ =~= seq![tag] + tail);
        }
        let decoded = if tag == TAG_PENDING {
            RecordKey::decode_pending(bytes)
        } else if tag == TAG_CLAIMED || tag == TAG_DEAD {
            match take_named(bytes, 1) {
                Some((queue, id)) => if tag == TAG_CLAIMED {
                    Some(RecordKey::Claimed { queue, id })
                } else {
                    Some(RecordKey::Dead { queue, id })
                },
                None => None,
            }
        } else if tag == TAG_SCHEDULED || tag == TAG_DONE {
            RecordKey::decode_timed(bytes)
        } else {
            None
        };
        proof {
            if decoded is None {
                assert forall|k: RecordKeyView| name_fits(k.queue()) implies #[trigger] k.encode()
                    != bytes@ by {
                    if k.encode() == bytes@ {
                        record_encoding_parts(k, bytes@);
                    }
                }
            }
        }
        decoded
    }

    fn decode_pending(bytes: &[u8]) -> (r: Option<RecordKey>)
        requires
            bytes@.len() > 0,
            bytes@[0] == TAG_PENDING,
        ensures
            r matches Some(k) ==> name_fits(k@.queue()) && k@.encode() == bytes@,
            r is None ==> forall|queue: Seq<char>, priority: u32, id: Seq<char>|
                name_fits(queue) ==> bytes@.subrange(1, bytes@.len() as int) != #[trigger] (
                name_field(queue) + (big_endian(priority as nat, 4) + encode_utf8(id))),
    {
        let ghost tail = bytes@.subrange(1, bytes@.len() as int);
        proof {
            assert(bytes@ =~= seq![TAG_PENDING] + tail);
        }
        match take_name(bytes, 1) {
            None => None,
            Some((queue, end)) => {
                let ghost rest = bytes@.subrange(end as int, bytes@.len() as int);
                proof {
                    assert(tail =~= name_field(queue@) + rest);
                }
                if bytes.len() - end < 4 {
                    proof {
                        assert forall|q: Seq<char>, priority: u32, id: Seq<char>| name_fits(
                            q,
                        ) implies tail != #[trigger] (name_field(q) + (big_endian(
                            priority as nat,
                            4,
                        ) + encode_utf8(id))) by {
                            let r2 = big_endian(priority as nat, 4) + encode_utf8(id);
                            big_endian_len(priority as nat, 4);
                            if tail == name_field(q) + r2 {
                                name_field_is_injective(queue@, q, rest, r2);
                            }
                        }
                    }
                    return None;
                }
                let field = copy_range(bytes, end, end + 4);
                let wide: u64 = read_big_endian(field.as_slice());
                proof {
                    from_big_endian_round_trip(field@);
                    pow256_values();
                }
                let priority: u32 = wide as u32;
                let ghost after = bytes@.subrange(end + 4, bytes@.len() as int);
                proof {
                    assert(rest =~= field@ + after);
                }
                match take_text(bytes, end + 4) {
                    Some(id) => {
                        assert(bytes@ =~= (RecordKeyView::Pending {
                            queue: queue@,
                            priority,
                            id: id@,
                        }).encode());
                        Some(RecordKey::Pending { queue, priority, id })
                    },
                    None => {
                        proof {
                            assert forall|q: Seq<char>, p: u32, id: Seq<char>| name_fits(
                                q,
                            ) implies tail != #[trigger] (name_field(q) + (big_endian(p as nat, 4)
                                + encode_utf8(id))) by {
                                let r2 = big_endian(p as nat, 4) + encode_utf8(id);
                                big_endian_len(p as nat, 4);
                                if tail == name_field(q) + r2 {
                                    name_field_is_injective(queue@, q, rest, r2);
                                    concat_is_injective(
                                        field@,
                                        big_endian(p as nat, 4),
                                        after,
                                        encode_utf8(id),
                                    );
                                }
                            }
                        }
                        None
                    },
                }
            },
        }
    }

    fn decode_timed(bytes: &[u8]) -> (r: Option<RecordKey>)
        requires
            bytes@.len() > 0,
            bytes@[0] == TAG_SCHEDULED || bytes@[0] == TAG_DONE,
        ensures
            r matches Some(k) ==> name_fits(k@.queue()) && k@.encode() == bytes@,
            r is None ==> forall|at: u64, queue: Seq<char>, id: Seq<char>|
                name_fits(queue) ==> bytes@.subrange(1, bytes@.len() as int) != #[trigger] (
                big_endian(at as nat, 8) + (name_field(queue) + encode_utf8(id))),
    {
        let ghost tail = bytes@.subrange(1, bytes@.len() as int);
        proof {
            assert(bytes@ =~= seq![bytes@[0]] + tail);
        }
        if bytes.len() < 9 {
            proof {
                assert forall|at: u64, queue: Seq<char>, id: Seq<char>| name_fits(
                    queue,
                ) implies tail != #[trigger] (big_endian(at as nat, 8) + (name_field(queue)
                    + encode_utf8(id))) by {
                    big_endian_len(at as nat, 8);
                    assert((big_endian(at as nat, 8) + (name_field(queue) + encode_utf8(id))).len()
                        >= 8);
                }
            }
            return None;
        }
        let field = copy_range(bytes, 1, 9);
        let at: u64 = read_big_endian(field.as_slice());
        let ghost after = bytes@.subrange(9, bytes@.len() as int);
        proof {
            from_big_endian_round_trip(field@);
            pow256_values();
            assert(tail =~= field@ + after);
        }
        match take_named(bytes, 9) {
            Some((queue, id)) => if bytes[0] == TAG_SCHEDULED {
                assert(bytes@ =~= (RecordKeyView::Scheduled {
                    run_at: at,
                    queue: queue@,
                    id: id@,
                }).encode());
                Some(RecordKey::Scheduled { run_at: at, queue, id })
            } else {
                assert(bytes@ =~= (RecordKeyView::Done {
                    completed_at: at,
                    queue: queue@,
                    id: id@,
                }).encode());
                Some(RecordKey::Done { completed_at: at, queue, id })
            },
            None => {
                proof {
                    assert forall|t: u64, queue: Seq<char>, id: Seq<char>| name_fits(
                        queue,
                    ) implies tail != #[trigger] (big_endian(t as nat, 8) + (name_field(queue)
                        + encode_utf8(id))) by {
                        let r2 = name_field(queue) + encode_utf8(id);
                        big_endian_len(t as nat, 8);
                        if tail == big_endian(t as nat, 8) + r2 {
                            concat_is_injective(field@, big_endian(t as nat, 8), after, r2);
                        }
                    }
                }
                None
            },
        }
    }
}

/// The time that leads a key of the given time-ordered key space.
pub open spec fn key_timestamp(key: Seq<u8>, tag: KeyTag) -> Option<nat> {
    if key.len() >= 9 && key[0] == tag.byte() {
        Some(from_big_endian(key.subrange(1, 9)))
    } else {
        None
    }
}

/// The time that leads a key of the given time-ordered key space, or `None`
/// for a key of another space or one too short to hold a time.
pub fn parse_key_timestamp(key: &[u8], tag: KeyTag) -> (r: Option<u64>)
    ensures
        match r {
            Some(at) => key_timestamp(key@, tag) == Some(at as nat),
            None => key_timestamp(key@, tag) is None,
        },
{
    if key.len() < 9 || key[0] != tag.id() {
        return None;
    }
    let field = copy_range(key, 1, 9);
    Some(read_big_endian(field.as_slice()))
}

/// The time read back from a scheduled or done key is the one it was made
/// with.
pub proof fn key_timestamp_reads_the_time(k: RecordKeyView)
    ensures
        match k {
            RecordKeyView::Scheduled { run_at, .. } => key_timestamp(
                k.encode(),
                KeyTag::Scheduled,
            ) == Some(run_at as nat),
            RecordKeyView::Done { completed_at, .. } => key_timestamp(k.encode(), KeyTag::Done)
                == Some(completed_at as nat),
            _ => key_timestamp(k.encode(), KeyTag::Scheduled) is None && key_timestamp(
                k.encode(),
                KeyTag::Done,
            ) is None,
        },
{
    pow256_values();
    match k {
        RecordKeyView::Scheduled { run_at, .. } => {
            big_endian_len(run_at as nat, 8);
            big_endian_round_trip(run_at as nat, 8);
            assert(k.encode().subrange(1, 9) =~= big_endian(run_at as nat, 8));
        },
        RecordKeyView::Done { completed_at, .. } => {
            big_endian_len(completed_at as nat, 8);
            big_endian_round_trip(completed_at as nat, 8);
            assert(k.encode().subrange(1, 9) =~= big_endian(completed_at as nat, 8));
        },
        _ => {
            encoding_leads_with_tag(StoreKey::Record(k));
        },
    }
}

/// Whether a queue name fits the one-byte length field.
pub fn queue_fits(queue: &str) -> (r: bool)
    ensures
        r == name_fits(queue@),
{
    queue.as_bytes().len() <= MAX_QUEUE_NAME_LEN
}

/// Refuses a queue name that the key layout cannot hold.
pub fn validate_queue_name(queue: &str) -> (r: Result<(), Error>)
    ensures
        r is Ok <==> name_fits(queue@),
        r matches Err(e) ==> e@ == (ErrorView::InvalidQueueName {
            queue: queue@,
            reason: "queue name exceeds the maximum length of 255 bytes"@,
        }),
{
    if !queue_fits(queue) {
        return Err(
            Error::InvalidQueueName {
                queue: queue.to_owned(),
                reason: "queue name exceeds the maximum length of 255 bytes",
            },
        );
    }
    Ok(())
}

} // verus!

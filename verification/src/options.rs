//! Configuration of queues, options of a single enqueue, and the checks that
//! apply to what callers supply.

use crate::assoc::{
    distinct_keys, has_key, to_map, to_map_domain, to_map_len, to_map_push, to_map_update,
    to_map_value,
};
use crate::bytes::same_text;
use crate::error::{Error, ErrorView};
use crate::store::entry;
use crate::time::{shorter, Duration, UnixTime, MAX_NANOS, NANOS_PER_SEC};
use vstd::arithmetic::power2::{lemma2_to64, lemma_pow2_strictly_increases, lemma_pow2_unfold, pow2};
use vstd::prelude::*;
use vstd::utf8::encode_utf8;

verus! {

/// Attempts before a job is dead-lettered, unless configured otherwise.
pub const DEFAULT_MAX_ATTEMPTS: u32 = 3;

/// Seconds a lease lasts, unless configured otherwise.
pub const DEFAULT_LEASE_SECS: u64 = 30;

/// Priority of jobs that are claimed before normal and low ones.
pub const PRIORITY_HIGH: u32 = 100;

/// Default priority. Jobs of one priority are claimed in enqueue order.
pub const PRIORITY_NORMAL: u32 = 1_000;

/// Priority of jobs that are claimed after high and normal ones.
pub const PRIORITY_LOW: u32 = 10_000;

/// Largest value in bytes that the caller's key space takes.
pub const MAX_KV_VALUE_SIZE: usize = 262_144;

/// Payloads larger than this are stored as objects of their own, unless
/// configured otherwise.
pub const DEFAULT_PAYLOAD_OFFLOAD_THRESHOLD: usize = 262_144;

/// Largest caller-supplied job id in bytes.
pub const MAX_ID_OVERRIDE_LEN: usize = 128;

/// Configuration of one queue, or of every queue without one of its own.
#[derive(Clone, Copy, Debug, PartialEq, Eq, Structural)]
pub struct QueueConfig {
    /// Claims after which a failure dead-letters a job. A job interrupted by
    /// a restart is requeued, and its next claim counts.
    pub max_attempts: u32,
    /// How long a lease lasts.
    pub lease_duration: Duration,
    /// Priority of jobs enqueued without one; lower is claimed first.
    pub default_priority: u32,
    /// Delay before the first retry; doubled for each further one. Zero
    /// requeues at once.
    pub retry_backoff_base: Duration,
    /// Longest delay before a retry.
    pub retry_backoff_max: Duration,
    /// How long acknowledged jobs are kept; `None` drops them.
    pub keep_done_jobs: Option<Duration>,
    /// How long dead jobs are kept; `None` keeps them for good.
    pub dead_retention: Option<Duration>,
}

impl Default for QueueConfig {
    fn default() -> (r: QueueConfig)
        ensures
            r.max_attempts == 3,
            r.lease_duration@ == 30 * NANOS_PER_SEC,
            r.default_priority == PRIORITY_NORMAL,
            r.retry_backoff_base@ == NANOS_PER_SEC,
            r.retry_backoff_max@ == 300 * NANOS_PER_SEC,
            r.keep_done_jobs is None,
            r.dead_retention matches Some(d) && d@ == 7 * 24 * 3600 * NANOS_PER_SEC,
    {
        QueueConfig {
            max_attempts: DEFAULT_MAX_ATTEMPTS,
            lease_duration: Duration::from_secs(DEFAULT_LEASE_SECS),
            default_priority: PRIORITY_NORMAL,
            retry_backoff_base: Duration::from_secs(1),
            retry_backoff_max: Duration::from_secs(300),
            keep_done_jobs: None,
            dead_retention: Some(Duration::from_secs(604_800)),
        }
    }
}

/// The configurations of an open store: a default, and overrides by queue
/// name.
#[derive(Debug)]
pub struct QueueConfigs {
    default: QueueConfig,
    per_queue: Vec<(String, QueueConfig)>,
}

/// A list of overrides by the text of their queue names.
pub open spec fn config_pairs(entries: Seq<(String, QueueConfig)>) -> Seq<
    (Seq<char>, QueueConfig),
> {
    Seq::new(entries.len(), |i: int| (entries[i].0@, entries[i].1))
}

impl QueueConfigs {
    #[verifier::type_invariant]
    spec fn inv(self) -> bool {
        distinct_keys(config_pairs(self.per_queue@))
    }

    /// The configuration of queues without an override.
    pub closed spec fn fallback(self) -> QueueConfig {
        self.default
    }

    /// The overrides.
    pub closed spec fn overrides(self) -> Map<Seq<char>, QueueConfig> {
        to_map(config_pairs(self.per_queue@))
    }

    /// The configuration of a queue.
    pub open spec fn config(self, queue: Seq<char>) -> QueueConfig {
        match entry(self.overrides(), queue) {
            Some(config) => config,
            None => self.fallback(),
        }
    }

    /// Whether `list` is the default and then the override of each of `queues`,
    /// which are the queues that have one, each once.
    pub open spec fn lists(self, queues: Seq<Seq<char>>, list: Seq<QueueConfig>) -> bool {
        &&& queues.no_duplicates()
        &&& queues.to_set() == self.overrides().dom()
        &&& list.len() == 1 + queues.len()
        &&& list[0] == self.fallback()
        &&& forall|i: int|
            0 <= i < queues.len() ==> #[trigger] list[i + 1] == self.overrides()[queues[i]]
    }

    /// Whether some queue's override is `config`.
    pub open spec fn is_override(self, config: QueueConfig) -> bool {
        exists|queue: Seq<char>| #[trigger]
            self.overrides().contains_key(queue) && self.overrides()[queue] == config
    }

    /// Configurations from a default and a list of overrides; of two
    /// overrides of one queue the later counts.
    pub fn new(default: QueueConfig, per_queue: Vec<(String, QueueConfig)>) -> (r: QueueConfigs)
        ensures
            r.fallback() == default,
            r.overrides() == to_map(config_pairs(per_queue@)),
    {
        let mut kept: Vec<(String, QueueConfig)> = Vec::new();
        let ghost all = config_pairs(per_queue@);
        let mut i: usize = 0;
        proof {
            assert(config_pairs(kept@) =~= Seq::empty());
            assert(all.subrange(0, 0) =~= Seq::empty());
        }
        while i < per_queue.len()
            invariant
                0 <= i <= per_queue@.len(),
                all == config_pairs(per_queue@),
                distinct_keys(config_pairs(kept@)),
                to_map(config_pairs(kept@)) == to_map(all.subrange(0, i as int)),
            decreases per_queue@.len() - i,
        {
            let ghost before = config_pairs(kept@);
            let config = per_queue[i].1;
            proof {
                assert(all.subrange(0, i + 1) =~= all.subrange(0, i as int).push(all[i as int]));
                to_map_push(all.subrange(0, i as int), all[i as int].0, all[i as int].1);
            }
            match Self::position(&kept, per_queue[i].0.as_str()) {
                Some(j) => {
                    let name = kept[j].0.clone();
                    kept.set(j, (name, config));
                    proof {
                        to_map_update(before, j as int, config);
                        assert(config_pairs(kept@) =~= before.update(
                            j as int,
                            (before[j as int].0, config),
                        ));
                    }
                },
                None => {
                    kept.push((per_queue[i].0.clone(), config));
                    proof {
                        to_map_push(before, per_queue@[i as int].0@, config);
                        assert(config_pairs(kept@) =~= before.push(
                            (per_queue@[i as int].0@, config),
                        ));
                    }
                },
            }
            i += 1;
        }
        proof {
            assert(all.subrange(0, i as int) =~= all);
        }
        QueueConfigs { default, per_queue: kept }
    }

    fn position(entries: &Vec<(String, QueueConfig)>, queue: &str) -> (r: Option<usize>)
        ensures
            match r {
                Some(i) => i < entries@.len() && entries@[i as int].0@ == queue@,
                None => !has_key(config_pairs(entries@), queue@),
            },
    {
        let ghost pairs = config_pairs(entries@);
        let mut i: usize = 0;
        while i < entries.len()
            invariant
                0 <= i <= entries@.len(),
                pairs == config_pairs(entries@),
                forall|j: int| 0 <= j < i ==> (#[trigger] pairs[j]).0 != queue@,
            decreases entries@.len() - i,
        {
            if same_text(entries[i].0.as_str(), queue) {
                return Some(i);
            }
            i += 1;
        }
        None
    }

    /// The configuration of a queue: its override, or the default.
    pub fn get(&self, queue: &str) -> (r: &QueueConfig)
        ensures
            *r == self.config(queue@),
    {
        proof {
            use_type_invariant(self);
            to_map_domain(config_pairs(self.per_queue@), queue@);
        }
        match Self::position(&self.per_queue, queue) {
            Some(i) => {
                proof {
                    to_map_value(config_pairs(self.per_queue@), i as int);
                }
                &self.per_queue[i].1
            },
            None => &self.default,
        }
    }

    /// The default and every override, each once.
    pub fn iter(&self) -> (r: Vec<QueueConfig>)
        ensures
            self.overrides().dom().finite(),
            r@.len() == 1 + self.overrides().dom().len(),
            exists|queues: Seq<Seq<char>>| self.lists(queues, r@),
            r@.len() >= 1,
            r@[0] == self.fallback(),
            forall|i: int| 1 <= i < r@.len() ==> self.is_override(#[trigger] r@[i]),
            forall|queue: Seq<char>| #[trigger]
                self.overrides().contains_key(queue) ==> exists|i: int|
                    1 <= i < r@.len() && #[trigger] r@[i] == self.overrides()[queue],
    {
        let ghost pairs = config_pairs(self.per_queue@);
        proof {
            use_type_invariant(self);
        }
        let mut out: Vec<QueueConfig> = Vec::new();
        out.push(self.default);
        let mut i: usize = 0;
        while i < self.per_queue.len()
            invariant
                0 <= i <= self.per_queue@.len(),
                pairs == config_pairs(self.per_queue@),
                out@.len() == i + 1,
                out@[0] == self.default,
                forall|j: int| 0 <= j < i ==> #[trigger] out@[j + 1] == pairs[j].1,
            decreases self.per_queue@.len() - i,
        {
            out.push(self.per_queue[i].1);
            i += 1;
        }
        proof {
            to_map_len(pairs);
            let queues = Seq::new(pairs.len(), |j: int| pairs[j].0);
            assert forall|a: int, b: int|
                0 <= a < queues.len() && 0 <= b < queues.len() && a != b implies queues[a]
                != queues[b] by {
                if a < b {
                    assert(pairs[a].0 != pairs[b].0);
                } else {
                    assert(pairs[b].0 != pairs[a].0);
                }
            }
            assert forall|queue: Seq<char>| #[trigger]
                queues.to_set().contains(queue) == self.overrides().dom().contains(queue) by {
                to_map_domain(pairs, queue);
                if has_key(pairs, queue) {
                    let j = choose|j: int| 0 <= j < pairs.len() && pairs[j].0 == queue;
                    assert(queues[j] == queue);
                }
                if queues.contains(queue) {
                    let j = choose|j: int| 0 <= j < queues.len() && queues[j] == queue;
                    assert(pairs[j].0 == queue);
                }
            }
            assert(queues.to_set() =~= self.overrides().dom());
            assert forall|j: int| 0 <= j < queues.len() implies #[trigger] out@[j + 1]
                == self.overrides()[queues[j]] by {
                to_map_value(pairs, j);
            }
            assert(self.lists(queues, out@));
            assert forall|j: int| 1 <= j < out@.len() implies self.is_override(
                #[trigger] out@[j],
            ) by {
                to_map_value(pairs, j - 1);
                assert(out@[(j - 1) + 1] == pairs[j - 1].1);
                assert(self.overrides().contains_key(pairs[j - 1].0));
            }
            assert forall|queue: Seq<char>| #[trigger]
                self.overrides().contains_key(queue) implies exists|j: int|
                1 <= j < out@.len() && #[trigger] out@[j] == self.overrides()[queue] by {
                to_map_domain(pairs, queue);
                let j = choose|j: int| 0 <= j < pairs.len() && pairs[j].0 == queue;
                to_map_value(pairs, j);
                assert(out@[j + 1] == pairs[j].1);
            }
        }
        out
    }
}

/// The factor of the base delay after the given number of attempts: two to
/// the power `attempts - 1`, and one before the first.
pub open spec fn backoff_factor(attempts: u32) -> nat {
    if attempts == 0 {
        1
    } else {
        pow2((attempts - 1) as nat)
    }
}

/// The delay in nanoseconds before the retry that follows the given number
/// of attempts: `min(base * 2^(attempts - 1), max)`.
pub open spec fn backoff_nanos(attempts: u32, base: nat, max: nat) -> nat {
    shorter(base * backoff_factor(attempts), max)
}

/// The delay before the retry that follows the given number of attempts. It is
/// doubled until it reaches the limit.
pub fn backoff_delay(attempts: u32, base: Duration, max: Duration) -> (r: Duration)
    ensures
        r@ == backoff_nanos(attempts, base@, max@),
{
    if base.is_zero() {
        return Duration::zero();
    }
    let limit: u128 = max.as_nanos();
    let mut nanos: u128 = base.as_nanos();
    let mut n: u32 = 1;
    proof {
        lemma2_to64();
        assert(base@ * pow2(0) == base@) by (nonlinear_arith)
            requires
                pow2(0) == 1,
        ;
    }
    while n < attempts && nanos < limit
        invariant
            1 <= n,
            n <= attempts || n == 1,
            limit == max@,
            limit <= MAX_NANOS,
            nanos == base@ * pow2((n - 1) as nat),
        decreases attempts - n,
    {
        proof {
            lemma_pow2_unfold(n as nat);
            let p = pow2((n - 1) as nat);
            assert(base@ * (2 * p) == 2 * (base@ * p)) by (nonlinear_arith);
        }
        nanos = nanos * 2;
        n += 1;
    }
    proof {
        let top: u32 = if attempts == 0 {
            1
        } else {
            attempts
        };
        backoff_factor_grows(n, top);
        assert(base@ * backoff_factor(n) <= base@ * backoff_factor(top)) by (nonlinear_arith)
            requires
                backoff_factor(n) <= backoff_factor(top),
        ;
    }
    if nanos >= limit {
        max
    } else {
        match Duration::from_nanos(nanos) {
            Some(delay) => delay,
            None => max,
        }
    }
}

/// The delay never shrinks as attempts add up, never exceeds `max`, and is
/// the base delay after the first attempt unless `max` is shorter.
pub proof fn backoff_grows_up_to_its_limit(a: u32, b: u32, base: nat, max: nat)
    requires
        a <= b,
    ensures
        backoff_nanos(a, base, max) <= backoff_nanos(b, base, max) <= max,
        backoff_nanos(1, base, max) == shorter(base, max),
{
    lemma2_to64();
    assert(base * pow2(0) == base) by (nonlinear_arith)
        requires
            pow2(0) == 1,
    ;
    backoff_factor_grows(a, b);
    assert(base * backoff_factor(a) <= base * backoff_factor(b)) by (nonlinear_arith)
        requires
            backoff_factor(a) <= backoff_factor(b),
    ;
}

proof fn backoff_factor_grows(a: u32, b: u32)
    requires
        a <= b,
    ensures
        backoff_factor(a) <= backoff_factor(b),
{
    lemma2_to64();
    let x: nat = if a == 0 {
        0
    } else {
        (a - 1) as nat
    };
    let y: nat = if b == 0 {
        0
    } else {
        (b - 1) as nat
    };
    if x < y {
        lemma_pow2_strictly_increases(x, y);
    }
}

/// Each further attempt doubles the delay until it reaches the limit.
pub proof fn backoff_doubles(attempts: u32, base: nat, max: nat)
    requires
        1 <= attempts < u32::MAX,
    ensures
        backoff_nanos((attempts + 1) as u32, base, max) == shorter(
            2 * (base * backoff_factor(attempts)),
            max,
        ),
{
    lemma_pow2_unfold(attempts as nat);
    let f = backoff_factor(attempts);
    assert(backoff_factor((attempts + 1) as u32) == 2 * f);
    assert(base * (2 * f) == 2 * (base * f)) by (nonlinear_arith);
}

/// Options of one enqueue; `None` takes the queue's configured value.
#[derive(Debug)]
pub struct EnqueueOptions {
    /// Attempts before the job is dead-lettered.
    pub max_attempts: Option<u32>,
    /// Priority; lower is claimed first.
    pub priority: Option<u32>,
    /// Earliest time at which the job may be claimed; one that has passed
    /// enqueues the job as pending.
    pub run_at: Option<UnixTime>,
    /// Blocks creation while a pending or scheduled job of the queue has the
    /// same key.
    pub dedup_key: Option<String>,
    /// Metadata to attach to the job.
    pub headers: Vec<(String, String)>,
    /// Id to use in place of a generated one: 1 to 128 bytes of
    /// `[A-Za-z0-9_-]`.
    pub id_override: Option<String>,
}

impl Default for EnqueueOptions {
    fn default() -> (r: EnqueueOptions)
        ensures
            r.max_attempts is None,
            r.priority is None,
            r.run_at is None,
            r.dedup_key is None,
            r.headers@.len() == 0,
            r.id_override is None,
    {
        EnqueueOptions {
            max_attempts: None,
            priority: None,
            run_at: None,
            dedup_key: None,
            headers: Vec::new(),
            id_override: None,
        }
    }
}

/// One enqueue carried by [`SettlementEffects`].
#[derive(Debug)]
pub struct EnqueueRequest {
    /// Queue the job is enqueued on.
    pub queue: String,
    /// Job payload.
    pub payload: Vec<u8>,
    /// Options of the enqueue.
    pub options: EnqueueOptions,
}

/// Effects committed in one transaction with a settlement.
///
/// Either the settlement and every effect are committed or nothing is. A key
/// that is both written and deleted is refused. Of two writes of one key the
/// later counts.
#[derive(Debug)]
pub struct SettlementEffects {
    /// Jobs to enqueue.
    pub enqueues: Vec<EnqueueRequest>,
    /// Entries to write in the caller's key space.
    pub kv_writes: Vec<(Vec<u8>, Vec<u8>)>,
    /// Keys to delete from the caller's key space.
    pub kv_deletes: Vec<Vec<u8>>,
}

impl Default for SettlementEffects {
    fn default() -> (r: SettlementEffects)
        ensures
            r.enqueues@.len() == 0,
            r.kv_writes@.len() == 0,
            r.kv_deletes@.len() == 0,
    {
        SettlementEffects { enqueues: Vec::new(), kv_writes: Vec::new(), kv_deletes: Vec::new() }
    }
}

/// Refuses a value too large for the caller's key space.
pub fn validate_kv_value_size(value: &[u8]) -> (r: Result<(), Error>)
    ensures
        r is Ok <==> value@.len() <= MAX_KV_VALUE_SIZE,
        r matches Err(e) ==> e@ == (ErrorView::KvValueTooLarge {
            size: value@.len(),
            max: MAX_KV_VALUE_SIZE as nat,
        }),
{
    if value.len() > MAX_KV_VALUE_SIZE {
        return Err(Error::KvValueTooLarge { size: value.len(), max: MAX_KV_VALUE_SIZE });
    }
    Ok(())
}

/// Whether a byte may occur in a caller-supplied id.
pub open spec fn id_byte(b: u8) -> bool {
    ||| 0x30 <= b <= 0x39
    ||| 0x41 <= b <= 0x5a
    ||| 0x61 <= b <= 0x7a
    ||| b == 0x5f
    ||| b == 0x2d
}

/// Why a caller-supplied id is refused; `None` for an acceptable one.
pub open spec fn id_refusal(id: Seq<char>) -> Option<Seq<char>> {
    let bytes = encode_utf8(id);
    if id.len() == 0 {
        Some("id must not be empty"@)
    } else if bytes.len() > MAX_ID_OVERRIDE_LEN {
        Some("id exceeds maximum length of 128 bytes"@)
    } else if exists|i: int| 0 <= i < bytes.len() && !id_byte(#[trigger] bytes[i]) {
        Some("id must contain only `[A-Za-z0-9_-]`"@)
    } else {
        None
    }
}

/// Refuses a caller-supplied job id that is empty, too long or has bytes
/// outside `[A-Za-z0-9_-]`.
pub fn validate_id_override(id: &str) -> (r: Result<(), Error>)
    ensures
        match r {
            Ok(()) => id_refusal(id@) is None,
            Err(e) => id_refusal(id@) matches Some(reason) && e@ == (ErrorView::InvalidId {
                id: id@,
                reason,
            }),
        },
{
    if id.is_empty() {
        return Err(Error::InvalidId { id: id.to_owned(), reason: "id must not be empty" });
    }
    let bytes = id.as_bytes();
    if bytes.len() > MAX_ID_OVERRIDE_LEN {
        return Err(
            Error::InvalidId {
                id: id.to_owned(),
                reason: "id exceeds maximum length of 128 bytes",
            },
        );
    }
    let mut i: usize = 0;
    while i < bytes.len()
        invariant
            0 <= i <= bytes@.len(),
            bytes@ == encode_utf8(id@),
            id@.len() > 0,
            bytes@.len() <= MAX_ID_OVERRIDE_LEN,
            forall|j: int| 0 <= j < i ==> id_byte(#[trigger] bytes@[j]),
        decreases bytes@.len() - i,
    {
        let b: u8 = bytes[i];
        let fine: bool = (0x30 <= b && b <= 0x39) || (0x41 <= b && b <= 0x5a) || (0x61 <= b && b
            <= 0x7a) || b == 0x5f || b == 0x2d;
        if !fine {
            assert(!id_byte(encode_utf8(id@)[i as int]));
            return Err(
                Error::InvalidId {
                    id: id.to_owned(),
                    reason: "id must contain only `[A-Za-z0-9_-]`",
                },
            );
        }
        i += 1;
    }
    Ok(())
}

} // verus!

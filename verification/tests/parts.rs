//! Ids, durations, configurations, leases, cursors and worker loops.

use taquba::claim::{claim_wait_step, draw_tokens, ClaimWait};
use taquba::claim_cursor::{ClaimCursor, CursorState, ScanFrom};
use taquba::ids::{new_payload_ref, JobIds};
use taquba::job::{delivered_record, JobRecord};
use taquba::lease_registry::{LeaseRegistry, Renewal};
use taquba::options::{
    backoff_delay, validate_id_override, validate_kv_value_size, QueueConfigs, MAX_ID_OVERRIDE_LEN,
};
use taquba::payload::{offload, payload_object};
use taquba::read::{looked_up, materialize};
use taquba::reader::{next_beat, open_refusal};
use taquba::reaper::Sweep;
use taquba::time::MAX_NANOS;
use taquba::worker::{
    route, worker_step, PoolAction, Settlement, WorkerAction, WorkerEvent, WorkerPool,
};
use taquba::{
    Claim, Duration, Error, FailWith, JobStatus, LeaseHandle, PermanentFailure, QueueConfig,
    ReaderMode, SettlementEffects, UnixTime, WorkerError, MAX_KV_VALUE_SIZE,
};

const NOW: u64 = 1_700_000_000_000;

#[test]
fn job_ids_are_ulids_of_the_clock_and_increase_with_call_order() {
    let mut ids = JobIds::new();
    let mut last = String::new();
    for now in [NOW, NOW, NOW, NOW + 5, NOW + 1, NOW + 5] {
        let id = ids.next_job_id(now);
        assert_eq!(id.len(), 26);
        assert!(validate_id_override(&id).is_ok());
        assert!(last < id, "{last} is not before {id}");
        last = id;
    }
    let ulid = ulid::Ulid::from_string(&last).unwrap();
    assert_eq!(ulid.timestamp_ms(), NOW + 5);
    assert_eq!(ulid.to_string(), last);
}

#[test]
fn ids_of_one_millisecond_follow_each_other() {
    let mut ids = JobIds::new();
    let a = ulid::Ulid::from_string(&ids.next_job_id(NOW)).unwrap();
    let b = ulid::Ulid::from_string(&ids.next_job_id(NOW)).unwrap();
    assert_eq!(b.0, a.0 + 1);
}

#[test]
fn tokens_and_payload_names_are_drawn_anew() {
    let tokens = draw_tokens(3);
    assert_eq!(tokens.len(), 3);
    assert_ne!(tokens[0], tokens[1]);
    assert_ne!(tokens[1], tokens[2]);
    let (a, b) = (new_payload_ref(NOW), new_payload_ref(NOW));
    assert_ne!(a, b);
    assert_eq!(ulid::Ulid::from_string(&a).unwrap().timestamp_ms(), NOW);
}

#[test]
fn durations_convert_and_saturate() {
    assert_eq!(Duration::from_secs(2).as_millis(), 2_000);
    assert_eq!(Duration::from_millis(1_500).as_nanos(), 1_500_000_000);
    assert_eq!(Duration::from_nanos(1_999_999).unwrap().as_millis(), 1);
    assert!(Duration::from_nanos(MAX_NANOS + 1).is_none());
    assert!(Duration::zero().is_zero());
    let longest = Duration::from_nanos(MAX_NANOS).unwrap();
    assert_eq!(longest.as_millis(), u64::MAX);
    let past = Duration::from_nanos((1u128 << 64) * 1_000_000).unwrap();
    assert_eq!(past.as_millis(), u64::MAX);
    let last = Duration::from_nanos(((1u128 << 64) - 2) * 1_000_000).unwrap();
    assert_eq!(last.as_millis(), u64::MAX - 1);
    assert_eq!(UnixTime::BeforeEpoch.as_millis(), 0);
    assert_eq!(UnixTime::SinceEpoch(Duration::from_secs(3)).as_millis(), 3_000);
}

#[test]
fn the_backoff_doubles_up_to_its_limit() {
    let second = Duration::from_secs(1);
    let longest = Duration::from_nanos(MAX_NANOS).unwrap();
    assert_eq!(backoff_delay(0, second, longest), second);
    assert_eq!(backoff_delay(32, second, longest), Duration::from_secs(1 << 31));
    assert_eq!(backoff_delay(33, second, longest), Duration::from_secs(1 << 32));
    assert_eq!(backoff_delay(u32::MAX, second, longest), longest);
    let nano = Duration::from_nanos(1).unwrap();
    let after_33 = Duration::from_nanos(4_294_967_296).unwrap();
    assert_eq!(backoff_delay(33, nano, Duration::from_secs(10)), after_33);
    assert_eq!(backoff_delay(u32::MAX, Duration::zero(), longest), Duration::zero());
    assert_eq!(backoff_delay(3, second, Duration::from_millis(2_500)), Duration::from_millis(2_500));
}

#[test]
fn the_default_configuration() {
    let c = QueueConfig::default();
    assert_eq!(c.max_attempts, 3);
    assert_eq!(c.lease_duration, Duration::from_secs(30));
    assert_eq!(c.default_priority, 1_000);
    assert_eq!(c.retry_backoff_base, Duration::from_secs(1));
    assert_eq!(c.retry_backoff_max, Duration::from_secs(300));
    assert_eq!(c.keep_done_jobs, None);
    assert_eq!(c.dead_retention, Some(Duration::from_secs(604_800)));
    assert_eq!(ReaderMode::default(), ReaderMode::ManagedCheckpoint);
}

fn attempts(n: u32) -> QueueConfig {
    QueueConfig { max_attempts: n, ..QueueConfig::default() }
}

#[test]
fn overrides_replace_the_default_by_name() {
    let configs = QueueConfigs::new(
        attempts(1),
        vec![
            ("a".to_string(), attempts(2)),
            ("b".to_string(), attempts(3)),
            ("a".to_string(), attempts(4)),
        ],
    );
    assert_eq!(configs.get("a").max_attempts, 4);
    assert_eq!(configs.get("b").max_attempts, 3);
    assert_eq!(configs.get("c").max_attempts, 1);
    let all: Vec<u32> = configs.iter().iter().map(|c| c.max_attempts).collect();
    assert_eq!(all, [1, 4, 3]);
}

fn id_reason(id: &str) -> &'static str {
    match validate_id_override(id) {
        Err(Error::InvalidId { id: given, reason }) => {
            assert_eq!(given, id);
            reason
        }
        other => panic!("expected InvalidId, got {other:?}"),
    }
}

#[test]
fn supplied_ids_are_checked() {
    assert!(validate_id_override("Az09_-").is_ok());
    assert!(validate_id_override(&"a".repeat(MAX_ID_OVERRIDE_LEN)).is_ok());
    assert_eq!(id_reason(""), "id must not be empty");
    assert_eq!(id_reason(&"a".repeat(129)), "id exceeds maximum length of 128 bytes");
    assert_eq!(id_reason("a/b"), "id must contain only `[A-Za-z0-9_-]`");
    assert_eq!(id_reason("é"), "id must contain only `[A-Za-z0-9_-]`");
}

#[test]
fn caller_values_are_bounded() {
    assert!(validate_kv_value_size(&vec![0; MAX_KV_VALUE_SIZE]).is_ok());
    match validate_kv_value_size(&vec![0; MAX_KV_VALUE_SIZE + 1]) {
        Err(Error::KvValueTooLarge { size, max }) => {
            assert_eq!((size, max), (MAX_KV_VALUE_SIZE + 1, 262_144));
        }
        other => panic!("expected KvValueTooLarge, got {other:?}"),
    }
}

#[test]
fn leases_are_fenced_by_their_token() {
    let mut leases = LeaseRegistry::new();
    leases.insert("q", "a", 100, 1, false);
    leases.insert("q", "b", 200, 2, true);
    assert_eq!(leases.len(), 2);
    assert_eq!(leases.current("q", "a"), Some((100, 1)));
    assert_eq!(leases.current("r", "a"), None);
    assert!(leases.is_cancelled("q", "b"));
    leases.remove("q", "a", 9);
    assert_eq!(leases.len(), 2);
    leases.insert("q", "a", 300, 3, false);
    assert_eq!(leases.len(), 2);
    leases.remove("q", "a", 1);
    assert_eq!(leases.current("q", "a"), Some((300, 3)));
    leases.remove("q", "a", 3);
    assert_eq!(leases.current("q", "a"), None);
    assert!(!leases.cancel("q", "a"));
    assert!(leases.cancel("q", "b"));
}

#[test]
fn renewals_move_the_expiry_or_keep_the_longer_one() {
    let mut leases = LeaseRegistry::new();
    leases.insert("q", "a", 100, 1, false);
    assert!(matches!(leases.renew("q", "a", 1, 50, Renewal::AtLeast), Ok(false)));
    assert_eq!(leases.current("q", "a"), Some((100, 1)));
    assert!(matches!(leases.renew("q", "a", 1, 150, Renewal::AtLeast), Ok(true)));
    assert!(matches!(leases.renew("q", "a", 1, 60, Renewal::Exactly), Ok(true)));
    assert!(leases.contains("q", "a", 60));
    assert!(matches!(leases.renew("q", "a", 2, 70, Renewal::Exactly), Err(Error::ClaimLost)));
    assert!(matches!(leases.renew("q", "b", 1, 70, Renewal::Exactly), Err(Error::ClaimLost)));
}

#[test]
fn due_leases_are_listed_until_removed_and_cannot_be_renewed() {
    let mut leases = LeaseRegistry::new();
    leases.insert("q", "a", 100, 1, false);
    leases.insert("q", "b", 101, 2, false);
    assert!(leases.take_due(99).is_empty());
    let due = leases.take_due(100);
    assert_eq!(due.len(), 1);
    assert_eq!((due[0].queue.as_str(), due[0].id.as_str(), due[0].token), ("q", "a", 1));
    assert!(matches!(leases.renew("q", "a", 1, 900, Renewal::Exactly), Err(Error::ClaimLost)));
    assert!(matches!(leases.renew("q", "b", 2, 900, Renewal::Exactly), Ok(true)));
    assert_eq!(leases.take_due(100).len(), 1);
    leases.remove("q", "a", 1);
    assert!(leases.take_due(100).is_empty());
}

#[test]
fn a_lease_handle_extends_and_never_shortens() {
    let mut leases = LeaseRegistry::new();
    leases.insert("q", "a", NOW + 30_000, 7, false);
    let handle = LeaseHandle { queue: "q".to_string(), id: "a".to_string(), token: 7 };
    let minute = Duration::from_secs(60);
    assert!(matches!(handle.ensure_at_least(&mut leases, false, NOW, minute), Ok(true)));
    assert_eq!(leases.current("q", "a"), Some((NOW + 60_000, 7)));
    let second = Duration::from_secs(1);
    assert!(matches!(handle.ensure_at_least(&mut leases, false, NOW, second), Ok(false)));
    assert_eq!(leases.current("q", "a"), Some((NOW + 60_000, 7)));
    let refused = handle.ensure_at_least(&mut leases, true, NOW, minute);
    assert!(matches!(refused, Err(Error::CancelRequested)));
}

#[test]
fn the_cursor_follows_claims_and_inserts() {
    let mut cursor = ClaimCursor::new();
    let scan = cursor.begin_claim("q");
    assert!(scan.scan_from.is_none() && !scan.known_empty);

    cursor.advance("q", b"m", &scan);
    let scan = cursor.begin_claim("q");
    let bound = scan.scan_from.as_ref().unwrap();
    assert_eq!((bound.key.as_slice(), bound.inclusive), (b"m".as_slice(), false));

    // Past the bound: it stays. Behind it, or at it: it moves back.
    cursor.note_pending_insert("q", b"x");
    assert!(!cursor.begin_claim("q").scan_from.unwrap().inclusive);
    cursor.note_pending_insert("q", b"m");
    let bound = cursor.begin_claim("q").scan_from.unwrap();
    assert_eq!((bound.key.as_slice(), bound.inclusive), (b"m".as_slice(), true));
    cursor.note_pending_insert("q", b"c");
    assert_eq!(cursor.begin_claim("q").scan_from.unwrap().key, b"c");

    // An insert since the scan began revokes what the scan found.
    cursor.advance("q", b"z", &scan);
    assert_eq!(cursor.begin_claim("q").scan_from.unwrap().key, b"c");
    cursor.mark_empty("q", scan.epoch);
    assert!(!cursor.begin_claim("q").known_empty);
    let epoch = cursor.begin_claim("q").epoch;
    cursor.mark_empty("q", epoch);
    assert!(cursor.begin_claim("q").known_empty);
    cursor.note_pending_insert("q", b"zz");
    assert!(!cursor.begin_claim("q").known_empty);
}

#[test]
fn cursors_are_exported_and_restored() {
    let mut cursor = ClaimCursor::new();
    let scan = cursor.begin_claim("q");
    cursor.advance("q", b"m", &scan);
    cursor.note_pending_insert("other", b"k");
    let kept = cursor.export();
    assert_eq!(kept.len(), 1);
    assert_eq!(kept[0].0, "q");

    let mut fresh = ClaimCursor::new();
    fresh.restore(
        "q",
        CursorState {
            scan_from: Some(ScanFrom { key: b"m".to_vec(), inclusive: false }),
            known_empty: true,
        },
    );
    let scan = fresh.begin_claim("q");
    assert_eq!(scan.scan_from.unwrap().key, b"m");
    assert!(scan.known_empty);
}

fn job(payload: Vec<u8>) -> JobRecord {
    JobRecord::new_pending("i".to_string(), "q".to_string(), payload, 3, 1_000, NOW)
}

#[test]
fn a_payload_over_the_threshold_becomes_an_object() {
    let mut small = job(vec![1; 64]);
    assert!(offload(&mut small, Some(64), NOW).is_none());
    assert!(offload(&mut small, None, NOW).is_none());
    let mut large = job(vec![1; 65]);
    let object = offload(&mut large, Some(64), NOW).unwrap();
    assert_eq!(object.bytes, vec![1; 65]);
    assert!(large.payload.is_empty());
    assert_eq!(payload_object(&large), Some(object.name));
}

#[test]
fn an_offloaded_payload_is_put_back_inline() {
    let mut stored = job(vec![1; 65]);
    offload(&mut stored, Some(64), NOW);
    let read = materialize(stored.clone(), Some(vec![1; 65])).unwrap();
    assert_eq!(read.payload, vec![1; 65]);
    assert!(read.stored_clone().payload.is_empty());
    let missing = materialize(stored.clone(), None);
    assert!(matches!(&missing, Err(Error::PayloadMissing { id }) if id == "i"));
    assert!(matches!(looked_up(missing, false), Ok(None)));
    let missing = materialize(stored.clone(), None);
    assert!(matches!(looked_up(missing, true), Err(Error::PayloadMissing { .. })));
    let claim = Claim { job: read, token: 1 };
    assert_eq!(delivered_record(&stored, &claim).payload, vec![1; 65]);
    assert_eq!(materialize(job(vec![2]), None).unwrap().payload, vec![2]);
}

#[test]
fn worker_outcomes_are_routed_to_their_settlement() {
    let acked = route(Ok(SettlementEffects::default()));
    assert!(matches!(acked, Settlement::Ack(_)));
    let permanent = || WorkerError::Permanent(PermanentFailure::new("gone".to_string()));
    let dead = route(Err(permanent()));
    assert!(matches!(dead, Settlement::DeadLetter { reason, .. } if reason == "gone"));
    let failed = route(Err(WorkerError::Other("later".to_string())));
    assert!(matches!(failed, Settlement::Nack { reason, .. } if reason == "later"));

    let effects = || SettlementEffects {
        kv_deletes: vec![b"k".to_vec()],
        ..SettlementEffects::default()
    };
    let wrapped = || WorkerError::With(Box::new(FailWith::new(permanent(), effects())));
    match route(Err(wrapped())) {
        Settlement::DeadLetter { reason, effects } => {
            assert_eq!(reason, "gone");
            assert_eq!(effects.kv_deletes, [b"k".to_vec()]);
        }
        other => panic!("expected DeadLetter, got {other:?}"),
    }
    // Only one layer is unwrapped.
    let twice = WorkerError::With(Box::new(FailWith::new(wrapped(), SettlementEffects::default())));
    match route(Err(twice)) {
        Settlement::Nack { reason, effects } => {
            assert_eq!(reason, "gone");
            assert!(effects.kv_deletes.is_empty());
        }
        other => panic!("expected Nack, got {other:?}"),
    }
}

#[test]
fn a_worker_stops_between_jobs_only() {
    assert_eq!(worker_step(WorkerEvent::Started), WorkerAction::Claim);
    assert_eq!(worker_step(WorkerEvent::Claimed), WorkerAction::Process);
    assert_eq!(worker_step(WorkerEvent::Empty), WorkerAction::Wait);
    assert_eq!(worker_step(WorkerEvent::Settled { shutdown: false }), WorkerAction::Claim);
    assert_eq!(worker_step(WorkerEvent::Settled { shutdown: true }), WorkerAction::Stop);
    assert_eq!(worker_step(WorkerEvent::Waited { shutdown: false }), WorkerAction::Claim);
    assert_eq!(worker_step(WorkerEvent::Waited { shutdown: true }), WorkerAction::Stop);
}

#[test]
fn a_pool_claims_its_free_capacity_and_drains_on_shutdown() {
    let mut pool = WorkerPool::new(3);
    assert_eq!(pool.next(), PoolAction::Claim(3));
    pool.claimed(2, false);
    assert_eq!(pool.next(), PoolAction::Claim(1));
    pool.claimed(0, true);
    assert_eq!(pool.next(), PoolAction::Wait);
    pool.waited(false);
    pool.claimed(1, false);
    assert_eq!(pool.next(), PoolAction::AwaitSlot);
    pool.ended();
    assert_eq!(pool.next(), PoolAction::Claim(1));
    pool.claimed(1, true);
    assert_eq!(pool.next(), PoolAction::Drain);
    pool.ended();
    pool.ended();
    pool.ended();
    assert_eq!(pool.next(), PoolAction::Finished);
}

#[test]
fn a_waiting_claim_gives_up_at_its_deadline() {
    let ms = Duration::from_millis;
    assert_eq!(claim_wait_step(true, ms(10), ms(5)), ClaimWait::Deliver);
    assert_eq!(claim_wait_step(false, ms(5), ms(5)), ClaimWait::GiveUp);
    assert_eq!(claim_wait_step(false, ms(3), ms(5)), ClaimWait::WaitFor(ms(2)));
    // Less than a millisecond is waited for too.
    let nanos = |n| Duration::from_nanos(n).unwrap();
    let half = nanos(500_000);
    assert_eq!(claim_wait_step(false, Duration::zero(), half), ClaimWait::WaitFor(half));
    assert_eq!(claim_wait_step(false, nanos(499_999), half), ClaimWait::WaitFor(nanos(1)));
}

#[test]
fn heartbeats_count_across_writers() {
    let first = next_beat(None, NOW, 3_600_000, 1, false);
    assert_eq!((first.counter, first.at_ms, first.interval_ms), (1, NOW, 3_600_000));
    let closing = next_beat(Some(first), NOW + 1, 3_600_000, 1, true);
    assert_eq!((closing.counter, closing.closed), (2, true));
    let second = next_beat(Some(closing), NOW + 2, 3_600_000, 2, false);
    assert_eq!((second.counter, second.closed, second.writer_epoch), (3, false, 2));
}

#[test]
fn only_an_empty_path_is_an_uninitialized_store() {
    let refused = open_refusal(true, true, "test");
    assert!(matches!(refused, Some(Error::StoreNotInitialized { path }) if path == "test"));
    assert!(open_refusal(true, false, "test").is_none());
    assert!(open_refusal(false, true, "test").is_none());
}

#[test]
fn only_done_and_dead_jobs_are_swept() {
    let configs = QueueConfigs::new(QueueConfig::default(), Vec::new());
    assert!(matches!(Sweep::begin(&configs, JobStatus::Pending, NOW), Err(Error::InvalidState)));
    assert!(matches!(Sweep::begin(&configs, JobStatus::Done, NOW), Ok(None)));
    assert!(matches!(Sweep::begin(&configs, JobStatus::Dead, NOW), Ok(Some(_))));
}

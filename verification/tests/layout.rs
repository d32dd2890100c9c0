//! The key layout, byte order, ranges and counters.

use taquba::bytes::{bytes_before, push_big_endian, read_big_endian, same_text};
use taquba::keys::{
    attempt_history_key, claimed_key, claimed_prefix, cursor_key, dead_key, dead_prefix,
    dedup_index_key, done_key, heartbeat_key, job_index_key, parse_key_timestamp, parse_stats_key,
    pending_key, pending_prefix, queue_fits, scheduled_key, stats_key, tag_prefix, user_scoped_key,
    validate_queue_name, KeyTag, RecordKey,
};
use taquba::range::{subrange, KeyBound};
use taquba::read::{list_queues, queue_stats, RawCounters};
use taquba::stats::{count_of, counter_bytes, metric_name, read_i64_le, MergeError};
use taquba::{Error, JobStatus, QueueMergeOperator};

#[test]
fn keys_are_laid_out_by_tag_name_number_and_id() {
    assert_eq!(pending_key("ab", 258, "x"), [3, 2, b'a', b'b', 0, 0, 1, 2, b'x']);
    assert_eq!(
        scheduled_key("ab", 1, "x"),
        [4, 0, 0, 0, 0, 0, 0, 0, 1, 2, b'a', b'b', b'x']
    );
    assert_eq!(claimed_key("ab", "x"), [5, 2, b'a', b'b', b'x']);
    assert_eq!(done_key(256, "a", "x"), [6, 0, 0, 0, 0, 0, 0, 1, 0, 1, b'a', b'x']);
    assert_eq!(dead_key("a", "x"), [7, 1, b'a', b'x']);
    assert_eq!(job_index_key("x"), [8, b'x']);
    assert_eq!(dedup_index_key("a", "d"), [9, 1, b'a', b'd']);
    assert_eq!(cursor_key("a"), [10, 1, b'a']);
    assert_eq!(heartbeat_key(), [11]);
    assert_eq!(user_scoped_key(b"k"), [12, b'k']);
    assert_eq!(attempt_history_key("x"), [2, b'x']);
    assert_eq!(stats_key("a", JobStatus::Done), [1, 1, b'a', b'd', b'o', b'n', b'e']);
    assert_eq!(tag_prefix(KeyTag::Scheduled), [4]);
}

#[test]
fn pending_keys_sort_by_priority_and_then_by_id() {
    let mut keys = vec![
        pending_key("q", 10_000, "a"),
        pending_key("q", 1_000, "b"),
        pending_key("q", 100, "z"),
        pending_key("q", 1_000, "a"),
    ];
    keys.sort();
    assert_eq!(
        keys,
        [
            pending_key("q", 100, "z"),
            pending_key("q", 1_000, "a"),
            pending_key("q", 1_000, "b"),
            pending_key("q", 10_000, "a"),
        ]
    );
}

#[test]
fn timed_keys_sort_by_time_whatever_their_queue() {
    assert!(scheduled_key("z", 255, "z") < scheduled_key("a", 256, "a"));
    assert!(done_key(255, "z", "z") < done_key(256, "a", "a"));
}

#[test]
fn a_queue_prefix_opens_the_keys_of_that_queue_only() {
    assert!(pending_key("ab", 7, "x").starts_with(&pending_prefix("ab")));
    assert!(!pending_key("abc", 7, "x").starts_with(&pending_prefix("ab")));
    assert!(claimed_key("ab", "x").starts_with(&claimed_prefix("ab")));
    assert!(!claimed_key("a", "bx").starts_with(&claimed_prefix("ab")));
    assert!(dead_key("ab", "x").starts_with(&dead_prefix("ab")));
    assert!(!dead_key("ab", "x").starts_with(&claimed_prefix("ab")));
}

#[test]
fn a_caller_key_never_meets_one_of_the_queue() {
    let own = pending_key("work", 1, "fake");
    let scoped = user_scoped_key(&own);
    assert_ne!(scoped, own);
    assert_eq!(scoped[0], KeyTag::User.id());
    assert_eq!(RecordKey::decode(&scoped).map(|k| k.encode()), None);
}

#[test]
fn a_record_key_decodes_to_where_it_came_from() {
    let keys = [
        RecordKey::Pending { queue: "q".to_string(), priority: 7, id: "i".to_string() },
        RecordKey::Scheduled { run_at: u64::MAX, queue: "".to_string(), id: "i".to_string() },
        RecordKey::Claimed { queue: "é".to_string(), id: "".to_string() },
        RecordKey::Done { completed_at: 0, queue: "q".to_string(), id: "ü".to_string() },
        RecordKey::Dead { queue: "q".repeat(255), id: "i".to_string() },
    ];
    for key in keys {
        assert!(key.fits());
        let decoded = RecordKey::decode(&key.encode()).unwrap();
        assert!(decoded.same(&key));
        assert_eq!(decoded.status(), key.status());
    }
}

#[test]
fn bytes_that_are_no_record_key_do_not_decode() {
    assert!(RecordKey::decode(&[]).is_none());
    assert!(RecordKey::decode(&[5]).is_none());
    assert!(RecordKey::decode(&[5, 3, b'a', b'b']).is_none());
    assert!(RecordKey::decode(&[5, 1, 0xff, b'x']).is_none());
    assert!(RecordKey::decode(&[3, 1, b'a', 0, 0, 0]).is_none());
    assert!(RecordKey::decode(&[4, 0, 0, 0, 0, 0, 0, 0]).is_none());
    assert!(RecordKey::decode(&[8, b'x']).is_none());
}

#[test]
fn a_key_time_reads_back() {
    assert_eq!(
        parse_key_timestamp(&scheduled_key("q", 1_700_000_000_000, "x"), KeyTag::Scheduled),
        Some(1_700_000_000_000)
    );
    assert_eq!(parse_key_timestamp(&done_key(5, "q", "x"), KeyTag::Done), Some(5));
    assert_eq!(parse_key_timestamp(&done_key(5, "q", "x"), KeyTag::Scheduled), None);
    assert_eq!(parse_key_timestamp(&[4, 0, 0], KeyTag::Scheduled), None);
}

#[test]
fn stats_keys_name_their_queue_and_metric() {
    let parsed = parse_stats_key(&stats_key("work", JobStatus::Scheduled)).unwrap();
    assert_eq!(parsed, ("work".to_string(), "scheduled".to_string()));
    assert_eq!(parse_stats_key(&pending_key("work", 1, "x")), None);
    assert_eq!(parse_stats_key(&[1, 2, b'a']), None);
    assert_eq!(parse_stats_key(&[1, 1, 0xc0, b'x']), None);
    assert_eq!(parse_stats_key(&[]), None);
}

#[test]
fn queues_are_listed_once_in_key_order() {
    let keys = vec![
        stats_key("a", JobStatus::Done),
        stats_key("a", JobStatus::Pending),
        vec![1, 9],
        stats_key("b", JobStatus::Pending),
        stats_key("a", JobStatus::Dead),
    ];
    assert_eq!(list_queues(&keys), ["a", "b"]);
}

#[test]
fn a_queue_name_is_bounded_in_bytes() {
    assert!(validate_queue_name(&"é".repeat(127)).is_ok());
    assert!(queue_fits(&"x".repeat(255)));
    assert!(!queue_fits(&"x".repeat(256)));
    match validate_queue_name(&"é".repeat(128)) {
        Err(Error::InvalidQueueName { queue, reason }) => {
            assert_eq!(queue, "é".repeat(128));
            assert_eq!(reason, "queue name exceeds the maximum length of 255 bytes");
        }
        other => panic!("expected InvalidQueueName, got {other:?}"),
    }
}

#[test]
fn byte_order_is_that_of_slices() {
    let words: [&[u8]; 6] = [b"", b"a", b"aa", b"ab", b"b", &[0xff]];
    for a in words {
        for b in words {
            assert_eq!(bytes_before(a, b), a < b);
        }
    }
}

#[test]
fn big_endian_integers_read_back() {
    for x in [0u64, 1, 255, 256, 0x0102_0304_0506_0708, u64::MAX] {
        let mut out = Vec::new();
        push_big_endian(&mut out, x, 8);
        assert_eq!(out, x.to_be_bytes());
        assert_eq!(read_big_endian(&out), x);
    }
}

#[test]
fn texts_are_equal_when_their_characters_are() {
    assert!(same_text("é", "é"));
    assert!(!same_text("é", "e"));
    assert!(!same_text("a", "ab"));
}

#[test]
fn counters_are_little_endian() {
    for x in [0i64, 1, -1, 256, i64::MIN, i64::MAX] {
        assert_eq!(counter_bytes(x), x.to_le_bytes());
        assert_eq!(read_i64_le(&x.to_le_bytes()), Some(x));
    }
    assert_eq!(read_i64_le(&[1, 2, 3]), None);
    assert!(matches!(count_of(&None), Ok(0)));
    assert!(matches!(count_of(&Some(vec![1])), Err(Error::InvalidState)));
}

#[test]
fn metrics_are_named_after_their_states() {
    let names: Vec<&str> = [
        JobStatus::Pending,
        JobStatus::Claimed,
        JobStatus::Done,
        JobStatus::Dead,
        JobStatus::Scheduled,
    ]
    .into_iter()
    .map(metric_name)
    .collect();
    assert_eq!(names, ["pending", "claimed", "done", "dead", "scheduled"]);
}

#[test]
fn counters_merge_by_adding_up() {
    let key = stats_key("q", JobStatus::Pending);
    let op = QueueMergeOperator;
    let merged = op
        .merge_batch(&key, Some(&counter_bytes(5)), &vec![counter_bytes(3), counter_bytes(-10)])
        .unwrap();
    assert_eq!(merged, counter_bytes(-2));
    let first = op.merge(&key, None, counter_bytes(7)).unwrap();
    assert_eq!(first, counter_bytes(7));
    assert_eq!(op.merge(&key, Some(&[1, 2]), counter_bytes(7)), Err(MergeError::InvalidOperand));
    assert_eq!(op.merge(&key, None, vec![0; 7]), Err(MergeError::InvalidOperand));
    assert_eq!(MergeError::InvalidOperand.message(), "invalid 8-byte i64 operand");
    assert!(op.can_merge(&key, None, &vec![counter_bytes(i64::MAX)]));
    assert!(!op.can_merge(&key, Some(&counter_bytes(i64::MAX)), &vec![counter_bytes(1)]));
}

#[test]
fn merging_in_steps_gives_what_one_merge_gives() {
    let op = QueueMergeOperator;
    for key in [stats_key("q", JobStatus::Dead), attempt_history_key("x")] {
        let (a, b, c) = (counter_bytes(4), counter_bytes(-1), counter_bytes(9));
        let all = op.merge_batch(&key, Some(&a), &vec![b.clone(), c.clone()]).unwrap();
        let step = op.merge(&key, Some(&a), b).unwrap();
        assert_eq!(op.merge(&key, Some(&step), c).unwrap(), all);
    }
}

#[test]
fn histories_merge_by_appending_and_other_keys_do_not_merge() {
    let op = QueueMergeOperator;
    let key = attempt_history_key("x");
    let merged = op.merge_batch(&key, None, &vec![b"ab".to_vec(), b"c".to_vec()]).unwrap();
    assert_eq!(merged, b"abc");
    let refused = op.merge(&pending_key("q", 1, "x"), None, counter_bytes(1));
    assert_eq!(refused, Err(MergeError::NonMergingKey));
    assert_eq!(op.merge(&[], None, counter_bytes(1)), Err(MergeError::NonMergingKey));
    assert_eq!(MergeError::NonMergingKey.message(), "merge on a non-merging key space");
}

#[test]
fn absent_counters_are_zero_and_malformed_ones_refused() {
    let mut counters = RawCounters {
        pending: Some(counter_bytes(2)),
        claimed: None,
        done: Some(counter_bytes(40)),
        dead: None,
        scheduled: None,
    };
    let stats = queue_stats("q", &counters).unwrap();
    assert_eq!((stats.pending, stats.claimed, stats.done), (2, 0, 40));
    assert_eq!((stats.dead, stats.scheduled, stats.queue.as_str()), (0, 0, "q"));
    counters.dead = Some(vec![0; 9]);
    assert!(matches!(queue_stats("q", &counters), Err(Error::InvalidState)));
}

fn bounds(r: Option<(KeyBound, KeyBound)>) -> Option<(String, String)> {
    let show = |b: KeyBound| match b {
        KeyBound::Unbounded => "..".to_string(),
        KeyBound::Included(k) => format!("[{}", String::from_utf8(k).unwrap()),
        KeyBound::Excluded(k) => format!("({}", String::from_utf8(k).unwrap()),
    };
    r.map(|(s, e)| (show(s), show(e)))
}

fn inc(k: &str) -> KeyBound {
    KeyBound::Included(k.as_bytes().to_vec())
}

fn exc(k: &str) -> KeyBound {
    KeyBound::Excluded(k.as_bytes().to_vec())
}

fn pair(a: &str, b: &str) -> Option<(String, String)> {
    Some((a.to_string(), b.to_string()))
}

#[test]
fn counters_take_deltas_in_any_order() {
    let op = QueueMergeOperator;
    let key = stats_key("work", JobStatus::Pending);
    let deltas = [4, -7, 11, 4].map(counter_bytes);
    for order in [[0, 1, 2, 3], [3, 2, 1, 0], [1, 3, 0, 2]] {
        let operands: Vec<Vec<u8>> = order.iter().map(|i: &usize| deltas[*i].clone()).collect();
        let merged = op.merge_batch(&key, Some(&counter_bytes(5)), &operands).unwrap();
        assert_eq!(merged, counter_bytes(17));
    }
}

#[test]
fn a_range_is_cut_to_its_prefix() {
    let open = KeyBound::Unbounded;
    assert_eq!(bounds(subrange(b"p/", &open, &open)), pair("..", ".."));
    assert_eq!(bounds(subrange(b"p/", &inc("p/2"), &exc("p/4"))), pair("[2", "(4"));
    assert_eq!(bounds(subrange(b"p/", &exc("a"), &inc("z"))), pair("..", ".."));
    assert_eq!(bounds(subrange(b"p/", &inc("p"), &open)), pair("..", ".."));
    assert_eq!(bounds(subrange(b"p/", &inc("q"), &open)), None);
    assert_eq!(bounds(subrange(b"p/", &open, &inc("p"))), None);
    assert_eq!(bounds(subrange(b"p/", &inc("p/3"), &inc("p/3"))), pair("[3", "[3"));
    assert_eq!(bounds(subrange(b"p/", &inc("p/3"), &exc("p/3"))), None);
    assert_eq!(bounds(subrange(b"p/", &exc("p/3"), &inc("p/3"))), None);
    assert_eq!(bounds(subrange(b"p/", &inc("p/4"), &inc("p/3"))), None);
    assert_eq!(bounds(subrange(b"p/", &open, &exc("p/"))), None);
    assert_eq!(bounds(subrange(b"p/", &open, &inc("p/"))), pair("..", "["));
    assert_eq!(bounds(subrange(b"p/", &exc("p/3"), &exc("p/3\0"))), None);
}

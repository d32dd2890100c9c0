//! Job counters.

use crate::bytes::{
    big_endian, big_endian_len, big_endian_round_trip, from_big_endian, from_big_endian_round_trip,
    pow256_values, push_big_endian, read_big_endian,
};
use crate::error::Error;
use crate::job::JobStatus;
use crate::keys::{KeyTag, TAG_ATTEMPT_HISTORY, TAG_STATS};
use vstd::prelude::*;

verus! {

/// The name under which the counter of a state is stored.
pub open spec fn metric_text(status: JobStatus) -> Seq<char> {
    match status {
        JobStatus::Pending => "pending"@,
        JobStatus::Claimed => "claimed"@,
        JobStatus::Done => "done"@,
        JobStatus::Dead => "dead"@,
        JobStatus::Scheduled => "scheduled"@,
    }
}

/// Each state has a counter of its own.
pub proof fn metric_text_is_injective(a: JobStatus, b: JobStatus)
    requires
        metric_text(a) == metric_text(b),
    ensures
        a == b,
{
    reveal_strlit("pending");
    reveal_strlit("claimed");
    reveal_strlit("done");
    reveal_strlit("dead");
    reveal_strlit("scheduled");
    assert("pending"@[0] == 'p');
    assert("claimed"@[0] == 'c');
    assert("done"@[1] == 'o');
    assert("dead"@[1] == 'e');
}

/// The name under which the counter of a state is stored.
pub fn metric_name(status: JobStatus) -> (r: &'static str)
    ensures
        r@ == metric_text(status),
{
    match status {
        JobStatus::Pending => "pending",
        JobStatus::Claimed => "claimed",
        JobStatus::Done => "done",
        JobStatus::Dead => "dead",
        JobStatus::Scheduled => "scheduled",
    }
}

/// Job counts of one queue.
///
/// The counts of the live states are the numbers of jobs in them; `done`
/// counts all acknowledged jobs and is never lowered.
#[derive(Debug, PartialEq, Eq)]
pub struct QueueStats {
    /// Name of the queue.
    pub queue: String,
    /// Jobs waiting to be claimed.
    pub pending: i64,
    /// Jobs held by a worker under a lease.
    pub claimed: i64,
    /// Jobs acknowledged so far.
    pub done: i64,
    /// Dead jobs.
    pub dead: i64,
    /// Jobs waiting for their time, retries in backoff among them.
    pub scheduled: i64,
}

impl Clone for QueueStats {
    fn clone(&self) -> (r: QueueStats)
        ensures
            r == *self,
    {
        QueueStats {
            queue: self.queue.clone(),
            pending: self.pending,
            claimed: self.claimed,
            done: self.done,
            dead: self.dead,
            scheduled: self.scheduled,
        }
    }
}

/// The bytes of `x` in two's complement, least significant first.
pub open spec fn counter_encoding(x: i64) -> Seq<u8> {
    big_endian(
        if x >= 0 {
            x as nat
        } else {
            (x + 0x1_0000_0000_0000_0000) as nat
        },
        8,
    ).reverse()
}

/// The counter value that eight bytes hold.
pub open spec fn counter_value(bytes: Seq<u8>) -> Option<int> {
    if bytes.len() == 8 {
        let v = from_big_endian(bytes.reverse());
        Some(
            if v < 0x8000_0000_0000_0000 {
                v as int
            } else {
                v - 0x1_0000_0000_0000_0000
            },
        )
    } else {
        None
    }
}

/// A counter reads back as it was written.
pub proof fn counter_round_trip(x: i64)
    ensures
        counter_value(counter_encoding(x)) == Some(x as int),
{
    pow256_values();
    let v = if x >= 0 {
        x as nat
    } else {
        (x + 0x1_0000_0000_0000_0000) as nat
    };
    big_endian_len(v, 8);
    big_endian_round_trip(v, 8);
    assert(big_endian(v, 8).reverse().reverse() =~= big_endian(v, 8));
}

fn reversed(bytes: &[u8]) -> (r: Vec<u8>)
    ensures
        r@ == bytes@.reverse(),
{
    let mut out: Vec<u8> = Vec::new();
    let mut n: usize = bytes.len();
    while n > 0
        invariant
            0 <= n <= bytes@.len(),
            out@.len() == bytes@.len() - n,
            forall|i: int| 0 <= i < out@.len() ==> out@[i] == bytes@[bytes@.len() - 1 - i],
        decreases n,
    {
        n -= 1;
        out.push(bytes[n]);
    }
    assert(out@ =~= bytes@.reverse());
    out
}

/// The bytes of a counter value or of a delta to merge into one.
pub fn counter_bytes(x: i64) -> (r: Vec<u8>)
    ensures
        r@ == counter_encoding(x),
{
    let v: u64 = if x >= 0 {
        x as u64
    } else {
        u64::MAX - (-(x + 1)) as u64
    };
    let mut be: Vec<u8> = Vec::new();
    push_big_endian(&mut be, v, 8);
    proof {
        assert(be@ =~= big_endian(v as nat, 8));
    }
    reversed(be.as_slice())
}

/// The counter value that bytes hold, or `None` where there are not eight.
pub fn read_i64_le(bytes: &[u8]) -> (r: Option<i64>)
    ensures
        match r {
            Some(x) => counter_value(bytes@) == Some(x as int),
            None => counter_value(bytes@) is None,
        },
{
    if bytes.len() != 8 {
        return None;
    }
    let be = reversed(bytes);
    let v: u64 = read_big_endian(be.as_slice());
    proof {
        from_big_endian_round_trip(be@);
        pow256_values();
    }
    if v < 0x8000_0000_0000_0000 {
        Some(v as i64)
    } else {
        Some(-((u64::MAX - v) as i64) - 1)
    }
}

/// Reads a counter: an absent one is zero, and one that is not eight bytes
/// long is refused.
pub fn count_of(bytes: &Option<Vec<u8>>) -> (r: Result<i64, Error>)
    ensures
        match *bytes {
            None => r == Ok::<i64, Error>(0),
            Some(b) => match counter_value(b@) {
                Some(x) => r matches Ok(n) && n == x,
                None => r == Err::<i64, Error>(Error::InvalidState),
            },
        },
{
    match bytes {
        None => Ok(0),
        Some(b) => match read_i64_le(b.as_slice()) {
            Some(x) => Ok(x),
            None => Err(Error::InvalidState),
        },
    }
}

/// Why values cannot be merged.
#[derive(Clone, Copy, Debug, PartialEq, Eq, Structural)]
pub enum MergeError {
    /// A counter or a delta is not eight bytes long.
    InvalidOperand,
    /// Nothing is merged in the key's space.
    NonMergingKey,
}

impl MergeError {
    /// The error in words.
    pub fn message(&self) -> (r: &'static str)
        ensures
            r@ == match self {
                MergeError::InvalidOperand => "invalid 8-byte i64 operand"@,
                MergeError::NonMergingKey => "merge on a non-merging key space"@,
            },
    {
        match self {
            MergeError::InvalidOperand => "invalid 8-byte i64 operand",
            MergeError::NonMergingKey => "merge on a non-merging key space",
        }
    }
}

/// The contents of a list of byte strings.
pub open spec fn operand_views(operands: Seq<Vec<u8>>) -> Seq<Seq<u8>> {
    Seq::new(operands.len(), |i: int| operands[i]@)
}

/// The counter with all deltas added, or `None` where one of them is not
/// eight bytes long.
pub open spec fn counter_total(existing: Option<Seq<u8>>, operands: Seq<Seq<u8>>) -> Option<int>
    decreases operands.len(),
{
    if operands.len() == 0 {
        match existing {
            Some(b) => counter_value(b),
            None => Some(0),
        }
    } else {
        match (counter_total(existing, operands.drop_last()), counter_value(operands.last())) {
            (Some(total), Some(delta)) => Some(total + delta),
            _ => None,
        }
    }
}

/// Whether every intermediate total fits 64 bits.
pub open spec fn totals_fit(existing: Option<Seq<u8>>, operands: Seq<Seq<u8>>) -> bool
    decreases operands.len(),
{
    &&& operands.len() == 0 || totals_fit(existing, operands.drop_last())
    &&& counter_total(existing, operands) matches Some(total) ==> i64::MIN <= total <= i64::MAX
}

/// The concatenation of a list of byte strings.
pub open spec fn appended(existing: Seq<u8>, operands: Seq<Seq<u8>>) -> Seq<u8>
    decreases operands.len(),
{
    if operands.len() == 0 {
        existing
    } else {
        appended(existing, operands.drop_last()) + operands.last()
    }
}

/// What merging operands into a value gives: counters add up, histories are
/// appended to, and other keys are not merged.
pub open spec fn merged(
    key: Seq<u8>,
    existing: Option<Seq<u8>>,
    operands: Seq<Seq<u8>>,
) -> Result<Seq<u8>, MergeError> {
    if key.len() > 0 && key[0] == TAG_STATS {
        match counter_total(existing, operands) {
            Some(total) => Ok(counter_encoding(total as i64)),
            None => Err(MergeError::InvalidOperand),
        }
    } else if key.len() > 0 && key[0] == TAG_ATTEMPT_HISTORY {
        Ok(
            appended(
                match existing {
                    Some(b) => b,
                    None => Seq::empty(),
                },
                operands,
            ),
        )
    } else {
        Err(MergeError::NonMergingKey)
    }
}

proof fn total_of_invalid_prefix(existing: Option<Seq<u8>>, operands: Seq<Seq<u8>>, n: int)
    requires
        0 <= n <= operands.len(),
        counter_total(existing, operands.subrange(0, n)) is None,
        totals_fit(existing, operands.subrange(0, n)),
    ensures
        counter_total(existing, operands) is None,
        totals_fit(existing, operands),
    decreases operands.len() - n,
{
    if n < operands.len() {
        assert(operands.subrange(0, n + 1).drop_last() =~= operands.subrange(0, n));
        total_of_invalid_prefix(existing, operands, n + 1);
    } else {
        assert(operands.subrange(0, n) =~= operands);
    }
}

proof fn totals_of_unfit_prefix(existing: Option<Seq<u8>>, operands: Seq<Seq<u8>>, n: int)
    requires
        0 <= n <= operands.len(),
        !totals_fit(existing, operands.subrange(0, n)),
    ensures
        !totals_fit(existing, operands),
    decreases operands.len() - n,
{
    if n < operands.len() {
        assert(operands.subrange(0, n + 1).drop_last() =~= operands.subrange(0, n));
        totals_of_unfit_prefix(existing, operands, n + 1);
    } else {
        assert(operands.subrange(0, n) =~= operands);
    }
}

spec fn opt_slice(o: Option<&[u8]>) -> Option<Seq<u8>> {
    match o {
        Some(b) => Some(b@),
        None => None,
    }
}

/// The sum of a counter and deltas: `None` where a total does not fit 64
/// bits, which no number of jobs reaches.
fn sum_counters(existing: Option<&[u8]>, operands: &Vec<Vec<u8>>) -> (r: Result<
    Option<i64>,
    MergeError,
>)
    ensures
        match r {
            Ok(Some(total)) => counter_total(opt_slice(existing), operand_views(operands@)) == Some(
                total as int,
            ) && totals_fit(opt_slice(existing), operand_views(operands@)),
            Ok(None) => !totals_fit(opt_slice(existing), operand_views(operands@)),
            Err(e) => e == MergeError::InvalidOperand && counter_total(
                opt_slice(existing),
                operand_views(operands@),
            ) is None && totals_fit(opt_slice(existing), operand_views(operands@)),
        },
{
    let ghost all = operand_views(operands@);
    let ghost base = opt_slice(existing);
    let mut total: i64 = 0;
    proof {
        assert(all.subrange(0, 0) =~= Seq::empty());
    }
    if let Some(bytes) = existing {
        match read_i64_le(bytes) {
            Some(x) => {
                total = x;
            },
            None => {
                proof {
                    total_of_invalid_prefix(base, all, 0);
                }
                return Err(MergeError::InvalidOperand);
            },
        }
    }
    let mut i: usize = 0;
    while i < operands.len()
        invariant
            0 <= i <= operands@.len(),
            all == operand_views(operands@),
            base == opt_slice(existing),
            counter_total(base, all.subrange(0, i as int)) == Some(total as int),
            totals_fit(base, all.subrange(0, i as int)),
        decreases operands@.len() - i,
    {
        proof {
            assert(all.subrange(0, i + 1).drop_last() =~= all.subrange(0, i as int));
            assert(all.subrange(0, i + 1).last() == all[i as int]);
        }
        match read_i64_le(operands[i].as_slice()) {
            Some(delta) => {
                match total.checked_add(delta) {
                    Some(sum) => {
                        total = sum;
                    },
                    None => {
                        proof {
                            totals_of_unfit_prefix(base, all, i + 1);
                        }
                        return Ok(None);
                    },
                }
            },
            None => {
                proof {
                    total_of_invalid_prefix(base, all, i + 1);
                }
                return Err(MergeError::InvalidOperand);
            },
        }
        i += 1;
    }
    proof {
        assert(all.subrange(0, i as int) =~= all);
    }
    Ok(Some(total))
}

fn merge_counters(existing: Option<&[u8]>, operands: &Vec<Vec<u8>>) -> (r: Result<
    Vec<u8>,
    MergeError,
>)
    requires
        totals_fit(opt_slice(existing), operand_views(operands@)),
    ensures
        match counter_total(opt_slice(existing), operand_views(operands@)) {
            Some(total) => r matches Ok(bytes) && bytes@ == counter_encoding(total as i64),
            None => r == Err::<Vec<u8>, MergeError>(MergeError::InvalidOperand),
        },
{
    match sum_counters(existing, operands) {
        Ok(Some(total)) => Ok(counter_bytes(total)),
        Ok(None) => Ok(counter_bytes(0)),
        Err(e) => Err(e),
    }
}

fn merge_append(existing: Option<&[u8]>, operands: &Vec<Vec<u8>>) -> (r: Vec<u8>)
    ensures
        r@ == appended(
            match existing {
                Some(b) => b@,
                None => Seq::empty(),
            },
            operand_views(operands@),
        ),
{
    let ghost all = operand_views(operands@);
    let mut out: Vec<u8> = Vec::new();
    if let Some(bytes) = existing {
        out.extend_from_slice(bytes);
        assert(out@ =~= bytes@);
    }
    let ghost base = out@;
    let mut i: usize = 0;
    proof {
        assert(all.subrange(0, 0) =~= Seq::empty());
    }
    while i < operands.len()
        invariant
            0 <= i <= operands@.len(),
            all == operand_views(operands@),
            out@ == appended(base, all.subrange(0, i as int)),
        decreases operands@.len() - i,
    {
        proof {
            assert(all.subrange(0, i + 1).drop_last() =~= all.subrange(0, i as int));
        }
        let ghost before = out@;
        out.extend_from_slice(operands[i].as_slice());
        assert(out@ =~= before + all[i as int]);
        i += 1;
    }
    proof {
        assert(all.subrange(0, i as int) =~= all);
    }
    out
}

/// The merge operator of the store: counters and histories are written as
/// operands that are merged on read, so that writers of one key do not race.
pub struct QueueMergeOperator;

impl QueueMergeOperator {
    /// Whether merging operands into the value of a key stays within the
    /// range of a counter.
    pub fn can_merge(&self, key: &[u8], existing: Option<&[u8]>, operands: &Vec<Vec<u8>>) -> (r: bool)
        ensures
            r <==> (key@.len() > 0 && key@[0] == TAG_STATS ==> totals_fit(
                match existing {
                    Some(b) => Some(b@),
                    None => None,
                },
                operand_views(operands@),
            )),
    {
        if key.len() > 0 && key[0] == KeyTag::Stats.id() {
            match sum_counters(existing, operands) {
                Ok(Some(_)) => true,
                Ok(None) => false,
                Err(_) => true,
            }
        } else {
            true
        }
    }

    /// Merges operands, in order, into the value of a key.
    pub fn merge_batch(
        &self,
        key: &[u8],
        existing: Option<&[u8]>,
        operands: &Vec<Vec<u8>>,
    ) -> (r: Result<Vec<u8>, MergeError>)
        requires
            key@.len() > 0 && key@[0] == TAG_STATS ==> totals_fit(
                match existing {
                    Some(b) => Some(b@),
                    None => None,
                },
                operand_views(operands@),
            ),
        ensures
            match merged(
                key@,
                match existing {
                    Some(b) => Some(b@),
                    None => None,
                },
                operand_views(operands@),
            ) {
                Ok(bytes) => r matches Ok(out) && out@ == bytes,
                Err(e) => r == Err::<Vec<u8>, MergeError>(e),
            },
    {
        if key.len() > 0 && key[0] == KeyTag::Stats.id() {
            merge_counters(existing, operands)
        } else if key.len() > 0 && key[0] == KeyTag::AttemptHistory.id() {
            Ok(merge_append(existing, operands))
        } else {
            Err(MergeError::NonMergingKey)
        }
    }

    /// Merges one operand into the value of a key.
    pub fn merge(&self, key: &[u8], existing: Option<&[u8]>, operand: Vec<u8>) -> (r: Result<
        Vec<u8>,
        MergeError,
    >)
        requires
            key@.len() > 0 && key@[0] == TAG_STATS ==> totals_fit(
                match existing {
                    Some(b) => Some(b@),
                    None => None,
                },
                seq![operand@],
            ),
        ensures
            match merged(
                key@,
                match existing {
                    Some(b) => Some(b@),
                    None => None,
                },
                seq![operand@],
            ) {
                Ok(bytes) => r matches Ok(out) && out@ == bytes,
                Err(e) => r == Err::<Vec<u8>, MergeError>(e),
            },
    {
        let ghost view = operand@;
        let mut operands: Vec<Vec<u8>> = Vec::new();
        operands.push(operand);
        assert(operand_views(operands@) =~= seq![view]);
        self.merge_batch(key, existing, &operands)
    }
}

proof fn counter_total_in_steps(existing: Option<Seq<u8>>, a: Seq<Seq<u8>>, b: Seq<Seq<u8>>)
    requires
        counter_total(existing, a) matches Some(total) && i64::MIN <= total <= i64::MAX,
    ensures
        counter_total(
            Some(counter_encoding(counter_total(existing, a).unwrap() as i64)),
            b,
        ) == counter_total(existing, a + b),
    decreases b.len(),
{
    if b.len() == 0 {
        assert(a + b =~= a);
        counter_round_trip(counter_total(existing, a).unwrap() as i64);
    } else {
        counter_total_in_steps(existing, a, b.drop_last());
        assert((a + b).drop_last() =~= a + b.drop_last());
    }
}

proof fn appended_in_steps(existing: Seq<u8>, a: Seq<Seq<u8>>, b: Seq<Seq<u8>>)
    ensures
        appended(appended(existing, a), b) == appended(existing, a + b),
    decreases b.len(),
{
    if b.len() == 0 {
        assert(a + b =~= a);
    } else {
        appended_in_steps(existing, a, b.drop_last());
        assert((a + b).drop_last() =~= a + b.drop_last());
    }
}

/// Merging in two steps gives what merging all at once gives, so that the
/// store may merge operands whenever it pleases.
pub proof fn merging_in_steps_gives_the_same(
    key: Seq<u8>,
    existing: Option<Seq<u8>>,
    a: Seq<Seq<u8>>,
    b: Seq<Seq<u8>>,
)
    requires
        merged(key, existing, a) is Ok,
        key.len() > 0 && key[0] == TAG_STATS ==> totals_fit(existing, a),
    ensures
        merged(key, Some(merged(key, existing, a).unwrap()), b) == merged(key, existing, a + b),
{
    if key[0] == TAG_STATS {
        counter_total_in_steps(existing, a, b);
    } else {
        appended_in_steps(
            match existing {
                Some(bytes) => bytes,
                None => Seq::empty(),
            },
            a,
            b,
        );
    }
}

/// A delta may as well be added last.
proof fn delta_moves_to_the_end(existing: Option<Seq<u8>>, deltas: Seq<Seq<u8>>, i: int)
    requires
        0 <= i < deltas.len(),
    ensures
        counter_total(existing, deltas) == counter_total(
            existing,
            deltas.remove(i).push(deltas[i]),
        ),
    decreases deltas.len(),
{
    reveal_with_fuel(counter_total, 3);
    let moved = deltas.remove(i).push(deltas[i]);
    assert(moved.drop_last() =~= deltas.remove(i));
    if i == deltas.len() - 1 {
        assert(moved =~= deltas);
    } else {
        let fewer = deltas.drop_last();
        delta_moves_to_the_end(existing, fewer, i);
        assert(fewer.remove(i).push(fewer[i]).drop_last() =~= fewer.remove(i));
        assert(deltas.remove(i).drop_last() =~= fewer.remove(i));
        assert(deltas.remove(i).last() == deltas.last());
    }
}

/// Counters take deltas in any order.
pub proof fn counter_deltas_commute(
    existing: Option<Seq<u8>>,
    deltas: Seq<Seq<u8>>,
    reordered: Seq<Seq<u8>>,
)
    requires
        deltas.to_multiset() == reordered.to_multiset(),
    ensures
        counter_total(existing, deltas) == counter_total(existing, reordered),
    decreases deltas.len(),
{
    deltas.to_multiset_ensures();
    reordered.to_multiset_ensures();
    if deltas.len() > 0 {
        let last = reordered.last();
        assert(reordered[reordered.len() - 1] == last);
        assert(reordered.to_multiset().count(last) > 0);
        assert(deltas.contains(last));
        let i = choose|i: int| 0 <= i < deltas.len() && deltas[i] == last;
        let fewer = deltas.remove(i);
        assert(reordered.remove(reordered.len() - 1) =~= reordered.drop_last());
        counter_deltas_commute(existing, fewer, reordered.drop_last());
        delta_moves_to_the_end(existing, deltas, i);
        assert(fewer.push(last).drop_last() =~= fewer);
    }
}

} // verus!

//! Job ids, claim tokens and names of payload objects, drawn from ULIDs.

use crate::bytes::{before, before_after_common_prefix, before_by_leading_field, parts_at};
use vstd::prelude::*;
use vstd::utf8::encode_utf8;

verus! {

/// The values of a ULID's random component, which fills its low 80 bits.
pub const RANDOM_VALUES: u128 = 0x1_0000_0000_0000_0000_0000;

/// The milliseconds that a ULID's 48-bit time component can tell apart.
pub const TIME_VALUES: u64 = 0x1_0000_0000_0000;

/// The digit of Crockford's base 32 for `d`, as an ASCII byte.
pub open spec fn base32_digit(d: nat) -> u8 {
    if d < 10 {
        (0x30 + d) as u8
    } else if d < 18 {
        (0x41 + (d - 10)) as u8
    } else if d < 20 {
        (0x4a + (d - 18)) as u8
    } else if d < 22 {
        (0x4d + (d - 20)) as u8
    } else if d < 27 {
        (0x50 + (d - 22)) as u8
    } else {
        (0x56 + (d - 27)) as u8
    }
}

/// The low `n` digits of `v` in base 32, most significant first.
pub open spec fn base32(v: nat, n: nat) -> Seq<u8>
    decreases n,
{
    if n == 0 {
        Seq::empty()
    } else {
        base32(v / 32, (n - 1) as nat).push(base32_digit(v % 32))
    }
}

/// The 26 digits of a ULID.
pub open spec fn ulid_digits(v: u128) -> Seq<u8> {
    base32(v as nat, 26)
}

spec fn pow32(n: nat) -> nat
    decreases n,
{
    if n == 0 {
        1
    } else {
        32 * pow32((n - 1) as nat)
    }
}

proof fn base32_len(v: nat, n: nat)
    ensures
        base32(v, n).len() == n,
    decreases n,
{
    if n > 0 {
        base32_len(v / 32, (n - 1) as nat);
    }
}

proof fn base32_keeps_order(x: nat, y: nat, n: nat)
    requires
        x < y < pow32(n),
    ensures
        before(base32(x, n), base32(y, n)),
        base32(x, n) != base32(y, n),
    decreases n,
{
    if n > 0 {
        let m = (n - 1) as nat;
        let p = base32(x / 32, m);
        let q = base32(y / 32, m);
        let a = seq![base32_digit(x % 32)];
        let b = seq![base32_digit(y % 32)];
        base32_len(x / 32, m);
        base32_len(y / 32, m);
        assert(base32(x, n) =~= p + a);
        assert(base32(y, n) =~= q + b);
        if x / 32 == y / 32 {
            assert(base32_digit(x % 32) < base32_digit(y % 32));
            assert(parts_at(a, b, 0));
            before_after_common_prefix(p, a, b);
            assert(base32(x, n).last() != base32(y, n).last());
        } else {
            base32_keeps_order(x / 32, y / 32, m);
            before_by_leading_field(p, q, a, b);
            assert(base32(x, n).drop_last() =~= p);
            assert(base32(y, n).drop_last() =~= q);
        }
    }
}

/// ULIDs are ordered as their texts, so that ids which increase sort in the
/// order in which they were made.
pub proof fn ulid_texts_keep_order(x: u128, y: u128)
    requires
        x < y,
    ensures
        before(ulid_digits(x), ulid_digits(y)),
        ulid_digits(x) != ulid_digits(y),
{
    assert(pow32(26) > u128::MAX) by {
        reveal_with_fuel(pow32, 27);
    }
    base32_keeps_order(x as nat, y as nat, 26);
}

/// The text of a ULID has 26 bytes, each of which is a digit or an
/// upper-case letter.
pub proof fn ulid_text_is_an_acceptable_id(v: u128)
    ensures
        ulid_digits(v).len() == 26,
        forall|i: int| 0 <= i < 26 ==> crate::options::id_byte(#[trigger] ulid_digits(v)[i]),
{
    base32_len(v as nat, 26);
    base32_bytes(v as nat, 26);
}

proof fn base32_bytes(v: nat, n: nat)
    ensures
        forall|i: int| 0 <= i < base32(v, n).len() ==> crate::options::id_byte(#[trigger] base32(v, n)[i]),
    decreases n,
{
    if n > 0 {
        base32_bytes(v / 32, (n - 1) as nat);
        let rest = base32(v / 32, (n - 1) as nat);
        assert forall|i: int| 0 <= i < base32(v, n).len() implies crate::options::id_byte(
            #[trigger] base32(v, n)[i],
        ) by {
            if i < rest.len() {
                assert(base32(v, n)[i] == rest[i]);
            }
        }
    }
}

/// The generator type of the `ulid` crate, carried as it is.
#[verifier::external_type_specification]
#[verifier::external_body]
pub struct ExGenerator(ulid::Generator);

/// The value of the ULID that a generator made last; zero for one that made
/// none.
pub uninterp spec fn last_generated(generator: ulid::Generator) -> u128;

/// [`ulid::Generator::new`]: a generator that made no ULID yet.
#[verifier::external_body]
fn new_generator() -> (r: ulid::Generator)
    ensures
        last_generated(r) == 0,
{
    ulid::Generator::new()
}

/// [`ulid::Generator::generate_from_datetime`] for `now_ms` milliseconds
/// after the UNIX epoch.
///
/// The contract claims that a time past the previous ULID's gives a ULID of
/// that time, that any other time gives the successor of the previous ULID,
/// and that nothing is made when the previous random component is the largest
/// there is. The random component of a ULID of a new time is left unsaid.
#[verifier::external_body]
fn generate(generator: &mut ulid::Generator, now_ms: u64) -> (r: Option<u128>)
    requires
        now_ms < TIME_VALUES,
    ensures
        match r {
            Some(id) => {
                &&& last_generated(*final(generator)) == id
                &&& if now_ms <= last_generated(*old(generator)) / RANDOM_VALUES {
                    id == last_generated(*old(generator)) + 1
                } else {
                    id / RANDOM_VALUES == now_ms
                }
            },
            None => {
                &&& last_generated(*final(generator)) == last_generated(*old(generator))
                &&& now_ms <= last_generated(*old(generator)) / RANDOM_VALUES
                &&& last_generated(*old(generator)) % RANDOM_VALUES == RANDOM_VALUES - 1
            },
        },
        r is Some && now_ms <= last_generated(*old(generator)) / RANDOM_VALUES
            ==> last_generated(*old(generator)) % RANDOM_VALUES != RANDOM_VALUES - 1,
{
    let at = std::time::UNIX_EPOCH + std::time::Duration::from_millis(now_ms);
    generator.generate_from_datetime(at).ok().map(|id| id.0)
}

/// [`ulid::Ulid::from_datetime`] for `now_ms` milliseconds after the UNIX
/// epoch. The contract claims that the ULID has that time; its random
/// component is left unsaid.
#[verifier::external_body]
fn ulid_of_time(now_ms: u64) -> (r: u128)
    requires
        now_ms < TIME_VALUES,
    ensures
        r / RANDOM_VALUES == now_ms,
{
    let at = std::time::UNIX_EPOCH + std::time::Duration::from_millis(now_ms);
    ulid::Ulid::from_datetime(at).0
}

/// [`ulid::Ulid::to_string`]. The contract claims that the text is the 26
/// digits of the value in Crockford's base 32.
#[verifier::external_body]
fn ulid_text(v: u128) -> (r: String)
    ensures
        encode_utf8(r@) == ulid_digits(v),
{
    ulid::Ulid(v).to_string()
}

/// A new claim token: the low 64 bits of [`ulid::Ulid::new`]. They lie in the
/// random component, so nothing is claimed of them. Tokens tell the claims of a
/// job apart and have no order.
#[verifier::external_body]
pub(crate) fn new_claim_token() -> (r: u64)
{
    ulid::Ulid::new().0 as u64
}

/// The source of job ids.
///
/// Ids increase with call order, also inside one millisecond, since pending
/// keys are ordered by id within a priority.
pub struct JobIds {
    generator: ulid::Generator,
}

impl View for JobIds {
    type V = u128;

    /// The value of the last id.
    closed spec fn view(&self) -> u128 {
        last_generated(self.generator)
    }
}

/// Whether a source whose last id was `last` can go on at `now_ms`: a
/// millisecond has room for 2^80 ids.
pub open spec fn has_next(last: u128, now_ms: u64) -> bool {
    last % RANDOM_VALUES < RANDOM_VALUES - 1 || last / RANDOM_VALUES < now_ms
}

/// Whether `id` may follow on a source whose last id was `last`, leaving it
/// at `after`.
///
/// The id is greater than the last one, and its time is `now_ms` or, where
/// the clock went back, the time of the last id. Past 2^80 ids in one
/// millisecond an id of that time is given without regard to order.
pub open spec fn next_id(last: u128, after: u128, now_ms: u64, id: Seq<char>) -> bool {
    if has_next(last, now_ms) {
        &&& encode_utf8(id) == ulid_digits(after)
        &&& after > last
        &&& after / RANDOM_VALUES == if now_ms as int <= last / RANDOM_VALUES {
            (last / RANDOM_VALUES) as int
        } else {
            now_ms as int
        }
    } else {
        &&& after == last
        &&& exists|v: u128|
            v / RANDOM_VALUES == now_ms && encode_utf8(id) == #[trigger] ulid_digits(v)
    }
}

/// Ids increase with call order, whatever the clock does in between.
pub proof fn ids_increase_with_call_order(
    last: u128,
    mid: u128,
    after: u128,
    now1: u64,
    now2: u64,
    first: Seq<char>,
    second: Seq<char>,
)
    requires
        has_next(last, now1),
        has_next(mid, now2),
        next_id(last, mid, now1, first),
        next_id(mid, after, now2, second),
    ensures
        before(encode_utf8(first), encode_utf8(second)),
        first != second,
{
    ulid_texts_keep_order(mid, after);
}

impl JobIds {
    /// A source that gave no id yet.
    pub fn new() -> (r: JobIds)
        ensures
            r@ == 0,
    {
        JobIds { generator: new_generator() }
    }

    /// A new job id, drawn at `now_ms`.
    pub fn next_job_id(&mut self, now_ms: u64) -> (r: String)
        requires
            now_ms < TIME_VALUES,
        ensures
            next_id(old(self)@, final(self)@, now_ms, r@),
    {
        match generate(&mut self.generator, now_ms) {
            Some(id) => ulid_text(id),
            None => ulid_text(ulid_of_time(now_ms)),
        }
    }
}

/// A name for a payload object, which random bits tell from any other.
pub fn new_payload_ref(now_ms: u64) -> (r: String)
    requires
        now_ms < TIME_VALUES,
    ensures
        exists|v: u128|
            v / RANDOM_VALUES == now_ms && encode_utf8(r@) == #[trigger] ulid_digits(v),
{
    ulid_text(ulid_of_time(now_ms))
}

} // verus!

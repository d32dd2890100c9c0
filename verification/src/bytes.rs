//! Byte strings: comparison, big-endian integers and UTF-8 text.

use vstd::prelude::*;
use vstd::utf8::*;

verus! {

/// Whether `a` and `b` agree on their first `i` bytes and `a` ends there or
/// holds the smaller byte next.
pub open spec fn parts_at(a: Seq<u8>, b: Seq<u8>, i: int) -> bool {
    &&& 0 <= i <= a.len()
    &&& i < b.len()
    &&& forall|j: int| 0 <= j < i ==> a[j] == b[j]
    &&& (i == a.len() || a[i] < b[i])
}

/// Lexicographic order of byte strings, the order in which the store keeps
/// its keys.
pub open spec fn before(a: Seq<u8>, b: Seq<u8>) -> bool {
    exists|i: int| parts_at(a, b, i)
}

/// Whether `prefix` opens `bytes`.
pub open spec fn starts_with(bytes: Seq<u8>, prefix: Seq<u8>) -> bool {
    prefix.len() <= bytes.len() && bytes.subrange(0, prefix.len() as int) == prefix
}

/// No byte string comes before itself.
pub proof fn before_is_irreflexive(a: Seq<u8>)
    ensures
        !before(a, a),
{
}

/// The byte order is transitive.
pub proof fn before_is_transitive(a: Seq<u8>, b: Seq<u8>, c: Seq<u8>)
    requires
        before(a, b),
        before(b, c),
    ensures
        before(a, c),
{
    let i = choose|i: int| parts_at(a, b, i);
    let j = choose|j: int| parts_at(b, c, j);
    let k = if i <= j {
        i
    } else {
        j
    };
    assert(parts_at(a, c, k));
}

/// Two distinct byte strings are ordered one way or the other.
pub proof fn before_is_total(a: Seq<u8>, b: Seq<u8>)
    ensures
        a == b || before(a, b) || before(b, a),
    decreases a.len(),
{
    let i = first_difference(a, b);
    first_difference_parts(a, b);
    if i == a.len() && i == b.len() {
        assert(a =~= b);
    } else if i == b.len() {
        assert(parts_at(b, a, i));
    } else if i == a.len() {
        assert(parts_at(a, b, i));
    } else if a[i] < b[i] {
        assert(parts_at(a, b, i));
    } else {
        assert(parts_at(b, a, i));
    }
}

spec fn first_difference(a: Seq<u8>, b: Seq<u8>) -> int
    decreases a.len(),
{
    if a.len() == 0 || b.len() == 0 || a[0] != b[0] {
        0
    } else {
        1 + first_difference(a.drop_first(), b.drop_first())
    }
}

proof fn first_difference_parts(a: Seq<u8>, b: Seq<u8>)
    ensures
        ({
            let i = first_difference(a, b);
            &&& 0 <= i <= a.len()
            &&& i <= b.len()
            &&& forall|j: int| 0 <= j < i ==> a[j] == b[j]
            &&& i < a.len() && i < b.len() ==> a[i] != b[i]
        }),
    decreases a.len(),
{
    if a.len() == 0 || b.len() == 0 || a[0] != b[0] {
    } else {
        let ta = a.drop_first();
        let tb = b.drop_first();
        first_difference_parts(ta, tb);
        let i = first_difference(a, b);
        assert forall|j: int| 0 <= j < i implies a[j] == b[j] by {
            if j > 0 {
                assert(ta[j - 1] == tb[j - 1]);
            }
        }
        if i < a.len() && i < b.len() {
            assert(ta[i - 1] != tb[i - 1]);
        }
    }
}

/// Byte strings that share a prefix are ordered as what follows it.
pub proof fn before_after_common_prefix(p: Seq<u8>, a: Seq<u8>, b: Seq<u8>)
    ensures
        before(p + a, p + b) == before(a, b),
{
    if before(a, b) {
        let i = choose|i: int| parts_at(a, b, i);
        assert(parts_at(p + a, p + b, p.len() + i));
    }
    if before(p + a, p + b) {
        let i = choose|i: int| parts_at(p + a, p + b, i);
        if i < p.len() {
            assert((p + a)[i] == (p + b)[i]);
        } else {
            let k = i - p.len();
            assert forall|j: int| 0 <= j < k implies a[j] == b[j] by {
                assert((p + a)[p.len() + j] == (p + b)[p.len() + j]);
            }
            if k < a.len() {
                assert((p + a)[i] == a[k]);
                assert((p + b)[i] == b[k]);
            }
            assert(parts_at(a, b, k));
        }
    }
}

/// Byte strings that open with distinct strings of one length are ordered
/// as those.
pub proof fn before_by_leading_field(p: Seq<u8>, q: Seq<u8>, a: Seq<u8>, b: Seq<u8>)
    requires
        p.len() == q.len(),
        p != q,
    ensures
        before(p + a, q + b) == before(p, q),
{
    first_difference_parts(p, q);
    let d = first_difference(p, q);
    if d == p.len() {
        assert(p =~= q);
    }
    assert((p + a)[d] == p[d] && (q + b)[d] == q[d]);
    assert forall|j: int| 0 <= j < d implies (p + a)[j] == (q + b)[j] by {
        assert(p[j] == q[j]);
    }
    if p[d] < q[d] {
        assert(parts_at(p, q, d));
        assert(parts_at(p + a, q + b, d));
    } else {
        assert(parts_at(q, p, d));
        assert(parts_at(q + b, p + a, d));
        if before(p, q) {
            before_is_transitive(p, q, p);
        }
        if before(p + a, q + b) {
            before_is_transitive(p + a, q + b, p + a);
        }
    }
}

/// Splitting two equal strings at one position gives equal parts.
pub proof fn concat_is_injective(p: Seq<u8>, q: Seq<u8>, a: Seq<u8>, b: Seq<u8>)
    requires
        p.len() == q.len(),
        p + a == q + b,
    ensures
        p == q,
        a == b,
{
    assert(p =~= (p + a).subrange(0, p.len() as int));
    assert(q =~= (q + b).subrange(0, p.len() as int));
    assert(a =~= (p + a).subrange(p.len() as int, (p + a).len() as int));
    assert(b =~= (q + b).subrange(p.len() as int, (q + b).len() as int));
}

/// `256` to the power `n`.
pub open spec fn pow256(n: nat) -> nat
    decreases n,
{
    if n == 0 {
        1
    } else {
        256 * pow256((n - 1) as nat)
    }
}

/// The low `n` bytes of `x`, most significant first.
pub open spec fn big_endian(x: nat, n: nat) -> Seq<u8>
    decreases n,
{
    if n == 0 {
        Seq::empty()
    } else {
        big_endian(x / 256, (n - 1) as nat).push((x % 256) as u8)
    }
}

/// The integer whose bytes, most significant first, are `bytes`.
pub open spec fn from_big_endian(bytes: Seq<u8>) -> nat
    decreases bytes.len(),
{
    if bytes.len() == 0 {
        0
    } else {
        256 * from_big_endian(bytes.drop_last()) + bytes.last() as nat
    }
}

pub proof fn big_endian_len(x: nat, n: nat)
    ensures
        big_endian(x, n).len() == n,
    decreases n,
{
    if n > 0 {
        big_endian_len(x / 256, (n - 1) as nat);
    }
}

/// Decoding undoes encoding.
pub proof fn big_endian_round_trip(x: nat, n: nat)
    requires
        x < pow256(n),
    ensures
        from_big_endian(big_endian(x, n)) == x,
    decreases n,
{
    if n > 0 {
        let rest = big_endian(x / 256, (n - 1) as nat);
        let all = big_endian(x, n);
        assert(all.drop_last() =~= rest);
        assert(all.last() == (x % 256) as u8);
        big_endian_round_trip(x / 256, (n - 1) as nat);
    }
}

/// Encoding undoes decoding.
pub proof fn from_big_endian_round_trip(bytes: Seq<u8>)
    ensures
        big_endian(from_big_endian(bytes), bytes.len()) == bytes,
        from_big_endian(bytes) < pow256(bytes.len()),
    decreases bytes.len(),
{
    if bytes.len() > 0 {
        from_big_endian_round_trip(bytes.drop_last());
        let x = from_big_endian(bytes);
        assert(x / 256 == from_big_endian(bytes.drop_last()));
        assert(x % 256 == bytes.last() as nat);
        assert(bytes =~= bytes.drop_last().push(bytes.last()));
    } else {
        assert(bytes =~= Seq::empty());
    }
}

/// Integers are ordered as their big-endian encodings.
pub proof fn big_endian_keeps_order(x: nat, y: nat, n: nat)
    requires
        x < pow256(n),
        y < pow256(n),
    ensures
        before(big_endian(x, n), big_endian(y, n)) == (x < y),
        (big_endian(x, n) == big_endian(y, n)) == (x == y),
    decreases n,
{
    big_endian_round_trip(x, n);
    big_endian_round_trip(y, n);
    if n > 0 {
        let m = (n - 1) as nat;
        let p = big_endian(x / 256, m);
        let q = big_endian(y / 256, m);
        let a = seq![(x % 256) as u8];
        let b = seq![(y % 256) as u8];
        big_endian_len(x / 256, m);
        big_endian_len(y / 256, m);
        big_endian_keeps_order(x / 256, y / 256, m);
        assert(big_endian(x, n) =~= p + a);
        assert(big_endian(y, n) =~= q + b);
        if p == q {
            before_after_common_prefix(p, a, b);
            assert(before(a, b) == ((x % 256) < (y % 256))) by {
                if x % 256 < y % 256 {
                    assert(parts_at(a, b, 0));
                }
            }
        } else {
            before_by_leading_field(p, q, a, b);
        }
    }
}

/// The fields of a key are at most eight bytes wide.
pub proof fn pow256_values()
    ensures
        pow256(4) == 0x1_0000_0000,
        pow256(8) == 0x1_0000_0000_0000_0000,
{
    reveal_with_fuel(pow256, 9);
}

/// Distinct texts have distinct encodings.
pub proof fn utf8_is_injective(a: Seq<char>, b: Seq<char>)
    ensures
        (encode_utf8(a) == encode_utf8(b)) == (a == b),
{
    encode_utf8_decode_utf8(a);
    encode_utf8_decode_utf8(b);
}

/// Appends the low `n` bytes of `x`, most significant first.
pub fn push_big_endian(out: &mut Vec<u8>, x: u64, n: usize)
    ensures
        final(out)@ == old(out)@ + big_endian(x as nat, n as nat),
    decreases n,
{
    if n > 0 {
        push_big_endian(out, x / 256, n - 1);
        out.push((x % 256) as u8);
    }
    proof {
        assert(out@ =~= old(out)@ + big_endian(x as nat, n as nat));
    }
}

/// Reads an integer of at most eight bytes, most significant first.
pub fn read_big_endian(bytes: &[u8]) -> (x: u64)
    requires
        bytes@.len() <= 8,
    ensures
        x == from_big_endian(bytes@),
{
    let mut x: u64 = 0;
    let mut i: usize = 0;
    proof {
        assert(bytes@.subrange(0, 0) =~= Seq::empty());
    }
    while i < bytes.len()
        invariant
            0 <= i <= bytes@.len() <= 8,
            x == from_big_endian(bytes@.subrange(0, i as int)),
        decreases bytes@.len() - i,
    {
        proof {
            let next = bytes@.subrange(0, i + 1);
            assert(next.drop_last() =~= bytes@.subrange(0, i as int));
            from_big_endian_round_trip(next);
            reveal_with_fuel(pow256, 9);
            assert(pow256(next.len()) <= pow256(8)) by {
                pow256_is_monotone(next.len(), 8);
            }
        }
        x = x * 256 + bytes[i] as u64;
        i += 1;
    }
    proof {
        assert(bytes@.subrange(0, i as int) =~= bytes@);
    }
    x
}

proof fn pow256_is_monotone(a: nat, b: nat)
    requires
        a <= b,
    ensures
        pow256(a) <= pow256(b),
    decreases b,
{
    if a < b {
        pow256_is_monotone(a, (b - 1) as nat);
    }
}

/// Whether two byte strings are equal.
pub fn same_bytes(a: &[u8], b: &[u8]) -> (r: bool)
    ensures
        r == (a@ == b@),
{
    if a.len() != b.len() {
        return false;
    }
    let mut i: usize = 0;
    while i < a.len()
        invariant
            a@.len() == b@.len(),
            0 <= i <= a@.len(),
            forall|j: int| 0 <= j < i ==> a@[j] == b@[j],
        decreases a@.len() - i,
    {
        if a[i] != b[i] {
            return false;
        }
        i += 1;
    }
    assert(a@ =~= b@);
    true
}

/// Whether `a` comes before `b` in byte order.
pub fn bytes_before(a: &[u8], b: &[u8]) -> (r: bool)
    ensures
        r == before(a@, b@),
{
    let mut i: usize = 0;
    while i < a.len() && i < b.len()
        invariant
            0 <= i <= a@.len(),
            i <= b@.len(),
            forall|j: int| 0 <= j < i ==> a@[j] == b@[j],
        decreases a@.len() - i,
    {
        if a[i] != b[i] {
            proof {
                if a@[i as int] < b@[i as int] {
                    assert(parts_at(a@, b@, i as int));
                } else {
                    assert(parts_at(b@, a@, i as int));
                    if before(a@, b@) {
                        before_is_transitive(a@, b@, a@);
                    }
                }
            }
            return a[i] < b[i];
        }
        i += 1;
    }
    proof {
        if i < b@.len() {
            assert(parts_at(a@, b@, i as int));
        }
    }
    i < b.len()
}

/// Whether `prefix` opens `bytes`.
pub fn has_prefix(bytes: &[u8], prefix: &[u8]) -> (r: bool)
    ensures
        r == starts_with(bytes@, prefix@),
{
    if bytes.len() < prefix.len() {
        return false;
    }
    let mut i: usize = 0;
    while i < prefix.len()
        invariant
            prefix@.len() <= bytes@.len(),
            0 <= i <= prefix@.len(),
            forall|j: int| 0 <= j < i ==> bytes@[j] == prefix@[j],
        decreases prefix@.len() - i,
    {
        if bytes[i] != prefix[i] {
            assert(bytes@.subrange(0, prefix@.len() as int)[i as int] != prefix@[i as int]);
            return false;
        }
        i += 1;
    }
    assert(bytes@.subrange(0, prefix@.len() as int) =~= prefix@);
    true
}

/// A copy of a byte string.
pub fn copy_bytes(bytes: &[u8]) -> (r: Vec<u8>)
    ensures
        r@ == bytes@,
{
    let mut out: Vec<u8> = Vec::new();
    out.extend_from_slice(bytes);
    assert(out@ =~= bytes@);
    out
}

/// The part of a byte string from `from` up to `to`.
pub fn copy_range(bytes: &[u8], from: usize, to: usize) -> (r: Vec<u8>)
    requires
        from <= to <= bytes@.len(),
    ensures
        r@ == bytes@.subrange(from as int, to as int),
{
    let mut out: Vec<u8> = Vec::new();
    let mut i: usize = from;
    while i < to
        invariant
            from <= i <= to <= bytes@.len(),
            out@ == bytes@.subrange(from as int, i as int),
        decreases to - i,
    {
        out.push(bytes[i]);
        i += 1;
        assert(out@ =~= bytes@.subrange(from as int, i as int));
    }
    out
}

/// Whether two texts are equal.
pub fn same_text(a: &str, b: &str) -> (r: bool)
    ensures
        r == (a@ == b@),
{
    proof {
        utf8_is_injective(a@, b@);
    }
    same_bytes(a.as_bytes(), b.as_bytes())
}

/// The text whose UTF-8 encoding is `bytes`, by
/// [`String::from_utf8`]. The contract claims that a text comes back exactly
/// for valid UTF-8, and that encoding it gives `bytes` back.
#[verifier::external_body]
pub(crate) fn text_from_utf8(bytes: Vec<u8>) -> (r: Option<String>)
    ensures
        r is Some <==> valid_utf8(bytes@),
        r matches Some(text) ==> encode_utf8(text@) == bytes@,
{
    String::from_utf8(bytes).ok()
}

} // verus!

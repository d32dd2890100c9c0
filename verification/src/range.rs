//! Ranges of keys.

use crate::bytes::{
    before, before_after_common_prefix, before_is_total, before_is_transitive, bytes_before,
    concat_is_injective, copy_bytes, copy_range, has_prefix, parts_at, same_bytes, starts_with,
};
use vstd::prelude::*;

verus! {

/// One end of a range of keys.
#[derive(Debug)]
pub enum KeyBound {
    /// The range is open at this end.
    Unbounded,
    /// The range ends with the key.
    Included(Vec<u8>),
    /// The range ends next to the key.
    Excluded(Vec<u8>),
}

/// The contents of a [`KeyBound`].
pub enum KeyBoundView {
    Unbounded,
    Included(Seq<u8>),
    Excluded(Seq<u8>),
}

impl View for KeyBound {
    type V = KeyBoundView;

    open spec fn view(&self) -> KeyBoundView {
        match self {
            KeyBound::Unbounded => KeyBoundView::Unbounded,
            KeyBound::Included(key) => KeyBoundView::Included(key@),
            KeyBound::Excluded(key) => KeyBoundView::Excluded(key@),
        }
    }
}

impl Clone for KeyBound {
    fn clone(&self) -> (r: KeyBound)
        ensures
            r@ == self@,
    {
        match self {
            KeyBound::Unbounded => KeyBound::Unbounded,
            KeyBound::Included(key) => KeyBound::Included(copy_bytes(key.as_slice())),
            KeyBound::Excluded(key) => KeyBound::Excluded(copy_bytes(key.as_slice())),
        }
    }
}

/// Whether a key is in a range that starts at a bound.
pub open spec fn past_start(key: Seq<u8>, start: KeyBoundView) -> bool {
    match start {
        KeyBoundView::Unbounded => true,
        KeyBoundView::Included(b) => b == key || before(b, key),
        KeyBoundView::Excluded(b) => before(b, key),
    }
}

/// Whether a key is in a range that ends at a bound.
pub open spec fn short_of_end(key: Seq<u8>, end: KeyBoundView) -> bool {
    match end {
        KeyBoundView::Unbounded => true,
        KeyBoundView::Included(b) => b == key || before(key, b),
        KeyBoundView::Excluded(b) => before(key, b),
    }
}

/// Whether a key is in a range.
pub open spec fn in_range(key: Seq<u8>, start: KeyBoundView, end: KeyBoundView) -> bool {
    past_start(key, start) && short_of_end(key, end)
}

/// Where a bound lies among the keys that open with a prefix.
#[derive(Debug)]
enum Side {
    /// Before every one of them.
    Before,
    /// Among them: a bound on the part of the key after the prefix.
    Within(KeyBound),
    /// After every one of them.
    After,
}

/// A key that comes before a prefix comes before every key that opens with
/// it.
pub proof fn before_prefix(key: Seq<u8>, prefix: Seq<u8>, suffix: Seq<u8>)
    requires
        before(key, prefix),
    ensures
        before(key, prefix + suffix),
        key != prefix + suffix,
        !before(prefix + suffix, key),
{
    let i = choose|i: int| parts_at(key, prefix, i);
    assert(parts_at(key, prefix + suffix, i));
    if before(prefix + suffix, key) {
        before_is_transitive(key, prefix + suffix, key);
    }
}

/// A key that neither opens with a prefix nor comes before it comes after
/// every key that opens with it.
pub proof fn after_prefix(key: Seq<u8>, prefix: Seq<u8>, suffix: Seq<u8>)
    requires
        !starts_with(key, prefix),
        !before(key, prefix),
    ensures
        before(prefix + suffix, key),
        key != prefix + suffix,
        !before(key, prefix + suffix),
{
    before_is_total(key, prefix);
    if key == prefix {
        assert(key.subrange(0, prefix.len() as int) =~= prefix);
    }
    let i = choose|i: int| parts_at(prefix, key, i);
    if i == prefix.len() {
        assert(key.subrange(0, prefix.len() as int) =~= prefix);
    }
    assert(parts_at(prefix + suffix, key, i));
    if before(key, prefix + suffix) {
        before_is_transitive(key, prefix + suffix, key);
    }
}

/// A key that opens with a prefix is ordered among the keys that do as the
/// part after the prefix.
pub proof fn within_prefix(key: Seq<u8>, prefix: Seq<u8>, suffix: Seq<u8>)
    requires
        starts_with(key, prefix),
    ensures
        ({
            let rest = key.subrange(prefix.len() as int, key.len() as int);
            &&& key == prefix + rest
            &&& before(rest, suffix) == before(key, prefix + suffix)
            &&& before(suffix, rest) == before(prefix + suffix, key)
            &&& (rest == suffix) == (key == prefix + suffix)
        }),
{
    let rest = key.subrange(prefix.len() as int, key.len() as int);
    assert(key =~= prefix + rest);
    before_after_common_prefix(prefix, rest, suffix);
    before_after_common_prefix(prefix, suffix, rest);
    if key == prefix + suffix {
        concat_is_injective(prefix, prefix, rest, suffix);
    }
}

fn side(prefix: &[u8], bound: &KeyBound) -> (r: Side)
    ensures
        match r {
            Side::Before => forall|suffix: Seq<u8>|
                #![trigger past_start(prefix@ + suffix, bound@)]
                #![trigger short_of_end(prefix@ + suffix, bound@)]
                past_start(prefix@ + suffix, bound@) && !short_of_end(prefix@ + suffix, bound@),
            Side::Within(inner) => forall|suffix: Seq<u8>|
                #![trigger past_start(prefix@ + suffix, bound@)]
                #![trigger short_of_end(prefix@ + suffix, bound@)]
                past_start(prefix@ + suffix, bound@) == past_start(suffix, inner@)
                    && short_of_end(prefix@ + suffix, bound@) == short_of_end(suffix, inner@),
            Side::After => forall|suffix: Seq<u8>|
                #![trigger past_start(prefix@ + suffix, bound@)]
                #![trigger short_of_end(prefix@ + suffix, bound@)]
                !past_start(prefix@ + suffix, bound@) && short_of_end(prefix@ + suffix, bound@),
        },
{
    let key = match bound {
        KeyBound::Unbounded => {
            return Side::Within(KeyBound::Unbounded);
        },
        KeyBound::Included(key) => key,
        KeyBound::Excluded(key) => key,
    };
    if has_prefix(key.as_slice(), prefix) {
        let rest = copy_range(key.as_slice(), prefix.len(), key.len());
        proof {
            assert forall|suffix: Seq<u8>| #[trigger] before(rest@, suffix) == before(
                key@,
                prefix@ + suffix,
            ) && before(suffix, rest@) == before(prefix@ + suffix, key@) && (rest@ == suffix) == (
            key@ == prefix@ + suffix) by {
                within_prefix(key@, prefix@, suffix);
            }
        }
        let inner = match bound {
            KeyBound::Included(_) => KeyBound::Included(rest),
            _ => KeyBound::Excluded(rest),
        };
        proof {
            assert forall|suffix: Seq<u8>|
                #![trigger past_start(prefix@ + suffix, bound@)]
                #![trigger short_of_end(prefix@ + suffix, bound@)]
                past_start(prefix@ + suffix, bound@) == past_start(suffix, inner@) && short_of_end(
                    prefix@ + suffix,
                    bound@,
                ) == short_of_end(suffix, inner@) by {
                within_prefix(key@, prefix@, suffix);
            }
        }
        Side::Within(inner)
    } else if bytes_before(key.as_slice(), prefix) {
        proof {
            assert forall|suffix: Seq<u8>|
                #![trigger past_start(prefix@ + suffix, bound@)]
                #![trigger short_of_end(prefix@ + suffix, bound@)]
                past_start(prefix@ + suffix, bound@) && !short_of_end(prefix@ + suffix, bound@) by {
                before_prefix(key@, prefix@, suffix);
            }
        }
        Side::Before
    } else {
        proof {
            assert forall|suffix: Seq<u8>|
                #![trigger past_start(prefix@ + suffix, bound@)]
                #![trigger short_of_end(prefix@ + suffix, bound@)]
                !past_start(prefix@ + suffix, bound@) && short_of_end(prefix@ + suffix, bound@) by {
                after_prefix(key@, prefix@, suffix);
            }
        }
        Side::After
    }
}

/// Whether a pair of bounds passes the store's test for a range that is not
/// empty.
pub open spec fn bounds_ordered(start: KeyBoundView, end: KeyBoundView) -> bool {
    match (start, end) {
        (KeyBoundView::Unbounded, _) => true,
        (_, KeyBoundView::Unbounded) => true,
        (KeyBoundView::Included(a), KeyBoundView::Included(b)) => a == b || before(a, b),
        (KeyBoundView::Included(a), KeyBoundView::Excluded(b)) => before(a, b),
        (KeyBoundView::Excluded(a), KeyBoundView::Included(b)) => before(a, b),
        (KeyBoundView::Excluded(a), KeyBoundView::Excluded(b)) => before(a, b),
    }
}

/// No key is in a range whose bounds are not ordered.
pub proof fn disordered_range_is_empty(key: Seq<u8>, start: KeyBoundView, end: KeyBoundView)
    requires
        in_range(key, start, end),
    ensures
        bounds_ordered(start, end),
{
    match (start, end) {
        (KeyBoundView::Included(a), KeyBoundView::Included(b)) => {
            if before(a, key) && before(key, b) {
                before_is_transitive(a, key, b);
            }
        },
        (KeyBoundView::Included(a), KeyBoundView::Excluded(b)) => {
            if before(a, key) {
                before_is_transitive(a, key, b);
            }
        },
        (KeyBoundView::Excluded(a), KeyBoundView::Included(b)) => {
            if before(key, b) {
                before_is_transitive(a, key, b);
            }
        },
        (KeyBoundView::Excluded(a), KeyBoundView::Excluded(b)) => {
            before_is_transitive(a, key, b);
        },
        _ => {},
    }
}

/// The first key of a range that starts at a bound.
pub open spec fn first_key(start: KeyBoundView) -> Seq<u8> {
    match start {
        KeyBoundView::Unbounded => Seq::empty(),
        KeyBoundView::Included(b) => b,
        KeyBoundView::Excluded(b) => b.push(0),
    }
}

/// Appending a zero byte to a key gives the next one.
pub proof fn next_key(a: Seq<u8>, key: Seq<u8>)
    ensures
        before(a, key) <==> (key == a.push(0) || before(a.push(0), key)),
{
    let next = a.push(0);
    let n = a.len() as int;
    assert(parts_at(a, next, n));
    if before(a, key) {
        let i = choose|i: int| parts_at(a, key, i);
        if i < n {
            assert(parts_at(next, key, i));
        } else if key[n] > 0 {
            assert(parts_at(next, key, n));
        } else if key.len() > n + 1 {
            assert(parts_at(next, key, n + 1));
        } else {
            assert(key =~= next);
        }
    }
    if before(next, key) {
        before_is_transitive(a, next, key);
    }
}

/// A key is in a range that starts at a bound where it is the first one or
/// comes after it.
pub proof fn first_key_is_first(key: Seq<u8>, start: KeyBoundView)
    ensures
        past_start(key, start) <==> (key == first_key(start) || before(first_key(start), key)),
{
    match start {
        KeyBoundView::Unbounded => {
            if key.len() > 0 {
                assert(parts_at(Seq::empty(), key, 0));
            } else {
                assert(key =~= Seq::empty());
            }
        },
        KeyBoundView::Included(_) => {},
        KeyBoundView::Excluded(b) => {
            next_key(b, key);
        },
    }
}

/// A range holds a key where it holds its first one.
pub proof fn range_holds_its_first_key(key: Seq<u8>, start: KeyBoundView, end: KeyBoundView)
    requires
        in_range(key, start, end),
    ensures
        in_range(first_key(start), start, end),
{
    let first = first_key(start);
    first_key_is_first(key, start);
    first_key_is_first(first, start);
    if before(first, key) {
        match end {
            KeyBoundView::Unbounded => {},
            KeyBoundView::Included(b) => {
                if before(key, b) {
                    before_is_transitive(first, key, b);
                }
            },
            KeyBoundView::Excluded(b) => {
                before_is_transitive(first, key, b);
            },
        }
    }
}

/// Whether a range has a key at all.
fn has_key(start: &KeyBound, end: &KeyBound) -> (r: bool)
    ensures
        r == in_range(first_key(start@), start@, end@),
{
    proof {
        first_key_is_first(first_key(start@), start@);
    }
    let first: Vec<u8> = match start {
        KeyBound::Unbounded => {
            let none: Vec<u8> = Vec::new();
            assert(none@ =~= Seq::empty());
            none
        },
        KeyBound::Included(b) => copy_bytes(b.as_slice()),
        KeyBound::Excluded(b) => {
            let mut next = copy_bytes(b.as_slice());
            next.push(0);
            next
        },
    };
    match end {
        KeyBound::Unbounded => true,
        KeyBound::Included(b) => same_bytes(b.as_slice(), first.as_slice()) || bytes_before(
            first.as_slice(),
            b.as_slice(),
        ),
        KeyBound::Excluded(b) => bytes_before(first.as_slice(), b.as_slice()),
    }
}

/// The bounds of a range on the part of the key after `prefix`, or `None`
/// where no key that opens with the prefix is in the range.
pub fn subrange(prefix: &[u8], start: &KeyBound, end: &KeyBound) -> (r: Option<
    (KeyBound, KeyBound),
>)
    ensures
        r is None <==> forall|suffix: Seq<u8>|
            !in_range(#[trigger] (prefix@ + suffix), start@, end@),
        r matches Some((inner_start, inner_end)) ==> {
            &&& bounds_ordered(inner_start@, inner_end@)
            &&& forall|suffix: Seq<u8>| #[trigger]
                in_range(suffix, inner_start@, inner_end@) == in_range(
                    prefix@ + suffix,
                    start@,
                    end@,
                )
        },
{
    let inner_start = match side(prefix, start) {
        Side::Before => KeyBound::Unbounded,
        Side::Within(bound) => bound,
        Side::After => {
            return None;
        },
    };
    let inner_end = match side(prefix, end) {
        Side::Before => {
            return None;
        },
        Side::Within(bound) => bound,
        Side::After => KeyBound::Unbounded,
    };
    proof {
        assert forall|suffix: Seq<u8>| #[trigger] in_range(suffix, inner_start@, inner_end@)
            == in_range(prefix@ + suffix, start@, end@) by {
            assert(past_start(prefix@ + suffix, start@) == past_start(suffix, inner_start@));
            assert(short_of_end(prefix@ + suffix, end@) == short_of_end(suffix, inner_end@));
        }
    }
    if has_key(&inner_start, &inner_end) {
        proof {
            let first = first_key(inner_start@);
            assert(in_range(first, inner_start@, inner_end@));
            assert(in_range(prefix@ + first, start@, end@));
            disordered_range_is_empty(first, inner_start@, inner_end@);
        }
        Some((inner_start, inner_end))
    } else {
        proof {
            assert forall|suffix: Seq<u8>| !in_range(
                #[trigger] (prefix@ + suffix),
                start@,
                end@,
            ) by {
                if in_range(prefix@ + suffix, start@, end@) {
                    assert(in_range(suffix, inner_start@, inner_end@));
                    range_holds_its_first_key(suffix, inner_start@, inner_end@);
                }
            }
        }
        None
    }
}

} // verus!

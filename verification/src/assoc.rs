//! Association lists: sequences of key and value pairs read as maps.

use vstd::prelude::*;

verus! {

/// The map that a list of pairs stands for; of two pairs with one key the
/// later counts.
pub open spec fn to_map<K, V>(s: Seq<(K, V)>) -> Map<K, V>
    decreases s.len(),
{
    if s.len() == 0 {
        Map::empty()
    } else {
        to_map(s.drop_last()).insert(s.last().0, s.last().1)
    }
}

/// Whether no key occurs twice.
pub open spec fn distinct_keys<K, V>(s: Seq<(K, V)>) -> bool {
    forall|i: int, j: int| 0 <= i < j < s.len() ==> s[i].0 != s[j].0
}

/// Whether `k` occurs.
pub open spec fn has_key<K, V>(s: Seq<(K, V)>, k: K) -> bool {
    exists|i: int| 0 <= i < s.len() && s[i].0 == k
}

/// The keys of the map are the keys of the list.
pub proof fn to_map_domain<K, V>(s: Seq<(K, V)>, k: K)
    ensures
        to_map(s).contains_key(k) == has_key(s, k),
    decreases s.len(),
{
    if s.len() > 0 {
        let rest = s.drop_last();
        to_map_domain(rest, k);
        if has_key(rest, k) {
            let i = choose|i: int| 0 <= i < rest.len() && rest[i].0 == k;
            assert(s[i].0 == k);
        }
        if s.last().0 == k {
            assert(s[s.len() - 1].0 == k);
        }
        if has_key(s, k) && s.last().0 != k {
            let i = choose|i: int| 0 <= i < s.len() && s[i].0 == k;
            assert(rest[i].0 == k);
        }
    }
}

/// Where keys are distinct, each pair is in the map.
pub proof fn to_map_value<K, V>(s: Seq<(K, V)>, i: int)
    requires
        distinct_keys(s),
        0 <= i < s.len(),
    ensures
        to_map(s).contains_key(s[i].0),
        to_map(s)[s[i].0] == s[i].1,
    decreases s.len(),
{
    let rest = s.drop_last();
    if i < s.len() - 1 {
        assert(distinct_keys(rest)) by {
            assert forall|a: int, b: int| 0 <= a < b < rest.len() implies rest[a].0
                != rest[b].0 by {
                assert(s[a].0 != s[b].0);
            }
        }
        to_map_value(rest, i);
        assert(s[i].0 != s[s.len() - 1].0);
    }
}

/// Appending a pair inserts it.
pub proof fn to_map_push<K, V>(s: Seq<(K, V)>, k: K, v: V)
    ensures
        to_map(s.push((k, v))) == to_map(s).insert(k, v),
        distinct_keys(s) && !has_key(s, k) ==> distinct_keys(s.push((k, v))),
{
    assert(s.push((k, v)).drop_last() =~= s);
}

/// Two lists of distinct keys that hold the same pairs give the same map.
proof fn same_pairs_same_map<K, V>(s: Seq<(K, V)>, m: Map<K, V>)
    requires
        distinct_keys(s),
        forall|i: int| 0 <= i < s.len() ==> m.contains_key(#[trigger] s[i].0) && m[s[i].0] == s[i].1,
        forall|k: K| #[trigger] m.contains_key(k) ==> has_key(s, k),
    ensures
        to_map(s) == m,
{
    assert forall|k: K| to_map(s).contains_key(k) == #[trigger] m.contains_key(k) by {
        to_map_domain(s, k);
        if has_key(s, k) {
            let i = choose|i: int| 0 <= i < s.len() && s[i].0 == k;
            assert(m.contains_key(s[i].0));
        }
    }
    assert forall|k: K| #[trigger] to_map(s).contains_key(k) implies to_map(s)[k] == m[k] by {
        to_map_domain(s, k);
        let i = choose|i: int| 0 <= i < s.len() && s[i].0 == k;
        to_map_value(s, i);
        assert(m[s[i].0] == s[i].1);
    }
    assert(to_map(s) =~= m);
}

/// Replacing the value of a pair replaces it in the map.
pub proof fn to_map_update<K, V>(s: Seq<(K, V)>, j: int, v: V)
    requires
        distinct_keys(s),
        0 <= j < s.len(),
    ensures
        to_map(s.update(j, (s[j].0, v))) == to_map(s).insert(s[j].0, v),
        distinct_keys(s.update(j, (s[j].0, v))),
{
    let k = s[j].0;
    let t = s.update(j, (k, v));
    let m = to_map(s).insert(k, v);
    assert forall|a: int, b: int| 0 <= a < b < t.len() implies t[a].0 != t[b].0 by {
        assert(s[a].0 != s[b].0);
    }
    assert forall|i: int| 0 <= i < t.len() implies m.contains_key(#[trigger] t[i].0) && m[t[i].0]
        == t[i].1 by {
        to_map_value(s, i);
        if i != j {
            if i < j {
                assert(s[i].0 != s[j].0);
            } else {
                assert(s[j].0 != s[i].0);
            }
        }
    }
    assert forall|q: K| #[trigger] m.contains_key(q) implies has_key(t, q) by {
        if q == k {
            assert(t[j].0 == q);
        } else {
            to_map_domain(s, q);
            let i = choose|i: int| 0 <= i < s.len() && s[i].0 == q;
            assert(t[i].0 == q);
        }
    }
    same_pairs_same_map(t, m);
}

/// Removing a pair removes its key from the map.
pub proof fn to_map_remove<K, V>(s: Seq<(K, V)>, j: int)
    requires
        distinct_keys(s),
        0 <= j < s.len(),
    ensures
        to_map(s.remove(j)) == to_map(s).remove(s[j].0),
        distinct_keys(s.remove(j)),
{
    let k = s[j].0;
    let t = s.remove(j);
    let m = to_map(s).remove(k);
    assert forall|a: int, b: int| 0 <= a < b < t.len() implies t[a].0 != t[b].0 by {
        let a2 = if a < j {
            a
        } else {
            a + 1
        };
        let b2 = if b < j {
            b
        } else {
            b + 1
        };
        assert(s[a2].0 != s[b2].0);
    }
    assert forall|i: int| 0 <= i < t.len() implies m.contains_key(#[trigger] t[i].0) && m[t[i].0]
        == t[i].1 by {
        let i2 = if i < j {
            i
        } else {
            i + 1
        };
        to_map_value(s, i2);
        if i2 < j {
            assert(s[i2].0 != s[j].0);
        } else {
            assert(s[j].0 != s[i2].0);
        }
    }
    assert forall|q: K| #[trigger] m.contains_key(q) implies has_key(t, q) by {
        to_map_domain(s, q);
        let i = choose|i: int| 0 <= i < s.len() && s[i].0 == q;
        if i < j {
            assert(t[i].0 == q);
        } else {
            assert(t[i - 1].0 == q);
        }
    }
    same_pairs_same_map(t, m);
}

/// The map of a list of distinct keys has as many entries as the list.
pub proof fn to_map_len<K, V>(s: Seq<(K, V)>)
    requires
        distinct_keys(s),
    ensures
        to_map(s).dom().finite(),
        to_map(s).dom().len() == s.len(),
    decreases s.len(),
{
    if s.len() > 0 {
        let rest = s.drop_last();
        assert forall|a: int, b: int| 0 <= a < b < rest.len() implies rest[a].0 != rest[b].0 by {
            assert(s[a].0 != s[b].0);
        }
        to_map_len(rest);
        to_map_domain(rest, s.last().0);
        if has_key(rest, s.last().0) {
            let i = choose|i: int| 0 <= i < rest.len() && rest[i].0 == s.last().0;
            assert(s[i].0 != s[s.len() - 1].0);
        }
        assert(to_map(s).dom() =~= to_map(rest).dom().insert(s.last().0));
    } else {
        assert(to_map(s).dom() =~= Set::empty());
    }
}

} // verus!

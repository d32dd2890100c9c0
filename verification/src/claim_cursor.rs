//! Where the claim scan of each queue starts.
//!
//! A claim deletes the keys at the front of the pending key space, which
//! leaves a band of deleted keys behind. The cursor remembers where the live
//! keys begin, so that a scan does not walk that band again, and whether a
//! scan has shown a queue to be empty.

use crate::assoc::{
    distinct_keys, has_key, to_map, to_map_domain, to_map_push, to_map_update, to_map_value,
};
use crate::bytes::{
    before, before_is_total, before_is_transitive, bytes_before, copy_bytes, same_text,
};
use crate::store::entry;
use vstd::prelude::*;

verus! {

/// A lower bound on the live pending keys of a queue.
#[derive(Debug)]
pub struct ScanFrom {
    /// The bound.
    pub key: Vec<u8>,
    /// Whether the key at the bound may be live.
    pub inclusive: bool,
}

/// The contents of a [`ScanFrom`].
pub struct ScanFromView {
    pub key: Seq<u8>,
    pub inclusive: bool,
}

impl View for ScanFrom {
    type V = ScanFromView;

    open spec fn view(&self) -> ScanFromView {
        ScanFromView { key: self.key@, inclusive: self.inclusive }
    }
}

impl Clone for ScanFrom {
    fn clone(&self) -> (r: ScanFrom)
        ensures
            r@ == self@,
    {
        ScanFrom { key: copy_bytes(self.key.as_slice()), inclusive: self.inclusive }
    }
}

/// The contents of an optional bound.
pub open spec fn opt_bound(o: Option<ScanFrom>) -> Option<ScanFromView> {
    match o {
        Some(b) => Some(b@),
        None => None,
    }
}

/// A copy of an optional bound.
pub fn copy_bound(o: &Option<ScanFrom>) -> (r: Option<ScanFrom>)
    ensures
        opt_bound(r) == opt_bound(*o),
{
    match o {
        Some(b) => Some(b.clone()),
        None => None,
    }
}

/// What survives a clean close of a queue's scan state.
#[derive(Debug)]
pub struct CursorState {
    /// The bound, where one is established.
    pub scan_from: Option<ScanFrom>,
    /// Whether a scan has shown the queue to be empty.
    pub known_empty: bool,
}

/// The scan state of one queue at the start of a claim.
#[derive(Debug)]
pub struct ClaimScan {
    /// The bound; `None` scans from the front.
    pub scan_from: Option<ScanFrom>,
    /// Whether a scan has shown the queue to be empty.
    pub known_empty: bool,
    /// The number of pending inserts noted so far, within 64 bits.
    pub epoch: u64,
}

/// The scan state of one queue.
pub struct CursorView {
    pub scan_from: Option<ScanFromView>,
    pub known_empty: bool,
    pub epoch: u64,
}

impl View for ClaimScan {
    type V = CursorView;

    open spec fn view(&self) -> CursorView {
        CursorView {
            scan_from: opt_bound(self.scan_from),
            known_empty: self.known_empty,
            epoch: self.epoch,
        }
    }
}

/// Whether a key is not excluded by a bound.
pub open spec fn within(key: Seq<u8>, bound: Option<ScanFromView>) -> bool {
    match bound {
        None => true,
        Some(b) => before(b.key, key) || (key == b.key && b.inclusive),
    }
}

impl CursorView {
    /// The state of a queue that nothing is known of.
    pub open spec fn unknown() -> CursorView {
        CursorView { scan_from: None, known_empty: false, epoch: 0 }
    }

    /// The state after `key` was inserted: the queue is not empty, and a
    /// bound past the key moves back to it.
    pub open spec fn inserted(self, key: Seq<u8>) -> CursorView {
        CursorView {
            scan_from: if within(key, self.scan_from) {
                self.scan_from
            } else {
                Some(ScanFromView { key, inclusive: true })
            },
            known_empty: false,
            epoch: self.epoch.wrapping_add(1),
        }
    }

    /// The state after a scan found nothing; an insert since the scan began
    /// revokes it.
    pub open spec fn emptied(self, epoch: u64) -> CursorView {
        CursorView { known_empty: self.known_empty || self.epoch == epoch, ..self }
    }

    /// The state after every key up to `last` was claimed; an insert since
    /// the scan began leaves the bound where it is.
    pub open spec fn advanced(self, last: Seq<u8>, epoch: u64) -> CursorView {
        if self.epoch == epoch {
            CursorView { scan_from: Some(ScanFromView { key: last, inclusive: false }), ..self }
        } else {
            self
        }
    }
}

struct Entry {
    queue: String,
    state: ClaimScan,
}

spec fn entry_pairs(entries: Seq<Entry>) -> Seq<(Seq<char>, CursorView)> {
    Seq::new(entries.len(), |i: int| (entries[i].queue@, entries[i].state@))
}

/// The scan states of all queues.
pub struct ClaimCursor {
    entries: Vec<Entry>,
}

impl View for ClaimCursor {
    type V = Map<Seq<char>, CursorView>;

    closed spec fn view(&self) -> Map<Seq<char>, CursorView> {
        to_map(entry_pairs(self.entries@))
    }
}

impl ClaimCursor {
    #[verifier::type_invariant]
    spec fn inv(self) -> bool {
        distinct_keys(entry_pairs(self.entries@))
    }

    /// The scan state of a queue.
    pub open spec fn state(self, queue: Seq<char>) -> CursorView {
        match entry(self@, queue) {
            Some(state) => state,
            None => CursorView::unknown(),
        }
    }

    /// Nothing known of any queue.
    pub fn new() -> (r: ClaimCursor)
        ensures
            r@ == Map::<Seq<char>, CursorView>::empty(),
    {
        let entries: Vec<Entry> = Vec::new();
        assert(entry_pairs(entries@) =~= Seq::empty());
        ClaimCursor { entries }
    }

    fn position(&self, queue: &str) -> (r: Option<usize>)
        ensures
            match r {
                Some(i) => {
                    &&& i < self.entries@.len()
                    &&& self.entries@[i as int].queue@ == queue@
                    &&& entry(self@, queue@) == Some(self.entries@[i as int].state@)
                },
                None => entry(self@, queue@) is None && !has_key(
                    entry_pairs(self.entries@),
                    queue@,
                ),
            },
    {
        proof {
            use_type_invariant(self);
        }
        let ghost pairs = entry_pairs(self.entries@);
        let mut i: usize = 0;
        while i < self.entries.len()
            invariant
                0 <= i <= self.entries@.len(),
                pairs == entry_pairs(self.entries@),
                distinct_keys(pairs),
                forall|j: int| 0 <= j < i ==> (#[trigger] pairs[j]).0 != queue@,
            decreases self.entries@.len() - i,
        {
            if same_text(self.entries[i].queue.as_str(), queue) {
                proof {
                    assert(pairs[i as int].0 == queue@);
                    to_map_value(pairs, i as int);
                }
                return Some(i);
            }
            assert(pairs[i as int].0 != queue@);
            i += 1;
        }
        proof {
            to_map_domain(pairs, queue@);
        }
        None
    }

    fn put(&mut self, queue: &str, state: ClaimScan)
        ensures
            final(self)@ == old(self)@.insert(queue@, state@),
    {
        let found = self.position(queue);
        proof {
            use_type_invariant(&*self);
        }
        let ghost pairs = entry_pairs(self.entries@);
        let ghost view = state@;
        let mut entries: Vec<Entry> = Vec::new();
        std::mem::swap(&mut entries, &mut self.entries);
        match found {
            Some(i) => {
                entries.set(i, Entry { queue: queue.to_owned(), state });
                proof {
                    to_map_update(pairs, i as int, view);
                    assert(entry_pairs(entries@) =~= pairs.update(
                        i as int,
                        (pairs[i as int].0, view),
                    ));
                }
            },
            None => {
                entries.push(Entry { queue: queue.to_owned(), state });
                proof {
                    to_map_push(pairs, queue@, view);
                    assert(entry_pairs(entries@) =~= pairs.push((queue@, view)));
                }
            },
        }
        self.entries = entries;
    }

    /// The scan state of a queue at the start of a claim.
    pub fn begin_claim(&self, queue: &str) -> (r: ClaimScan)
        ensures
            r@ == self.state(queue@),
    {
        match self.position(queue) {
            Some(i) => ClaimScan {
                scan_from: copy_bound(&self.entries[i].state.scan_from),
                known_empty: self.entries[i].state.known_empty,
                epoch: self.entries[i].state.epoch,
            },
            None => ClaimScan { scan_from: None, known_empty: false, epoch: 0 },
        }
    }

    /// Notes that a pending key was committed. Called after the commit.
    pub fn note_pending_insert(&mut self, queue: &str, key: &[u8])
        ensures
            final(self)@ == old(self)@.insert(queue@, old(self).state(queue@).inserted(key@)),
    {
        let scan = self.begin_claim(queue);
        let behind: bool = match &scan.scan_from {
            None => false,
            Some(b) => {
                proof {
                    before_is_total(b.key@, key@);
                    if before(key@, b.key@) && before(b.key@, key@) {
                        before_is_transitive(key@, b.key@, key@);
                    }
                }
                !(bytes_before(b.key.as_slice(), key) || (b.inclusive && !bytes_before(
                    key,
                    b.key.as_slice(),
                )))
            },
        };
        let scan_from = if behind {
            Some(ScanFrom { key: copy_bytes(key), inclusive: true })
        } else {
            scan.scan_from
        };
        self.put(
            queue,
            ClaimScan { scan_from, known_empty: false, epoch: scan.epoch.wrapping_add(1) },
        );
    }

    /// Records that a scan begun at `epoch` left nothing pending.
    pub fn mark_empty(&mut self, queue: &str, epoch: u64)
        ensures
            final(self)@ == old(self)@.insert(queue@, old(self).state(queue@).emptied(epoch)),
    {
        let scan = self.begin_claim(queue);
        self.put(
            queue,
            ClaimScan {
                scan_from: scan.scan_from,
                known_empty: scan.known_empty || scan.epoch == epoch,
                epoch: scan.epoch,
            },
        );
    }

    /// Records that a claim begun with `scan` took every key up to `last`.
    pub fn advance(&mut self, queue: &str, last: &[u8], scan: &ClaimScan)
        ensures
            final(self)@ == old(self)@.insert(
                queue@,
                old(self).state(queue@).advanced(last@, scan.epoch),
            ),
    {
        let now = self.begin_claim(queue);
        let scan_from = if now.epoch == scan.epoch {
            Some(ScanFrom { key: copy_bytes(last), inclusive: false })
        } else {
            now.scan_from
        };
        self.put(queue, ClaimScan { scan_from, known_empty: now.known_empty, epoch: now.epoch });
    }

    /// Takes over the scan state that a clean close left of a queue.
    pub fn restore(&mut self, queue: &str, state: CursorState)
        ensures
            final(self)@ == old(self)@.insert(
                queue@,
                CursorView {
                    scan_from: opt_bound(state.scan_from),
                    known_empty: state.known_empty,
                    epoch: old(self).state(queue@).epoch,
                },
            ),
    {
        let now = self.begin_claim(queue);
        self.put(
            queue,
            ClaimScan {
                scan_from: state.scan_from,
                known_empty: state.known_empty,
                epoch: now.epoch,
            },
        );
    }

    /// The scan states to keep across a clean close: those of the queues of
    /// which anything is known.
    pub fn export(&self) -> (r: Vec<(String, CursorState)>)
        ensures
            forall|i: int|
                0 <= i < r@.len() ==> {
                    let (queue, state) = #[trigger] r@[i];
                    &&& self@.contains_key(queue@)
                    &&& opt_bound(state.scan_from) == self@[queue@].scan_from
                    &&& state.known_empty == self@[queue@].known_empty
                    &&& (state.scan_from is Some || state.known_empty)
                },
            forall|queue: Seq<char>| #[trigger]
                self@.contains_key(queue) && (self@[queue].scan_from is Some
                    || self@[queue].known_empty) ==> exists|i: int|
                    0 <= i < r@.len() && (#[trigger] r@[i]).0@ == queue,
            forall|i: int, j: int|
                0 <= i < j < r@.len() ==> (#[trigger] r@[i]).0@ != (#[trigger] r@[j]).0@,
    {
        let ghost pairs = entry_pairs(self.entries@);
        proof {
            use_type_invariant(self);
        }
        let mut out: Vec<(String, CursorState)> = Vec::new();
        let ghost mut origin: Seq<int> = Seq::empty();
        let mut i: usize = 0;
        while i < self.entries.len()
            invariant
                0 <= i <= self.entries@.len(),
                pairs == entry_pairs(self.entries@),
                distinct_keys(pairs),
                self@ == to_map(pairs),
                origin.len() == out@.len(),
                forall|k: int| 0 <= k < origin.len() ==> 0 <= #[trigger] origin[k] < i,
                forall|k: int, l: int| 0 <= k < l < origin.len() ==> origin[k] < origin[l],
                forall|k: int|
                    0 <= k < out@.len() ==> (#[trigger] out@[k]).0@ == pairs[origin[k]].0,
                forall|k: int|
                    0 <= k < out@.len() ==> {
                        let (queue, state) = #[trigger] out@[k];
                        &&& self@.contains_key(queue@)
                        &&& opt_bound(state.scan_from) == self@[queue@].scan_from
                        &&& state.known_empty == self@[queue@].known_empty
                        &&& (state.scan_from is Some || state.known_empty)
                    },
                forall|j: int|
                    0 <= j < i && ((#[trigger] pairs[j]).1.scan_from is Some
                        || pairs[j].1.known_empty) ==> exists|k: int|
                        0 <= k < out@.len() && (#[trigger] out@[k]).0@ == pairs[j].0,
            decreases self.entries@.len() - i,
        {
            let ghost before_out = out@;
            let e = &self.entries[i];
            proof {
                to_map_value(pairs, i as int);
            }
            if e.state.scan_from.is_some() || e.state.known_empty {
                out.push(
                    (
                        e.queue.clone(),
                        CursorState {
                            scan_from: copy_bound(&e.state.scan_from),
                            known_empty: e.state.known_empty,
                        },
                    ),
                );
                proof {
                    origin = origin.push(i as int);
                    assert(out@[out@.len() - 1].0@ == pairs[i as int].0);
                }
            }
            proof {
                assert forall|j: int| 0 <= j < i + 1 && ((#[trigger] pairs[j]).1.scan_from is Some
                    || pairs[j].1.known_empty) implies exists|k: int|
                    0 <= k < out@.len() && (#[trigger] out@[k]).0@ == pairs[j].0 by {
                    if j < i {
                        let k = choose|k: int|
                            0 <= k < before_out.len() && (#[trigger] before_out[k]).0@
                                == pairs[j].0;
                        assert(out@[k].0@ == pairs[j].0);
                    }
                }
            }
            i += 1;
        }
        proof {
            assert forall|queue: Seq<char>| #[trigger]
                self@.contains_key(queue) && (self@[queue].scan_from is Some
                    || self@[queue].known_empty) implies exists|k: int|
                0 <= k < out@.len() && (#[trigger] out@[k]).0@ == queue by {
                to_map_domain(pairs, queue);
                let j = choose|j: int| 0 <= j < pairs.len() && pairs[j].0 == queue;
                to_map_value(pairs, j);
                assert(pairs[j].1.scan_from is Some || pairs[j].1.known_empty);
            }
            assert forall|k: int, l: int| 0 <= k < l < out@.len() implies (
            #[trigger] out@[k]).0@ != (#[trigger] out@[l]).0@ by {
                assert(pairs[origin[k]].0 != pairs[origin[l]].0);
            }
        }
        out
    }
}

/// Whether the scan state of a queue is right about its pending keys: of the
/// live keys, those whose insert was noted are within the bound, and there
/// are none where the queue is known to be empty.
pub open spec fn cursor_sound(
    state: CursorView,
    live: Set<Seq<u8>>,
    unnoted: Set<Seq<u8>>,
) -> bool {
    forall|key: Seq<u8>| #[trigger]
        live.contains(key) && !unnoted.contains(key) ==> within(key, state.scan_from)
            && !state.known_empty
}

/// A state of which nothing is known is right about any keys.
pub proof fn unknown_cursor_is_sound(live: Set<Seq<u8>>, unnoted: Set<Seq<u8>>)
    ensures
        cursor_sound(CursorView::unknown(), live, unnoted),
{
}

/// An insert that is committed and not noted yet leaves the state right.
pub proof fn insert_keeps_cursor_sound(
    state: CursorView,
    live: Set<Seq<u8>>,
    unnoted: Set<Seq<u8>>,
    key: Seq<u8>,
)
    requires
        cursor_sound(state, live, unnoted),
    ensures
        cursor_sound(state, live.insert(key), unnoted.insert(key)),
{
}

/// Noting an insert leaves the state right with that key taken into account,
/// and the queue is no longer known to be empty.
pub proof fn note_keeps_cursor_sound(
    state: CursorView,
    live: Set<Seq<u8>>,
    unnoted: Set<Seq<u8>>,
    key: Seq<u8>,
)
    requires
        cursor_sound(state, live, unnoted),
    ensures
        cursor_sound(state.inserted(key), live, unnoted.remove(key)),
        !state.inserted(key).known_empty,
{
    assert forall|k: Seq<u8>| #[trigger]
        live.contains(k) && !unnoted.remove(key).contains(k) implies within(
        k,
        state.inserted(key).scan_from,
    ) && !state.inserted(key).known_empty by {
        if k != key {
            assert(within(k, state.scan_from));
            if !within(key, state.scan_from) {
                let b = state.scan_from.unwrap();
                before_is_total(b.key, key);
                before_is_total(key, k);
                if before(key, b.key) && before(b.key, k) {
                    before_is_transitive(key, b.key, k);
                }
            }
        }
    }
}

/// Removing keys leaves the state right.
pub proof fn removal_keeps_cursor_sound(
    state: CursorView,
    live: Set<Seq<u8>>,
    unnoted: Set<Seq<u8>>,
    gone: Set<Seq<u8>>,
)
    requires
        cursor_sound(state, live, unnoted),
    ensures
        cursor_sound(state, live.difference(gone), unnoted),
{
}

/// Advancing after a claim leaves the state right, and so does marking the
/// queue empty where the scan ran out of keys.
///
/// `seen` are the keys that were live in the claim's snapshot and `taken`
/// those the scan returned: every seen key within the bound up to `last`, or
/// every one within the bound where it drained the queue. A key that is live
/// and noted when the state is updated, with no insert noted since the scan
/// began, was live in the snapshot.
pub proof fn claim_keeps_cursor_sound(
    begin: CursorView,
    state: CursorView,
    seen: Set<Seq<u8>>,
    live: Set<Seq<u8>>,
    unnoted: Set<Seq<u8>>,
    taken: Set<Seq<u8>>,
    last: Seq<u8>,
    drained: bool,
)
    requires
        cursor_sound(state, live, unnoted),
        state.epoch == begin.epoch ==> state.scan_from == begin.scan_from,
        state.epoch == begin.epoch ==> forall|key: Seq<u8>| #[trigger]
            live.contains(key) && !unnoted.contains(key) ==> seen.contains(key),
        forall|key: Seq<u8>| #[trigger]
            taken.contains(key) ==> !live.contains(key),
        forall|key: Seq<u8>| #[trigger]
            seen.contains(key) && within(key, begin.scan_from) && !before(last, key)
                ==> taken.contains(key),
        drained ==> forall|key: Seq<u8>| #[trigger]
            seen.contains(key) && within(key, begin.scan_from) ==> taken.contains(key),
    ensures
        cursor_sound(state.advanced(last, begin.epoch), live, unnoted),
        drained ==> cursor_sound(
            state.advanced(last, begin.epoch).emptied(begin.epoch),
            live,
            unnoted,
        ),
        drained ==> cursor_sound(state.emptied(begin.epoch), live, unnoted),
{
    assert forall|key: Seq<u8>| #[trigger]
        live.contains(key) && !unnoted.contains(key) implies within(
        key,
        state.advanced(last, begin.epoch).scan_from,
    ) && (drained ==> state.epoch != begin.epoch) by {
        assert(within(key, state.scan_from));
        if state.epoch == begin.epoch {
            assert(seen.contains(key));
            assert(within(key, begin.scan_from));
        }
    }
}

} // verus!

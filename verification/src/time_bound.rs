//! A lower bound on the times of the live keys of a time-ordered key space,
//! so that a scan of the key space reads nothing until a key is due and then
//! starts at the bound.

use vstd::prelude::*;

verus! {

/// The smaller of two times.
pub open spec fn earlier(a: u64, b: u64) -> u64 {
    if a <= b {
        a
    } else {
        b
    }
}

/// Whether a key at `at_ms` is due: its time is `retention_ms` or more before
/// `now_ms`.
pub open spec fn key_due(at_ms: u64, now_ms: u64, retention_ms: u64) -> bool {
    at_ms + retention_ms <= now_ms
}

fn is_due(at_ms: u64, now_ms: u64, retention_ms: u64) -> (r: bool)
    ensures
        r == key_due(at_ms, now_ms, retention_ms),
{
    match at_ms.checked_add(retention_ms) {
        Some(due_at) => due_at <= now_ms,
        None => false,
    }
}

/// A lower bound on the times of the live keys of one key space whose keys
/// lead with the time of their event.
///
/// The bound does not exceed the time of a live key whose writer called
/// [`TimeBound::lower`] after the commit of the key. It starts at zero, so
/// that the first scan reads from the front of the key space.
#[derive(Debug)]
pub struct TimeBound {
    bound: u64,
}

impl View for TimeBound {
    type V = u64;

    closed spec fn view(&self) -> u64 {
        self.bound
    }
}

/// One scan of the key space from the bound. A completed scan leaves the
/// bound at the earliest time it retained, or at the maximum where it
/// retained no key. One given up leaves the bound where it began.
#[derive(Debug)]
pub struct Scan {
    now_ms: u64,
    retention_ms: u64,
    from: u64,
    retained: u64,
}

/// The contents of a [`Scan`].
pub struct ScanView {
    pub now_ms: u64,
    pub retention_ms: u64,
    pub from: u64,
    pub retained: u64,
}

impl View for Scan {
    type V = ScanView;

    closed spec fn view(&self) -> ScanView {
        ScanView {
            now_ms: self.now_ms,
            retention_ms: self.retention_ms,
            from: self.from,
            retained: self.retained,
        }
    }
}

impl TimeBound {
    /// A bound at zero.
    pub fn new() -> (r: TimeBound)
        ensures
            r@ == 0,
    {
        TimeBound { bound: 0 }
    }

    /// Lowers the bound to `at_ms` for a key at that time. Called after the
    /// commit that writes the key: a scan that ends between a call before the
    /// commit and the commit would raise the bound past the key.
    pub fn lower(&mut self, at_ms: u64)
        ensures
            final(self)@ == earlier(old(self)@, at_ms),
    {
        if at_ms < self.bound {
            self.bound = at_ms;
        }
    }

    /// Begins a scan at `now_ms`, or returns `None` where no key can be due.
    /// During the scan the bound is at the maximum, so that a call of
    /// [`TimeBound::lower`] lowers it below the time the scan leaves.
    pub fn begin(&mut self, now_ms: u64, retention_ms: u64) -> (r: Option<Scan>)
        ensures
            match r {
                None => !key_due(old(self)@, now_ms, retention_ms) && final(self)@ == old(self)@,
                Some(scan) => {
                    &&& key_due(old(self)@, now_ms, retention_ms)
                    &&& final(self)@ == u64::MAX
                    &&& scan@ == (ScanView {
                        now_ms,
                        retention_ms,
                        from: old(self)@,
                        retained: u64::MAX,
                    })
                },
            },
    {
        if !is_due(self.bound, now_ms, retention_ms) {
            return None;
        }
        let from: u64 = self.bound;
        self.bound = u64::MAX;
        Some(Scan { now_ms, retention_ms, from, retained: u64::MAX })
    }
}

impl Scan {
    /// The time the scan starts at.
    pub fn from(&self) -> (r: u64)
        ensures
            r == self@.from,
    {
        self.from
    }

    /// Whether a key at `at_ms` is due.
    pub fn due(&self, at_ms: u64) -> (r: bool)
        ensures
            r == key_due(at_ms, self@.now_ms, self@.retention_ms),
    {
        is_due(at_ms, self.now_ms, self.retention_ms)
    }

    /// Records a key at `at_ms` that the scan leaves in the key space: the
    /// first one that is not due, or one that is kept.
    pub fn retain(&mut self, at_ms: u64)
        ensures
            final(self)@ == (ScanView {
                retained: earlier(old(self)@.retained, at_ms),
                ..old(self)@
            }),
    {
        if at_ms < self.retained {
            self.retained = at_ms;
        }
    }

    /// Ends the scan with every key before the earliest retained time
    /// removed.
    pub fn complete(self, bound: &mut TimeBound)
        ensures
            final(bound)@ == earlier(old(bound)@, self@.retained),
    {
        bound.lower(self.retained);
    }

    /// Gives the scan up, with keys from its start on possibly still there.
    pub fn abandon(self, bound: &mut TimeBound)
        ensures
            final(bound)@ == earlier(old(bound)@, self@.from),
    {
        bound.lower(self.from);
    }
}

/// Whether a bound is right about the times of the live keys whose writers
/// lowered it. While a scan is under way, what it started from counts too.
pub open spec fn bound_sound(bound: u64, scan: Option<ScanView>, times: Set<u64>) -> bool {
    forall|at: u64| #[trigger]
        times.contains(at) ==> bound <= at || (scan matches Some(s) && s.from <= at)
}

/// A bound at zero is right about any keys.
pub proof fn zero_bound_is_sound(times: Set<u64>)
    ensures
        bound_sound(0, None, times),
{
}

/// Lowering the bound for a key leaves it right with that key among them.
pub proof fn lowering_keeps_bound_sound(
    bound: u64,
    scan: Option<ScanView>,
    times: Set<u64>,
    at: u64,
)
    requires
        bound_sound(bound, scan, times),
    ensures
        bound_sound(earlier(bound, at), scan, times.insert(at)),
{
}

/// Beginning a scan leaves the bound right.
pub proof fn beginning_keeps_bound_sound(bound: u64, scan: ScanView, times: Set<u64>)
    requires
        bound_sound(bound, None, times),
        scan.from == bound,
    ensures
        bound_sound(u64::MAX, Some(scan), times),
{
}

/// Where a scan is refused, no key is due.
pub proof fn refused_scan_misses_nothing(
    bound: u64,
    times: Set<u64>,
    now_ms: u64,
    retention_ms: u64,
    at: u64,
)
    requires
        bound_sound(bound, None, times),
        !key_due(bound, now_ms, retention_ms),
        times.contains(at),
    ensures
        !key_due(at, now_ms, retention_ms),
{
}

/// Completing a scan leaves the bound right: each live key was written during
/// the scan, and lowered the bound, or is at or after the earliest retained
/// time.
pub proof fn completion_keeps_bound_sound(bound: u64, scan: ScanView, times: Set<u64>)
    requires
        forall|at: u64| #[trigger] times.contains(at) ==> bound <= at || scan.retained <= at,
    ensures
        bound_sound(earlier(bound, scan.retained), None, times),
{
}

/// Giving a scan up leaves the bound right.
pub proof fn abandoning_keeps_bound_sound(bound: u64, scan: ScanView, times: Set<u64>)
    requires
        bound_sound(bound, Some(scan), times),
    ensures
        bound_sound(earlier(bound, scan.from), None, times),
{
}

} // verus!

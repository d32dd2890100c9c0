//! Spans of time and wall-clock instants.

use vstd::prelude::*;

verus! {

/// Nanoseconds in one second.
pub const NANOS_PER_SEC: u128 = 1_000_000_000;

/// Nanoseconds in one millisecond.
pub const NANOS_PER_MILLI: u128 = 1_000_000;

/// Nanoseconds in the longest representable span: `u64::MAX` seconds and
/// 999,999,999 nanoseconds.
pub const MAX_NANOS: u128 = 18_446_744_073_709_551_615_999_999_999;

/// A span of time with nanosecond precision, at most [`MAX_NANOS`] long.
#[derive(Clone, Copy, Debug, PartialEq, Eq, Structural)]
pub struct Duration {
    nanos: u128,
}

impl View for Duration {
    type V = nat;

    /// The length of the span in nanoseconds.
    closed spec fn view(&self) -> nat {
        self.nanos as nat
    }
}

/// The smaller of two spans, in nanoseconds.
pub open spec fn shorter(a: nat, b: nat) -> nat {
    if a <= b {
        a
    } else {
        b
    }
}

/// A span of `nanos` nanoseconds in whole milliseconds, `u64::MAX` where there
/// are more.
pub open spec fn millis_of(nanos: nat) -> nat {
    if nanos / NANOS_PER_MILLI as nat > u64::MAX {
        u64::MAX as nat
    } else {
        nanos / NANOS_PER_MILLI as nat
    }
}

impl Duration {
    #[verifier::type_invariant]
    spec fn inv(self) -> bool {
        self.nanos <= MAX_NANOS
    }

    /// The span of no length.
    pub fn zero() -> (r: Duration)
        ensures
            r@ == 0,
    {
        Duration { nanos: 0 }
    }

    /// A span of whole seconds.
    pub fn from_secs(secs: u64) -> (r: Duration)
        ensures
            r@ == secs * NANOS_PER_SEC,
    {
        assert(secs * 1_000_000_000 <= MAX_NANOS) by (nonlinear_arith)
            requires
                secs <= 0xffff_ffff_ffff_ffff,
                MAX_NANOS == 18_446_744_073_709_551_615_999_999_999u128,
        ;
        Duration { nanos: secs as u128 * NANOS_PER_SEC }
    }

    /// A span of whole milliseconds.
    pub fn from_millis(millis: u64) -> (r: Duration)
        ensures
            r@ == millis * NANOS_PER_MILLI,
    {
        assert(millis * 1_000_000 <= MAX_NANOS) by (nonlinear_arith)
            requires
                millis <= 0xffff_ffff_ffff_ffff,
                MAX_NANOS == 18_446_744_073_709_551_615_999_999_999u128,
        ;
        Duration { nanos: millis as u128 * NANOS_PER_MILLI }
    }

    /// A span of `nanos` nanoseconds, or `None` when it is longer than
    /// [`MAX_NANOS`].
    pub fn from_nanos(nanos: u128) -> (r: Option<Duration>)
        ensures
            r is Some <==> nanos <= MAX_NANOS,
            r matches Some(d) ==> d@ == nanos,
    {
        if nanos <= MAX_NANOS {
            Some(Duration { nanos })
        } else {
            None
        }
    }

    /// The span in nanoseconds.
    pub fn as_nanos(&self) -> (r: u128)
        ensures
            r == self@,
            r <= MAX_NANOS,
    {
        proof {
            use_type_invariant(*self);
        }
        self.nanos
    }

    /// The span in whole milliseconds, `u64::MAX` where there are more.
    pub fn as_millis(&self) -> (r: u64)
        ensures
            r == millis_of(self@),
    {
        let millis: u128 = self.nanos / NANOS_PER_MILLI;
        if millis > u64::MAX as u128 {
            u64::MAX
        } else {
            millis as u64
        }
    }

    /// Whether the span has no length.
    pub fn is_zero(&self) -> (r: bool)
        ensures
            r == (self@ == 0),
    {
        self.nanos == 0
    }
}

/// A wall-clock instant, measured from the UNIX epoch.
#[derive(Clone, Copy, Debug, PartialEq, Eq, Structural)]
pub enum UnixTime {
    /// Some instant before the epoch.
    BeforeEpoch,
    /// The given span after the epoch.
    SinceEpoch(Duration),
}

impl UnixTime {
    /// The instant in milliseconds since the epoch; an instant before the
    /// epoch counts as the epoch.
    pub open spec fn millis(self) -> nat {
        match self {
            UnixTime::BeforeEpoch => 0,
            UnixTime::SinceEpoch(d) => millis_of(d@),
        }
    }

    /// The instant in milliseconds since the epoch, zero for an instant
    /// before it.
    pub fn as_millis(&self) -> (r: u64)
        ensures
            r == self.millis(),
    {
        match self {
            UnixTime::BeforeEpoch => 0,
            UnixTime::SinceEpoch(d) => d.as_millis(),
        }
    }
}

} // verus!

//! Virtual time: timestamps with nanosecond resolution and non-negative
//! durations.
//!
//! Both types are pairs of whole seconds and sub-second nanoseconds; their
//! views are the total number of nanoseconds they stand for.
use vstd::prelude::*;

verus! {

/// Number of nanoseconds in one second.
pub const NANOS_PER_SEC: u32 = 1_000_000_000;

/// Nanoseconds since the epoch of the instant `secs + nanos * 10^-9`.
pub open spec fn nanos_of(secs: int, nanos: int) -> int {
    secs * 1_000_000_000 + nanos
}

/// Earliest representable instant, in nanoseconds since the epoch.
pub open spec fn min_time() -> int {
    nanos_of(i64::MIN as int, 0)
}

/// Latest representable instant, in nanoseconds since the epoch.
pub open spec fn max_time() -> int {
    nanos_of(i64::MAX as int, 999_999_999)
}

/// A non-negative span of virtual time.
#[derive(Clone, Copy, Debug, PartialEq, Eq, Structural)]
pub struct Duration {
    pub secs: u64,
    pub nanos: u32,
}

impl View for Duration {
    type V = int;

    open spec fn view(&self) -> int {
        nanos_of(self.secs as int, self.nanos as int)
    }
}

impl Duration {
    /// The sub-second part is a proper fraction of a second.
    pub open spec fn wf(&self) -> bool {
        self.nanos < NANOS_PER_SEC
    }

    /// A duration of `secs` seconds plus `nanos` nanoseconds; whole seconds
    /// held in `nanos` are carried into the seconds.
    pub fn new(secs: u64, nanos: u32) -> (r: Duration)
        requires
            secs + nanos / 1_000_000_000 <= u64::MAX,
        ensures
            r.wf(),
            r@ == nanos_of(secs as int, nanos as int),
            r.secs == secs + nanos / 1_000_000_000,
            r.nanos == nanos % 1_000_000_000,
    {
        let extra: u32 = nanos / NANOS_PER_SEC;
        Duration { secs: secs + extra as u64, nanos: nanos % NANOS_PER_SEC }
    }

    /// A duration of whole seconds.
    pub fn from_secs(secs: u64) -> (r: Duration)
        ensures
            r.wf(),
            r@ == secs * 1_000_000_000,
    {
        Duration { secs, nanos: 0 }
    }

    /// A duration of whole milliseconds.
    pub fn from_millis(millis: u64) -> (r: Duration)
        ensures
            r.wf(),
            r@ == millis * 1_000_000,
    {
        let secs: u64 = millis / 1000;
        let rem: u64 = millis % 1000;
        let nanos: u32 = (rem * 1_000_000) as u32;
        Duration { secs, nanos }
    }

    /// A duration of whole nanoseconds.
    pub fn from_nanos(nanos: u64) -> (r: Duration)
        ensures
            r.wf(),
            r@ == nanos,
    {
        let secs: u64 = nanos / 1_000_000_000;
        let rem: u64 = nanos % 1_000_000_000;
        Duration { secs, nanos: rem as u32 }
    }

    /// The zero duration.
    pub fn zero() -> (r: Duration)
        ensures
            r.wf(),
            r@ == 0,
    {
        Duration { secs: 0, nanos: 0 }
    }

    /// Whole seconds of the duration.
    pub fn as_secs(&self) -> (r: u64)
        ensures
            r == self.secs,
    {
        self.secs
    }

    /// Sub-second part of the duration, in nanoseconds.
    pub fn subsec_nanos(&self) -> (r: u32)
        ensures
            r == self.nanos,
    {
        self.nanos
    }

    /// Whether the duration is empty.
    pub fn is_zero(&self) -> (r: bool)
        requires
            self.wf(),
        ensures
            r == (self@ == 0),
    {
        self.secs == 0 && self.nanos == 0
    }
}

/// An instant of virtual time, as signed whole seconds since the epoch plus
/// a sub-second part.
#[derive(Clone, Copy, Debug, PartialEq, Eq, Structural)]
pub struct MonotonicTime {
    pub secs: i64,
    pub nanos: u32,
}

impl View for MonotonicTime {
    type V = int;

    open spec fn view(&self) -> int {
        nanos_of(self.secs as int, self.nanos as int)
    }
}

/// Two well-formed second/nanosecond pairs compare as the instants they stand for.
pub proof fn lemma_pair_order(s1: int, n1: int, s2: int, n2: int)
    requires
        0 <= n1 < 1_000_000_000,
        0 <= n2 < 1_000_000_000,
    ensures
        (nanos_of(s1, n1) < nanos_of(s2, n2)) == (s1 < s2 || (s1 == s2 && n1 < n2)),
        (nanos_of(s1, n1) == nanos_of(s2, n2)) == (s1 == s2 && n1 == n2),
{
    if s1 < s2 {
        assert(s1 * 1_000_000_000 + 1_000_000_000 <= s2 * 1_000_000_000);
    } else if s2 < s1 {
        assert(s2 * 1_000_000_000 + 1_000_000_000 <= s1 * 1_000_000_000);
    }
}

impl MonotonicTime {
    /// The sub-second part is a proper fraction of a second.
    pub open spec fn wf(&self) -> bool {
        self.nanos < NANOS_PER_SEC
    }

    /// The origin of virtual time.
    pub fn epoch() -> (r: MonotonicTime)
        ensures
            r.wf(),
            r@ == 0,
    {
        MonotonicTime { secs: 0, nanos: 0 }
    }

    /// The instant `secs` seconds and `nanos` nanoseconds after the epoch, if
    /// `nanos` is a proper fraction of a second.
    pub fn new(secs: i64, nanos: u32) -> (r: Option<MonotonicTime>)
        ensures
            r is Some <==> nanos < 1_000_000_000,
            r matches Some(t) ==> t.wf() && t.secs == secs && t.nanos == nanos,
    {
        if nanos < NANOS_PER_SEC {
            Some(MonotonicTime { secs, nanos })
        } else {
            None
        }
    }

    /// Whole seconds since the epoch, rounded towards the past.
    pub fn as_secs(&self) -> (r: i64)
        ensures
            r == self.secs,
    {
        self.secs
    }

    /// Sub-second part, in nanoseconds.
    pub fn subsec_nanos(&self) -> (r: u32)
        ensures
            r == self.nanos,
    {
        self.nanos
    }

    /// Whether `self` is strictly earlier than `other`.
    pub fn lt(&self, other: &MonotonicTime) -> (r: bool)
        requires
            self.wf(),
            other.wf(),
        ensures
            r == (self@ < other@),
    {
        proof {
            lemma_pair_order(self.secs as int, self.nanos as int, other.secs as int, other.nanos as int);
        }
        self.secs < other.secs || (self.secs == other.secs && self.nanos < other.nanos)
    }

    /// Whether `self` is no later than `other`.
    pub fn le(&self, other: &MonotonicTime) -> (r: bool)
        requires
            self.wf(),
            other.wf(),
        ensures
            r == (self@ <= other@),
    {
        proof {
            lemma_pair_order(self.secs as int, self.nanos as int, other.secs as int, other.nanos as int);
        }
        self.secs < other.secs || (self.secs == other.secs && self.nanos <= other.nanos)
    }

    /// Whether `self` and `other` are the same instant.
    pub fn same(&self, other: &MonotonicTime) -> (r: bool)
        requires
            self.wf(),
            other.wf(),
        ensures
            r == (self@ == other@),
            r == (*self == *other),
    {
        proof {
            lemma_pair_order(self.secs as int, self.nanos as int, other.secs as int, other.nanos as int);
        }
        self.secs == other.secs && self.nanos == other.nanos
    }

    /// The instant `d` after `self`, as its two parts; meaningful when it is
    /// representable.
    pub open spec fn add_spec(self, d: Duration) -> MonotonicTime {
        let n = self.nanos + d.nanos;
        if n >= 1_000_000_000 {
            MonotonicTime { secs: (self.secs + d.secs + 1) as i64, nanos: (n - 1_000_000_000) as u32 }
        } else {
            MonotonicTime { secs: (self.secs + d.secs) as i64, nanos: n as u32 }
        }
    }

    /// The instant `d` after `self`, or `None` when it lies beyond the latest
    /// representable instant.
    pub fn checked_add(&self, d: Duration) -> (r: Option<MonotonicTime>)
        requires
            self.wf(),
            d.wf(),
        ensures
            r is Some <==> self@ + d@ <= max_time(),
            r matches Some(t) ==> t == self.add_spec(d),
            self@ + d@ <= max_time() ==> self.add_spec(d).wf() && self.add_spec(d)@ == self@ + d@,
    {
        let mut nanos: u32 = self.nanos + d.nanos;
        let mut carry: i128 = 0;
        if nanos >= NANOS_PER_SEC {
            nanos = nanos - NANOS_PER_SEC;
            carry = 1;
        }
        let secs: i128 = self.secs as i128 + d.secs as i128 + carry;
        if secs > i64::MAX as i128 {
            None
        } else {
            Some(MonotonicTime { secs: secs as i64, nanos })
        }
    }

    /// The span from `earlier` to `self`.
    pub fn duration_since(&self, earlier: &MonotonicTime) -> (r: Duration)
        requires
            self.wf(),
            earlier.wf(),
            earlier@ <= self@,
        ensures
            r.wf(),
            r@ == self@ - earlier@,
    {
        proof {
            lemma_pair_order(self.secs as int, self.nanos as int, earlier.secs as int, earlier.nanos as int);
        }
        let diff: i128 = self.secs as i128 - earlier.secs as i128;
        if self.nanos >= earlier.nanos {
            Duration { secs: diff as u64, nanos: self.nanos - earlier.nanos }
        } else {
            Duration { secs: (diff - 1) as u64, nanos: self.nanos + NANOS_PER_SEC - earlier.nanos }
        }
    }
}

} // verus!

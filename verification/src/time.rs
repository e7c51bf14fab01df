use vstd::prelude::*;

verus! {

/// Number of nanoseconds in one second.
pub const NANOS_PER_SEC: u128 = 1_000_000_000;

/// Number of nanoseconds in one millisecond.
pub const NANOS_PER_MILLI: u128 = 1_000_000;

/// The largest span a [`Duration`] can hold, in nanoseconds:
/// `u64::MAX` whole seconds plus `999_999_999` nanoseconds.
pub const MAX_NANOS: u128 = 18_446_744_073_709_551_615_999_999_999;

/// A span of time with nanosecond resolution, held as a whole number of
/// nanoseconds. It covers the same range as the standard library's duration
/// (whole seconds in a `u64` plus a sub-second part).
#[derive(Clone, Copy, PartialEq, Eq, Structural, Debug)]
pub struct Duration {
    nanos: u128,
}

impl View for Duration {
    type V = nat;

    /// The span in nanoseconds.
    closed spec fn view(&self) -> nat {
        self.nanos as nat
    }
}

/// Sum of two spans, clamped to the largest representable span.
pub open spec fn saturating_sum(a: nat, b: nat) -> nat {
    if a + b > MAX_NANOS {
        MAX_NANOS as nat
    } else {
        a + b
    }
}

impl Duration {
    /// The empty span.
    pub fn zero() -> (d: Duration)
        ensures
            d@ == 0,
    {
        Duration { nanos: 0 }
    }

    /// The largest representable span.
    pub fn max_value() -> (d: Duration)
        ensures
            d@ == MAX_NANOS,
    {
        Duration { nanos: MAX_NANOS }
    }

    /// A span of `nanos` nanoseconds.
    pub fn from_nanos(nanos: u64) -> (d: Duration)
        ensures
            d@ == nanos,
    {
        Duration { nanos: nanos as u128 }
    }

    /// A span of `millis` milliseconds.
    pub fn from_millis(millis: u64) -> (d: Duration)
        ensures
            d@ == millis * NANOS_PER_MILLI,
    {
        assert(millis * NANOS_PER_MILLI <= u64::MAX * NANOS_PER_MILLI) by (nonlinear_arith);
        Duration { nanos: millis as u128 * NANOS_PER_MILLI }
    }

    /// A span of `secs` whole seconds.
    pub fn from_secs(secs: u64) -> (d: Duration)
        ensures
            d@ == secs * NANOS_PER_SEC,
    {
        assert(secs * NANOS_PER_SEC <= u64::MAX * NANOS_PER_SEC) by (nonlinear_arith);
        Duration { nanos: secs as u128 * NANOS_PER_SEC }
    }

    /// A span of `secs` seconds plus `nanos` nanoseconds. The nanoseconds may
    /// exceed one second; the carry must still fit in the seconds.
    pub fn new(secs: u64, nanos: u32) -> (d: Duration)
        requires
            secs * NANOS_PER_SEC + nanos <= MAX_NANOS,
        ensures
            d@ == secs * NANOS_PER_SEC + nanos,
    {
        assert(secs * NANOS_PER_SEC <= u64::MAX * NANOS_PER_SEC) by (nonlinear_arith);
        Duration { nanos: secs as u128 * NANOS_PER_SEC + nanos as u128 }
    }

    /// A span of `nanos` nanoseconds, given as a 128-bit count; `None` when
    /// the count exceeds [`MAX_NANOS`].
    pub fn from_total_nanos(nanos: u128) -> (d: Option<Duration>)
        ensures
            d matches Some(v) ==> v@ == nanos,
            d is None <==> nanos > MAX_NANOS,
    {
        if nanos <= MAX_NANOS {
            Some(Duration { nanos })
        } else {
            None
        }
    }

    /// The span as a 128-bit count of nanoseconds.
    pub fn as_nanos(&self) -> (n: u128)
        ensures
            n == self@,
    {
        self.nanos
    }

    /// Whether the span is empty.
    pub fn is_zero(&self) -> (b: bool)
        ensures
            b == (self@ == 0),
    {
        self.nanos == 0
    }

    /// Whether `self` is strictly shorter than `other`.
    pub fn is_shorter_than(&self, other: &Duration) -> (b: bool)
        ensures
            b == (self@ < other@),
    {
        self.nanos < other.nanos
    }

    /// Sum of two spans, clamped to the largest representable span.
    pub fn saturating_add(self, other: Duration) -> (d: Duration)
        ensures
            d@ == saturating_sum(self@, other@),
    {
        match self.nanos.checked_add(other.nanos) {
            Some(n) => if n > MAX_NANOS {
                Duration { nanos: MAX_NANOS }
            } else {
                Duration { nanos: n }
            },
            None => Duration { nanos: MAX_NANOS },
        }
    }

    /// `self` minus `other`; the caller guarantees `other` is not longer.
    pub fn minus(self, other: Duration) -> (d: Duration)
        requires
            other@ <= self@,
        ensures
            d@ == self@ - other@,
    {
        Duration { nanos: self.nanos - other.nanos }
    }
}

} // verus!

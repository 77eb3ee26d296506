use vstd::prelude::*;

verus! {

/// Largest span a `Duration` can hold, in nanoseconds: `u64::MAX` seconds
/// plus 999_999_999 nanoseconds.
pub const MAX_DURATION_NANOS: u128 = 18446744073709551615999999999;

/// A span of time with nanosecond resolution.
#[derive(Clone, Copy, Debug, PartialEq, Eq, Structural)]
pub struct Duration {
    nanos: u128,
}

impl View for Duration {
    type V = nat;

    /// The span in nanoseconds.
    closed spec fn view(&self) -> nat {
        self.nanos as nat
    }
}

impl Duration {
    /// Every duration lies within the representable range.
    #[verifier::type_invariant]
    spec fn inv(self) -> bool {
        self.nanos <= MAX_DURATION_NANOS
    }


    pub fn zero() -> (d: Duration)
        ensures
            d@ == 0,
    {
        Duration { nanos: 0 }
    }

    pub fn from_nanos(n: u64) -> (d: Duration)
        ensures
            d@ == n,
    {
        Duration { nanos: n as u128 }
    }

    pub fn from_micros(n: u64) -> (d: Duration)
        ensures
            d@ == n * 1000,
    {
        Duration { nanos: (n as u128) * 1000 }
    }

    pub fn from_millis(n: u64) -> (d: Duration)
        ensures
            d@ == n * 1_000_000,
    {
        Duration { nanos: (n as u128) * 1_000_000 }
    }

    pub fn from_secs(n: u64) -> (d: Duration)
        ensures
            d@ == n * 1_000_000_000,
    {
        Duration { nanos: (n as u128) * 1_000_000_000 }
    }

    /// A duration of `n` nanoseconds, when that is representable.
    pub fn try_from_nanos(n: u128) -> (d: Option<Duration>)
        ensures
            n <= MAX_DURATION_NANOS <==> d is Some,
            d matches Some(x) ==> x@ == n,
    {
        if n <= MAX_DURATION_NANOS {
            Some(Duration { nanos: n })
        } else {
            None
        }
    }

    pub fn as_nanos(&self) -> (n: u128)
        ensures
            n == self@,
            n <= MAX_DURATION_NANOS,
    {
        proof {
            use_type_invariant(self);
        }
        self.nanos
    }

    /// Sum of two durations; the sum must be representable.
    pub fn add(self, other: Duration) -> (d: Duration)
        requires
            self@ + other@ <= MAX_DURATION_NANOS,
        ensures
            d@ == self@ + other@,
    {
        Duration { nanos: self.nanos + other.nanos }
    }

    /// The duration multiplied by `n`; the product must be representable.
    pub fn mul(self, n: u32) -> (d: Duration)
        requires
            self@ * n <= MAX_DURATION_NANOS,
        ensures
            d@ == self@ * n,
    {
        assert((self.nanos as nat) * (n as nat) <= MAX_DURATION_NANOS);
        Duration { nanos: self.nanos * (n as u128) }
    }

    /// The duration divided by `n`, rounded down to whole nanoseconds.
    pub fn div(self, n: u32) -> (d: Duration)
        requires
            n > 0,
        ensures
            d@ == self@ / (n as nat),
    {
        proof {
            use_type_invariant(&self);
        }
        let q = self.nanos / (n as u128);
        assert(q <= self.nanos) by {
            vstd::arithmetic::div_mod::lemma_div_is_ordered_by_denominator(self.nanos as int, 1, n as int);
        }
        Duration { nanos: q }
    }

    /// The longer of two durations.
    pub fn max(self, other: Duration) -> (d: Duration)
        ensures
            d@ == (if self@ >= other@ { self@ } else { other@ }),
            d == self || d == other,
    {
        if self.nanos >= other.nanos {
            self
        } else {
            other
        }
    }

    /// The shorter of two durations.
    pub fn min(self, other: Duration) -> (d: Duration)
        ensures
            d@ == (if self@ <= other@ { self@ } else { other@ }),
            d == self || d == other,
    {
        if self.nanos <= other.nanos {
            self
        } else {
            other
        }
    }

    /// Whether this duration is strictly longer than `other`.
    pub fn exceeds(&self, other: &Duration) -> (b: bool)
        ensures
            b == (self@ > other@),
    {
        self.nanos > other.nanos
    }
}

/// A point in time, measured in nanoseconds from the start of the run.
#[derive(Clone, Copy, Debug, PartialEq, Eq, Structural)]
pub struct Instant {
    nanos: u128,
}

impl View for Instant {
    type V = nat;

    /// Nanoseconds since the start of the run.
    closed spec fn view(&self) -> nat {
        self.nanos as nat
    }
}

impl Instant {
    /// The start of the run.
    pub fn start() -> (t: Instant)
        ensures
            t@ == 0,
    {
        Instant { nanos: 0 }
    }

    /// The instant `d` after the start of the run.
    pub fn after_start(d: Duration) -> (t: Instant)
        ensures
            t@ == d@,
    {
        Instant { nanos: d.as_nanos() }
    }

    /// The instant `d` after this one.
    pub fn add(self, d: Duration) -> (t: Instant)
        requires
            self@ <= MAX_DURATION_NANOS,
        ensures
            t@ == self@ + d@,
    {
        Instant { nanos: self.nanos + d.as_nanos() }
    }

    /// Time elapsed from `earlier` to this instant, zero when `earlier` is
    /// later; the difference must be a representable duration.
    pub fn duration_since(self, earlier: Instant) -> (d: Duration)
        requires
            self@ - earlier@ <= MAX_DURATION_NANOS,
        ensures
            d@ == (if self@ >= earlier@ { self@ - earlier@ } else { 0 }),
    {
        if self.nanos >= earlier.nanos {
            let r = Duration::try_from_nanos(self.nanos - earlier.nanos);
            match r {
                Some(x) => x,
                None => Duration::zero(),
            }
        } else {
            Duration::zero()
        }
    }

    /// Whether this instant comes strictly before `other`.
    pub fn is_before(&self, other: &Instant) -> (b: bool)
        ensures
            b == (self@ < other@),
    {
        self.nanos < other.nanos
    }
}

} // verus!

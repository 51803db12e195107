//! Spans of time, counted in whole nanoseconds.

use vstd::prelude::*;

verus! {

/// The longest span there is: `u64::MAX` seconds and 999,999,999 nanoseconds.
pub const MAX_NANOS: u128 = 18_446_744_073_709_551_615_999_999_999;

/// Nanoseconds in one second.
pub const NANOS_PER_SEC: u128 = 1_000_000_000;

/// Nanoseconds in one millisecond.
pub const NANOS_PER_MILLI: u128 = 1_000_000;

/// A span of time between zero and [`MAX_NANOS`], with the range and the arithmetic of
/// `std::time::Duration`. Its view is the number of nanoseconds.
#[derive(Clone, Copy, Debug, PartialEq, Eq, Structural)]
pub struct Duration {
    nanos: u128,
}

impl View for Duration {
    type V = nat;

    closed spec fn view(&self) -> nat {
        self.nanos as nat
    }
}

impl Duration {
    #[verifier::type_invariant]
    spec fn in_range(self) -> bool {
        self.nanos <= MAX_NANOS
    }

    /// The span of `nanos` nanoseconds.
    pub closed spec fn of(nanos: nat) -> Duration {
        Duration { nanos: nanos as u128 }
    }

    /// The empty span.
    pub fn zero() -> (span: Duration)
        ensures
            span@ == 0,
    {
        Duration { nanos: 0 }
    }

    /// The span of `secs` seconds and `nanos` nanoseconds.
    pub fn new(secs: u64, nanos: u32) -> (span: Duration)
        requires
            secs * NANOS_PER_SEC + nanos <= MAX_NANOS,
        ensures
            span@ == secs * NANOS_PER_SEC + nanos,
    {
        Duration { nanos: secs as u128 * NANOS_PER_SEC + nanos as u128 }
    }

    /// The span of `secs` seconds.
    pub fn from_secs(secs: u64) -> (span: Duration)
        ensures
            span@ == secs * NANOS_PER_SEC,
    {
        Duration { nanos: secs as u128 * NANOS_PER_SEC }
    }

    /// The span of `millis` milliseconds.
    pub fn from_millis(millis: u64) -> (span: Duration)
        ensures
            span@ == millis * NANOS_PER_MILLI,
    {
        Duration { nanos: millis as u128 * NANOS_PER_MILLI }
    }

    /// The whole seconds of this span.
    pub fn as_secs(&self) -> (secs: u64)
        ensures
            secs == self@ / (NANOS_PER_SEC as nat),
    {
        proof {
            use_type_invariant(self);
        }
        (self.nanos / NANOS_PER_SEC) as u64
    }

    /// The nanoseconds of this span beyond its whole seconds.
    pub fn subsec_nanos(&self) -> (nanos: u32)
        ensures
            nanos == self@ % (NANOS_PER_SEC as nat),
    {
        (self.nanos % NANOS_PER_SEC) as u32
    }

    /// The span of `nanos` nanoseconds.
    pub fn from_nanos(nanos: u128) -> (span: Duration)
        requires
            nanos <= MAX_NANOS,
        ensures
            span@ == nanos,
    {
        Duration { nanos }
    }

    /// The nanoseconds of this span.
    pub fn as_nanos(&self) -> (nanos: u128)
        ensures
            nanos == self@,
            nanos <= MAX_NANOS,
    {
        proof {
            use_type_invariant(self);
        }
        self.nanos
    }

    /// The sum of two spans that fits into one.
    pub fn plus(self, other: Duration) -> (sum: Duration)
        requires
            self@ + other@ <= MAX_NANOS,
        ensures
            sum@ == self@ + other@,
    {
        Duration { nanos: self.nanos + other.nanos }
    }

    /// The sum of two spans, or `None` where it is longer than any span.
    pub fn checked_add(self, other: Duration) -> (sum: Option<Duration>)
        ensures
            sum is Some <==> self@ + other@ <= MAX_NANOS,
            sum matches Some(s) ==> s@ == self@ + other@,
    {
        proof {
            use_type_invariant(&self);
            use_type_invariant(&other);
        }
        if self.nanos + other.nanos <= MAX_NANOS {
            Some(Duration { nanos: self.nanos + other.nanos })
        } else {
            None
        }
    }

    /// The sum of two spans, cut off at the longest span.
    pub fn saturating_add(self, other: Duration) -> (sum: Duration)
        ensures
            sum@ == if self@ + other@ <= MAX_NANOS {
                self@ + other@
            } else {
                MAX_NANOS as nat
            },
    {
        match self.checked_add(other) {
            Some(sum) => sum,
            None => Duration { nanos: MAX_NANOS },
        }
    }

    /// What is left of this span after `other`, nothing if `other` is the longer one.
    pub fn saturating_sub(self, other: Duration) -> (rest: Duration)
        ensures
            rest@ == saturating_difference(self@, other@),
    {
        proof {
            use_type_invariant(&self);
        }
        if other.nanos <= self.nanos {
            Duration { nanos: self.nanos - other.nanos }
        } else {
            Duration { nanos: 0 }
        }
    }
}

/// `a - b`, or zero where `b` is the greater one.
pub open spec fn saturating_difference(a: nat, b: nat) -> nat {
    if b <= a {
        (a - b) as nat
    } else {
        0
    }
}

/// A span is told apart by its nanoseconds alone.
pub broadcast proof fn lemma_span_of_view(span: Duration)
    ensures
        Duration::of(#[trigger] span@) == span,
{
}

/// The nanoseconds of a span fit into 128 bits.
pub broadcast proof fn lemma_span_width(span: Duration)
    ensures
        #[trigger] span@ <= u128::MAX,
{
}

/// The span of so many nanoseconds has so many nanoseconds.
pub broadcast proof fn lemma_view_of_span(nanos: nat)
    requires
        nanos <= MAX_NANOS,
    ensures
        (#[trigger] Duration::of(nanos))@ == nanos,
{
}

/// How long the units are: a millisecond is a million nanoseconds, a second a thousand
/// milliseconds, and the longest span is one nanosecond short of as many seconds as 64 bits can
/// tell apart.
pub proof fn law_units()
    ensures
        NANOS_PER_MILLI == 1_000_000,
        NANOS_PER_SEC == 1_000 * NANOS_PER_MILLI,
        MAX_NANOS + 1 == (u64::MAX + 1) * NANOS_PER_SEC,
{
}

/// Taking a span away from a longer one undoes adding it; taking a longer one away leaves
/// nothing.
pub proof fn law_difference_undoes_sum(a: nat, b: nat)
    ensures
        saturating_difference(a + b, b) == a,
        saturating_difference(a, a + b) == 0,
{
}

} // verus!

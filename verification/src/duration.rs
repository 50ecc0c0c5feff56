//! Spans of time with nanosecond resolution.
use vstd::prelude::*;

verus! {

/// Nanoseconds in one second.
pub const NANOS_PER_SEC: u128 = 1_000_000_000;

/// Nanoseconds in one millisecond.
pub const NANOS_PER_MILLI: u128 = 1_000_000;

/// Nanoseconds in the longest span: `u64::MAX` seconds and 999 999 999
/// nanoseconds.
pub const MAX_NANOS: u128 = 18_446_744_073_709_551_615_999_999_999;

/// The smaller of two spans, in nanoseconds.
pub open spec fn shorter(left: nat, right: nat) -> nat {
    if left <= right {
        left
    } else {
        right
    }
}

/// A non-negative span of time, viewed as its whole number of nanoseconds.
///
/// Every value is at most [`MAX_NANOS`].
#[derive(Clone, Copy, Debug, PartialEq, Eq, Structural)]
pub struct Duration {
    nanos: u128,
}

impl View for Duration {
    type V = nat;

    closed spec fn view(&self) -> nat {
        self.nanos as nat
    }
}

impl Duration {
    #[verifier::type_invariant]
    spec fn representable(self) -> bool {
        self.nanos <= MAX_NANOS
    }

    /// A span of `secs` whole seconds and `subsec_nanos` further nanoseconds.
    pub fn new(secs: u64, subsec_nanos: u32) -> (span: Self)
        requires
            subsec_nanos < NANOS_PER_SEC,
        ensures
            span@ == secs * NANOS_PER_SEC + subsec_nanos,
            span@ == secs * 1_000_000_000 + subsec_nanos,
            span@ <= MAX_NANOS,
    {
        Self { nanos: secs as u128 * NANOS_PER_SEC + subsec_nanos as u128 }
    }

    /// The empty span.
    pub fn zero() -> (span: Self)
        ensures
            span@ == 0,
    {
        Self { nanos: 0 }
    }

    /// The longest span.
    pub fn longest() -> (span: Self)
        ensures
            span@ == MAX_NANOS,
            span@ == u64::MAX * 1_000_000_000 + 999_999_999,
    {
        Self { nanos: MAX_NANOS }
    }

    /// A span of whole seconds.
    pub fn from_secs(secs: u64) -> (span: Self)
        ensures
            span@ == secs * NANOS_PER_SEC,
            span@ == secs * 1_000_000_000,
            span@ <= MAX_NANOS,
    {
        Self::new(secs, 0)
    }

    /// A span of whole milliseconds.
    pub fn from_millis(millis: u64) -> (span: Self)
        ensures
            span@ == millis * NANOS_PER_MILLI,
            span@ == millis * 1_000_000,
            span@ <= MAX_NANOS,
    {
        Self { nanos: millis as u128 * NANOS_PER_MILLI }
    }

    /// The whole number of nanoseconds in the span.
    pub fn as_nanos(&self) -> (nanos: u128)
        ensures
            nanos == self@,
            self@ <= MAX_NANOS,
    {
        proof {
            use_type_invariant(self);
        }
        self.nanos
    }

    /// The whole seconds in the span.
    pub fn as_secs(&self) -> (secs: u64)
        ensures
            secs == self@ / (NANOS_PER_SEC as nat),
            secs * 1_000_000_000 <= self@ < (secs + 1) * 1_000_000_000,
    {
        proof {
            use_type_invariant(self);
        }
        (self.nanos / NANOS_PER_SEC) as u64
    }

    /// The nanoseconds in the span beyond its whole seconds.
    pub fn subsec_nanos(&self) -> (nanos: u32)
        ensures
            nanos == self@ % (NANOS_PER_SEC as nat),
            nanos < 1_000_000_000,
    {
        (self.nanos % NANOS_PER_SEC) as u32
    }

    /// Whether the span is empty.
    pub fn is_zero(&self) -> (zero: bool)
        ensures
            zero == (self@ == 0),
    {
        self.nanos == 0
    }

    /// The shorter of two spans.
    pub fn min(self, other: Self) -> (least: Self)
        ensures
            least@ == shorter(self@, other@),
            least@ <= self@ && least@ <= other@,
            least == self || least == other,
    {
        if other.nanos < self.nanos {
            other
        } else {
            self
        }
    }

    /// The span repeated `factor` times, unless that exceeds the longest span.
    pub fn checked_mul(self, factor: u32) -> (product: Option<Self>)
        ensures
            match product {
                Some(span) => span@ == self@ * factor && span@ <= MAX_NANOS,
                None => self@ * factor > MAX_NANOS,
            },
    {
        proof {
            use_type_invariant(&self);
        }
        assert(self.nanos * factor <= MAX_NANOS * u32::MAX) by (nonlinear_arith)
            requires
                self.nanos <= MAX_NANOS,
                factor <= u32::MAX,
        ;
        let nanos: u128 = self.nanos * factor as u128;
        if nanos <= MAX_NANOS {
            Some(Self { nanos })
        } else {
            None
        }
    }
}

/// The shorter of two spans is one of them, and is no longer than either.
pub proof fn law_shorter_is_the_smaller(left: nat, right: nat)
    ensures
        shorter(left, right) <= left,
        shorter(left, right) <= right,
        shorter(left, right) == left || shorter(left, right) == right,
{
}

/// A span can be taken apart into seconds and nanoseconds and put together again.
pub proof fn law_span_is_its_seconds_and_nanoseconds(
    span: Duration,
    secs: u64,
    subsec_nanos: u32,
    again: Duration,
)
    requires
        call_ensures(Duration::as_secs, (&span,), secs),
        call_ensures(Duration::subsec_nanos, (&span,), subsec_nanos),
        call_ensures(Duration::new, (secs, subsec_nanos), again),
    ensures
        again == span,
{
    law_equal_nanos_are_equal_spans(span, again);
}

/// A span is no more than its number of nanoseconds.
pub proof fn law_equal_nanos_are_equal_spans(left: Duration, right: Duration)
    requires
        left@ == right@,
    ensures
        left == right,
{
}

} // verus!

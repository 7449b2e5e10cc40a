//! Lengths of time.

use vstd::prelude::*;

verus! {

/// A length of time, in nanoseconds.
#[derive(Debug, Clone, Copy, PartialEq, Eq, Structural)]
pub struct Span {
    pub nanos: u128,
}

impl Span {
    /// The span of that many milliseconds.
    pub open spec fn millis(n: int) -> Span {
        Span { nanos: (n * 1_000_000) as u128 }
    }

    /// The span of no length.
    pub fn zero() -> (r: Span)
        ensures
            r.nanos == 0,
    {
        Span { nanos: 0 }
    }

    /// The span of that many seconds.
    pub fn from_secs(n: u64) -> (r: Span)
        ensures
            r == Span::millis(n * 1000),
            r.nanos == n * 1_000_000_000,
    {
        Span { nanos: n as u128 * 1_000_000_000 }
    }

    /// The span of that many milliseconds.
    pub fn from_millis(n: u64) -> (r: Span)
        ensures
            r == Span::millis(n as int),
            r.nanos == n * 1_000_000,
    {
        Span { nanos: n as u128 * 1_000_000 }
    }

    /// The whole milliseconds in the span.
    pub fn as_millis(&self) -> (n: u128)
        ensures
            n == self.nanos / 1_000_000,
    {
        self.nanos / 1_000_000
    }

    /// Whether the span has no length.
    pub fn is_zero(&self) -> (r: bool)
        ensures
            r == (self.nanos == 0),
    {
        self.nanos == 0
    }
}

} // verus!

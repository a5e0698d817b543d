//! Lengths of time.

use vstd::prelude::*;

verus! {

/// Nanoseconds in one second.
pub const NANOS_PER_SEC: u128 = 1_000_000_000;

/// The longest length of time that the clock's own type can hold, in nanoseconds.
pub const MAX_NANOS: u128 = 18_446_744_073_709_551_615_999_999_999;

/// A length of time in whole nanoseconds.
#[derive(Clone, Copy, Debug, PartialEq, Eq, Structural)]
pub struct Span {
    pub nanos: u128,
}

impl Span {
    /// A span of `secs` seconds.
    pub open spec fn of_secs(secs: int) -> Span {
        Span { nanos: (secs * NANOS_PER_SEC) as u128 }
    }

    /// A span of `secs` seconds.
    pub fn from_secs(secs: u64) -> (r: Span)
        ensures
            r == Span::of_secs(secs as int),
            r.nanos == secs * 1_000_000_000,
            r.nanos <= MAX_NANOS,
    {
        Span { nanos: (secs as u128) * NANOS_PER_SEC }
    }

    /// The whole seconds in this span.
    pub fn as_secs(self) -> (r: u128)
        ensures
            r as int == self.nanos as int / 1_000_000_000,
    {
        self.nanos / NANOS_PER_SEC
    }

    /// The span from `earlier` to `self` on one clock, zero where `earlier` is not
    /// earlier.
    pub fn since(self, earlier: Span) -> (r: Span)
        ensures
            r.nanos == if self.nanos >= earlier.nanos {
                self.nanos - earlier.nanos
            } else {
                0
            },
    {
        if self.nanos >= earlier.nanos {
            Span { nanos: self.nanos - earlier.nanos }
        } else {
            Span { nanos: 0 }
        }
    }
}

/// A span in seconds is that many times a billion nanoseconds long.
pub proof fn lemma_of_secs(secs: u64)
    ensures
        Span::of_secs(secs as int).nanos == secs * 1_000_000_000,
{
}

} // verus!

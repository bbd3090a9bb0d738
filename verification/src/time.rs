//! Spans of time as plain nanosecond counts.

use vstd::prelude::*;

verus! {

/// Nanoseconds in one millisecond.
pub const NANOS_PER_MILLI: u128 = 1_000_000;

/// Nanoseconds in one second.
pub const NANOS_PER_SEC: u128 = 1_000_000_000;

/// The longest span that can be handed to the operating system: `u64::MAX`
/// whole seconds and 999,999,999 nanoseconds.
pub const MAX_NANOS: u128 = 18_446_744_073_709_551_615_999_999_999;

/// Two to the power of `n`.
pub open spec fn two_to(n: nat) -> nat
    decreases n,
{
    if n == 0 {
        1
    } else {
        2 * two_to((n - 1) as nat)
    }
}

/// A higher power of two is no lower.
pub proof fn lemma_two_to_grows(m: nat, n: nat)
    requires
        m <= n,
    ensures
        1 <= two_to(m) <= two_to(n),
    decreases n,
{
    if m < n {
        lemma_two_to_grows(m, (n - 1) as nat);
    } else if n > 0 {
        lemma_two_to_grows((n - 1) as nat, (n - 1) as nat);
    }
}

/// A span of time.
#[derive(Clone, Copy, Debug, PartialEq, Eq, Structural)]
pub struct Duration {
    pub nanos: u128,
}

impl Duration {
    pub open spec fn secs_spec(secs: nat) -> Duration {
        Duration { nanos: (secs * 1_000_000_000) as u128 }
    }

    pub open spec fn millis_spec(ms: nat) -> Duration {
        Duration { nanos: (ms * 1_000_000) as u128 }
    }

    /// `secs` whole seconds.
    pub fn from_secs(secs: u64) -> (d: Duration)
        ensures
            d == Duration::secs_spec(secs as nat),
            d.nanos == secs * 1_000_000_000,
            d.nanos <= MAX_NANOS,
    {
        Duration { nanos: secs as u128 * NANOS_PER_SEC }
    }

    /// `ms` whole milliseconds.
    pub fn from_millis(ms: u64) -> (d: Duration)
        ensures
            d == Duration::millis_spec(ms as nat),
            d.nanos == ms * 1_000_000,
            d.nanos <= MAX_NANOS,
    {
        Duration { nanos: ms as u128 * NANOS_PER_MILLI }
    }

    pub open spec fn min_spec(self, other: Duration) -> Duration {
        if self.nanos <= other.nanos {
            self
        } else {
            other
        }
    }

    /// The shorter of two spans.
    pub fn min(self, other: Duration) -> (d: Duration)
        ensures
            d == self.min_spec(other),
    {
        if self.nanos <= other.nanos {
            self
        } else {
            other
        }
    }
}

} // verus!

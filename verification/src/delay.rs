//! Spans of time, to the nanosecond.

use vstd::prelude::*;

verus! {

/// The longest span: 2^64 - 1 seconds and 999,999,999 nanoseconds.
pub const LONGEST: u128 = 18_446_744_073_709_551_615_999_999_999;

pub const NANOS_PER_MILLI: u128 = 1_000_000;

pub const NANOS_PER_SEC: u128 = 1_000_000_000;

/// A span of time, from zero to the longest.
#[derive(Clone, Copy, Debug, PartialEq, Eq, PartialOrd, Ord, Structural)]
pub struct Delay {
    nanos: u128,
}

impl View for Delay {
    type V = nat;

    /// The span in nanoseconds.
    closed spec fn view(&self) -> nat {
        self.nanos as nat
    }
}

/// `n` nanoseconds, or the longest span where that is less.
pub open spec fn capped(n: nat) -> nat {
    if n <= LONGEST {
        n
    } else {
        LONGEST as nat
    }
}

impl Delay {
    #[verifier::type_invariant]
    spec fn in_range(self) -> bool {
        self.nanos <= LONGEST
    }

    /// A span of `nanos` nanoseconds, or the longest where that is less.
    pub fn from_nanos(nanos: u128) -> (r: Delay)
        ensures
            r@ == capped(nanos as nat),
    {
        if nanos <= LONGEST {
            Delay { nanos }
        } else {
            Delay { nanos: LONGEST }
        }
    }

    /// A span of `secs` seconds.
    pub fn from_secs(secs: u64) -> (r: Delay)
        ensures
            r@ == secs * NANOS_PER_SEC,
    {
        Delay { nanos: secs as u128 * NANOS_PER_SEC }
    }

    /// A span of `millis` milliseconds.
    pub fn from_millis(millis: u64) -> (r: Delay)
        ensures
            r@ == millis * NANOS_PER_MILLI,
    {
        Delay { nanos: millis as u128 * NANOS_PER_MILLI }
    }

    /// The span in nanoseconds.
    pub fn as_nanos(&self) -> (r: u128)
        ensures
            r == self@,
            r <= LONGEST,
    {
        proof {
            use_type_invariant(self);
        }
        self.nanos
    }

    /// The span in whole milliseconds.
    pub fn as_millis(&self) -> (r: u128)
        ensures
            r == self@ / (NANOS_PER_MILLI as nat),
            r <= LONGEST,
    {
        self.as_nanos() / NANOS_PER_MILLI
    }

    /// `n` times the span, or the longest where that is less.
    pub fn saturating_mul(&self, n: u32) -> (r: Delay)
        ensures
            r@ == capped((self@ * n) as nat),
    {
        let nanos = self.as_nanos();
        proof {
            assert(0 <= nanos * n <= LONGEST * 0x1_0000_0000) by (nonlinear_arith)
                requires
                    0 <= nanos <= LONGEST,
                    0 <= n < 0x1_0000_0000,
            ;
        }
        Delay::from_nanos(nanos * n as u128)
    }

    /// The shorter of two spans.
    pub fn shorter(&self, other: &Delay) -> (r: Delay)
        ensures
            r@ == vstd::math::min(self@ as int, other@ as int),
    {
        if self.as_nanos() <= other.as_nanos() {
            *self
        } else {
            *other
        }
    }
}

/// A span that can be told is kept to the nanosecond; a longer one is the longest, of 2^64 seconds
/// less a nanosecond.
pub proof fn spans_are_kept(n: nat)
    ensures
        capped(n) <= n,
        n < 1_000_000_000 * 0x1_0000_0000_0000_0000 ==> capped(n) == n,
        n >= 1_000_000_000 * 0x1_0000_0000_0000_0000 ==> capped(n) == 1_000_000_000
            * 0x1_0000_0000_0000_0000 - 1,
{
}

} // verus!

//! Spans of time as whole seconds and nanoseconds.

use vstd::prelude::*;

verus! {

/// Nanoseconds in one second.
pub const NANOS_PER_SEC: u32 = 1_000_000_000;

/// A span of time with nanosecond resolution.
#[derive(Debug, Clone, Copy, PartialEq, Eq)]
pub struct Duration {
    secs: u64,
    nanos: u32,
}

impl Duration {
    #[verifier::type_invariant]
    spec fn inv(self) -> bool {
        self.nanos < NANOS_PER_SEC
    }

    /// Whole seconds of the span.
    pub closed spec fn spec_secs(self) -> u64 {
        self.secs
    }

    /// Nanoseconds past the whole seconds.
    pub closed spec fn spec_nanos(self) -> u32 {
        self.nanos
    }

    /// The span in nanoseconds.
    pub open spec fn total_nanos(self) -> nat {
        (self.spec_secs() * 1_000_000_000 + self.spec_nanos()) as nat
    }

    /// The span in whole milliseconds, rounded down.
    pub open spec fn total_millis(self) -> nat {
        (self.spec_secs() * 1_000 + self.spec_nanos() / 1_000_000) as nat
    }

    /// A span of `secs` seconds and `nanos` nanoseconds, or `None` when `nanos`
    /// is a second or more.
    pub fn new(secs: u64, nanos: u32) -> (r: Option<Duration>)
        ensures
            r is Some <==> nanos < NANOS_PER_SEC,
            r matches Some(d) ==> d.spec_secs() == secs && d.spec_nanos() == nanos,
    {
        if nanos < NANOS_PER_SEC {
            Some(Duration { secs, nanos })
        } else {
            None
        }
    }

    /// A span of `secs` seconds and `nanos` nanoseconds.
    pub fn normalized(secs: u64, nanos: u32) -> (r: Duration)
        requires
            nanos < NANOS_PER_SEC,
        ensures
            r.spec_secs() == secs,
            r.spec_nanos() == nanos,
    {
        Duration { secs, nanos }
    }

    /// A span of whole seconds.
    pub fn from_secs(secs: u64) -> (r: Duration)
        ensures
            r.spec_secs() == secs,
            r.spec_nanos() == 0,
    {
        Duration { secs, nanos: 0 }
    }

    /// A span of whole milliseconds.
    pub fn from_millis(millis: u64) -> (r: Duration)
        ensures
            r.total_millis() == millis,
            r.spec_secs() == millis / 1_000,
            r.spec_nanos() == (millis % 1_000) * 1_000_000,
    {
        let rest: u32 = (millis % 1_000) as u32;
        Duration { secs: millis / 1_000, nanos: rest * 1_000_000 }
    }

    /// Whole seconds of the span.
    pub fn as_secs(&self) -> (r: u64)
        ensures
            r == self.spec_secs(),
    {
        self.secs
    }

    /// Nanoseconds past the whole seconds.
    pub fn subsec_nanos(&self) -> (r: u32)
        ensures
            r == self.spec_nanos(),
            r < NANOS_PER_SEC,
    {
        proof {
            use_type_invariant(self);
        }
        self.nanos
    }

    /// The span in whole milliseconds, rounded down.
    pub fn as_millis(&self) -> (r: u128)
        ensures
            r == self.total_millis(),
    {
        (self.secs as u128) * 1_000 + (self.nanos / 1_000_000) as u128
    }

    /// The longest span, in nanoseconds.
    pub open spec fn max_nanos() -> nat {
        (u64::MAX * 1_000_000_000 + 999_999_999) as nat
    }

    /// This span `count` times plus `extra`, at most the longest span.
    pub fn saturating_times_plus(&self, count: u32, extra: &Duration) -> (r: Duration)
        ensures
            r.total_nanos() == (if self.total_nanos() * (count as nat) + extra.total_nanos()
                > Duration::max_nanos() {
                Duration::max_nanos()
            } else {
                self.total_nanos() * (count as nat) + extra.total_nanos()
            }),
    {
        proof {
            use_type_invariant(self);
            use_type_invariant(extra);
        }
        let one: u128 = (self.secs as u128) * 1_000_000_000 + self.nanos as u128;
        let more: u128 = (extra.secs as u128) * 1_000_000_000 + extra.nanos as u128;
        proof {
            assert(one * count <= 18_446_744_073_709_551_616_000_000_000 * 4_294_967_295)
                by (nonlinear_arith)
                requires
                    one <= 18_446_744_073_709_551_616_000_000_000,
                    count <= 4_294_967_295,
            ;
        }
        let total: u128 = one * (count as u128) + more;
        let longest: u128 = 18_446_744_073_709_551_615_999_999_999;
        if total > longest {
            Duration { secs: u64::MAX, nanos: 999_999_999 }
        } else {
            let secs: u64 = (total / 1_000_000_000) as u64;
            let nanos: u32 = (total % 1_000_000_000) as u32;
            Duration { secs, nanos }
        }
    }

    /// Whether this span is at most as long as `other`.
    pub fn at_most(&self, other: &Duration) -> (r: bool)
        ensures
            r == (self.total_nanos() <= other.total_nanos()),
    {
        proof {
            use_type_invariant(self);
            use_type_invariant(other);
        }
        self.secs < other.secs || (self.secs == other.secs && self.nanos <= other.nanos)
    }
}

} // verus!

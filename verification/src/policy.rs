//! Per-target policy axes derived from labels, each an independent typed value.
//!
//! These intentionally do not live in one bundled struct: each is consumed by a
//! different part of the pipeline (timeout by execution, retry by the verdict
//! fold, quarantine by the reporter), and bundling them would couple every
//! consumer to every axis.

use vstd::prelude::*;

use crate::text::{
    self, any_label, label_suffix_of, parse_unsigned_chars, string_of, strip_prefix_chars,
    strip_suffix_chars, trim_chars,
};
use crate::time::Duration;

verus! {

/// Per-test timeout. `Default` means "use the runner's configured default".
#[derive(Debug, Clone, Copy, PartialEq, Eq)]
pub enum TestTimeout {
    Default,
    Fixed(Duration),
}

impl TestTimeout {
    /// The timeout given the runner-wide default.
    pub open spec fn spec_resolve(self, default: Duration) -> Duration {
        match self {
            TestTimeout::Default => default,
            TestTimeout::Fixed(d) => d,
        }
    }

    /// Resolves to a concrete duration given the runner-wide default.
    pub fn resolve(self, default: Duration) -> (r: Duration)
        ensures
            r == self.spec_resolve(default),
    {
        match self {
            TestTimeout::Default => default,
            TestTimeout::Fixed(d) => d,
        }
    }
}

/// Whether a target's failures should block the build.
#[derive(Debug, Clone, Copy, PartialEq, Eq, Structural)]
pub enum QuarantineStatus {
    /// Failures fail the run.
    Active,
    /// Run the tests, report their real status, but do not fail the run.
    Quarantined,
}

/// How many attempts a failing test gets (at least one). One attempt is no retry.
#[derive(Debug, Clone, Copy, PartialEq, Eq)]
pub struct RetryPolicy {
    max_attempts: u32,
}

impl RetryPolicy {
    #[verifier::type_invariant]
    spec fn inv(self) -> bool {
        self.max_attempts >= 1
    }

    /// The number of attempts.
    pub closed spec fn spec_max_attempts(self) -> u32 {
        self.max_attempts
    }

    /// A policy of `max_attempts` attempts, at least one.
    pub fn new(max_attempts: u32) -> (r: Self)
        ensures
            r.spec_max_attempts() == (if max_attempts < 1 {
                1
            } else {
                max_attempts
            }),
    {
        RetryPolicy {
            max_attempts: if max_attempts < 1 {
                1
            } else {
                max_attempts
            },
        }
    }

    pub fn max_attempts(self) -> (r: u32)
        ensures
            r == self.spec_max_attempts(),
            r >= 1,
    {
        proof {
            use_type_invariant(self);
        }
        self.max_attempts
    }

    pub fn allows_retry(self) -> (r: bool)
        ensures
            r == (self.spec_max_attempts() > 1),
    {
        self.max_attempts > 1
    }
}

/// The owning team, for failure routing.
#[derive(Debug, Clone, PartialEq, Eq)]
pub enum Owner {
    Unowned,
    Team(String),
}

/// The digits of a timeout and the milliseconds that one of its units has. A bare
/// number counts seconds.
pub open spec fn timeout_parts(spec: Seq<char>) -> (Seq<char>, nat) {
    match text::strip_suffix(spec, "ms"@) {
        Some(d) => (d, 1),
        None => match text::strip_suffix(spec, "s"@) {
            Some(d) => (d, 1_000),
            None => match text::strip_suffix(spec, "m"@) {
                Some(d) => (d, 60_000),
                None => match text::strip_suffix(spec, "h"@) {
                    Some(d) => (d, 3_600_000),
                    None => (spec, 1_000),
                },
            },
        },
    }
}

/// The milliseconds of a timeout like `60`, `60s`, `5m`, `2h`, when they fit in
/// 64 bits.
pub open spec fn timeout_millis(spec: Seq<char>) -> Option<nat> {
    let parts = timeout_parts(text::trim(spec));
    match text::parse_unsigned(text::trim(parts.0), u64::MAX as nat) {
        Some(value) => if value * parts.1 <= u64::MAX {
            Some(value * parts.1)
        } else {
            None
        },
        None => None,
    }
}

/// Parses a timeout like `60`, `60s`, `5m`, `2h` into milliseconds.
fn parse_timeout(spec: &[char]) -> (r: Option<u64>)
    ensures
        r is Some <==> timeout_millis(spec@) is Some,
        r matches Some(ms) ==> timeout_millis(spec@) == Some(ms as nat),
{
    let trimmed: Vec<char> = trim_chars(spec);
    let t: &[char] = trimmed.as_slice();
    let parts: (Vec<char>, u64) = match strip_suffix_chars(t, "ms") {
        Some(d) => (d, 1),
        None => match strip_suffix_chars(t, "s") {
            Some(d) => (d, 1_000),
            None => match strip_suffix_chars(t, "m") {
                Some(d) => (d, 60_000),
                None => match strip_suffix_chars(t, "h") {
                    Some(d) => (d, 3_600_000),
                    None => (trimmed, 1_000),
                },
            },
        },
    };
    let digits: Vec<char> = trim_chars(parts.0.as_slice());
    match parse_unsigned_chars(digits.as_slice(), u64::MAX) {
        Some(value) => value.checked_mul(parts.1),
        None => None,
    }
}

/// The milliseconds that a label sets as timeout.
pub open spec fn label_timeout(label: Seq<char>) -> Option<nat> {
    match text::strip_prefix(text::label_suffix(label), "timeout="@) {
        Some(spec) => timeout_millis(spec),
        None => None,
    }
}

/// The longest timeout that the first `n` labels set.
pub open spec fn longest_timeout(labels: Seq<String>, n: nat) -> Option<nat>
    decreases n,
{
    if n == 0 {
        None
    } else {
        let before = longest_timeout(labels, (n - 1) as nat);
        match (before, label_timeout(labels[n - 1]@)) {
            (Some(a), Some(b)) => Some(
                if a < b {
                    b
                } else {
                    a
                },
            ),
            (None, found) => found,
            (kept, None) => kept,
        }
    }
}

/// What `longest_timeout` says: it is set by a label and no label sets more.
pub proof fn lemma_longest_timeout(labels: Seq<String>, n: nat)
    requires
        n <= labels.len(),
    ensures
        longest_timeout(labels, n) is None <==> forall|i: int|
            0 <= i < n ==> label_timeout((#[trigger] labels[i])@) is None,
        longest_timeout(labels, n) matches Some(ms) ==> (exists|i: int|
            0 <= i < n && label_timeout((#[trigger] labels[i])@) == Some(ms)),
        longest_timeout(labels, n) matches Some(ms) ==> forall|i: int|
            0 <= i < n && label_timeout((#[trigger] labels[i])@) is Some ==> label_timeout(
                labels[i]@,
            )->0 <= ms,
    decreases n,
{
    if n > 0 {
        lemma_longest_timeout(labels, (n - 1) as nat);
        assert(labels[n - 1] == labels[n - 1]);
    }
}

/// Derives the per-test timeout from labels: the longest one that is set.
pub fn test_timeout(labels: &[String]) -> (r: TestTimeout)
    ensures
        r is Default <==> longest_timeout(labels@, labels@.len()) is None,
        r matches TestTimeout::Fixed(d) ==> d.spec_nanos() % 1_000_000 == 0
            && longest_timeout(labels@, labels@.len()) == Some(d.total_millis()),
{
    let mut longest: Option<u64> = None;
    let mut i: usize = 0;
    while i < labels.len()
        invariant
            i <= labels@.len(),
            longest is Some <==> longest_timeout(labels@, i as nat) is Some,
            longest matches Some(ms) ==> longest_timeout(labels@, i as nat) == Some(ms as nat),
        decreases labels@.len() - i,
    {
        let suffix: Vec<char> = label_suffix_of(labels[i].as_str());
        let found: Option<u64> = match strip_prefix_chars(suffix.as_slice(), "timeout=") {
            Some(spec) => parse_timeout(spec.as_slice()),
            None => None,
        };
        longest = match (longest, found) {
            (Some(a), Some(b)) => Some(
                if a < b {
                    b
                } else {
                    a
                },
            ),
            (None, f) => f,
            (kept, None) => kept,
        };
        i = i + 1;
    }
    match longest {
        Some(ms) => TestTimeout::Fixed(Duration::from_millis(ms)),
        None => TestTimeout::Default,
    }
}

/// Derives quarantine status from labels.
pub fn quarantine_status(labels: &[String]) -> (r: QuarantineStatus)
    ensures
        r is Quarantined <==> text::says(labels@, "quarantined"@),
{
    if any_label(labels, "quarantined") {
        QuarantineStatus::Quarantined
    } else {
        QuarantineStatus::Active
    }
}

/// Whether labels allow a failing test to be retried.
pub open spec fn retryable(labels: Seq<String>) -> bool {
    text::says(labels, "flaky"@) || text::says(labels, "retry"@)
}

/// Derives the retry policy: the configured attempts for a retryable target, one
/// for any other.
pub fn retry_policy(labels: &[String], flaky_attempts: u32) -> (r: RetryPolicy)
    ensures
        r.spec_max_attempts() == (if retryable(labels@) && flaky_attempts > 1 {
            flaky_attempts
        } else {
            1
        }),
{
    if any_label(labels, "flaky") || any_label(labels, "retry") {
        RetryPolicy::new(flaky_attempts)
    } else {
        RetryPolicy::new(1)
    }
}

/// The team that a label names.
pub open spec fn label_owner(label: Seq<char>) -> Option<Seq<char>> {
    text::strip_prefix(text::label_suffix(label), "owner="@)
}

/// The team that the last of the first `n` labels with an owner names.
pub open spec fn last_owner(labels: Seq<String>, n: nat) -> Option<Seq<char>>
    decreases n,
{
    if n == 0 {
        None
    } else {
        match label_owner(labels[n - 1]@) {
            Some(team) => Some(team),
            None => last_owner(labels, (n - 1) as nat),
        }
    }
}

/// Derives the owning team from labels; the last one named counts.
pub fn owner(labels: &[String]) -> (r: Owner)
    ensures
        r is Unowned <==> last_owner(labels@, labels@.len()) is None,
        r matches Owner::Team(team) ==> last_owner(labels@, labels@.len()) == Some(team@),
{
    let mut n: usize = labels.len();
    while n > 0
        invariant
            n <= labels@.len(),
            last_owner(labels@, labels@.len()) == last_owner(labels@, n as nat),
        decreases n,
    {
        let suffix: Vec<char> = label_suffix_of(labels[n - 1].as_str());
        if let Some(team) = strip_prefix_chars(suffix.as_slice(), "owner=") {
            return Owner::Team(string_of(team.as_slice()));
        }
        n = n - 1;
    }
    Owner::Unowned
}

} // verus!

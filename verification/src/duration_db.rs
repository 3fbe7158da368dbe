//! Timing and flake history: what past runs say of a test's duration and of how
//! often it fails.
//!
//! The history is advisory. It is kept per environment and keyed by a hash of the
//! test identity; [`crate::db_codec`] holds its file formats.

use std::hash::{Hash, Hasher};

use rustc_hash::{FxHashMap, FxHasher};
use vstd::prelude::*;

use crate::db_codec::{
    self, flake_bin, flake_log, names_bin, names_log, perf_bin, perf_log, read_flake_bin, read_names_bin,
    read_perf_bin, replay_flake_log, replay_names_log, replay_perf_log, Histories,
};
use crate::fx::{fx_get, fx_insert, fx_keys, fx_new, fx_remove};
use crate::order::{self, sort, Ranked};
use crate::result::{FailureClass, IdentityView, TestIdentity};
use crate::time::Duration;
use crate::variant::Variant;

verus! {

/// Max recent samples retained per test for percentile estimation.
pub const MAX_SAMPLES: usize = 64;

/// Where a test ran.
#[derive(Debug, Clone, Copy, PartialEq, Eq, PartialOrd, Ord, Hash, Structural)]
pub enum Environment {
    Local,
    Remote,
}

/// A test's duration estimate. `Unseen` (no history) is a named state, not a
/// missing value, and is sorted to a defined middle position by callers.
#[derive(Debug, Clone, Copy, PartialEq, Eq, Structural)]
pub enum DurationEstimate {
    Measured { p50_ms: u64, p95_ms: u64 },
    Unseen,
}

impl DurationEstimate {
    /// The weight of a test: its 95th percentile, or the default when unseen.
    pub open spec fn spec_weight_ms(self, unseen_default_ms: u64) -> u64 {
        match self {
            DurationEstimate::Measured { p50_ms, p95_ms } => p95_ms,
            DurationEstimate::Unseen => unseen_default_ms,
        }
    }

    /// The median of a test, or the default when unseen.
    pub open spec fn spec_p50_ms(self, unseen_default_ms: u64) -> u64 {
        match self {
            DurationEstimate::Measured { p50_ms, p95_ms } => p50_ms,
            DurationEstimate::Unseen => unseen_default_ms,
        }
    }

    pub fn weight_ms(self, unseen_default_ms: u64) -> (r: u64)
        ensures
            r == self.spec_weight_ms(unseen_default_ms),
    {
        match self {
            DurationEstimate::Measured { p95_ms, .. } => p95_ms,
            DurationEstimate::Unseen => unseen_default_ms,
        }
    }

    pub fn p50_ms(self, unseen_default_ms: u64) -> (r: u64)
        ensures
            r == self.spec_p50_ms(unseen_default_ms),
    {
        match self {
            DurationEstimate::Measured { p50_ms, .. } => p50_ms,
            DurationEstimate::Unseen => unseen_default_ms,
        }
    }
}

/// One measured duration.
#[derive(Debug, Clone, Copy, PartialEq, Eq, PartialOrd, Ord, Structural)]
pub struct DurationSample {
    pub timestamp_ms: u64,
    pub duration_ms: u64,
}

/// Newest first; of two samples with one timestamp, the longer first.
impl Ranked for DurationSample {
    open spec fn ranks(self, other: Self) -> bool {
        self.timestamp_ms > other.timestamp_ms || (self.timestamp_ms == other.timestamp_ms
            && self.duration_ms >= other.duration_ms)
    }

    proof fn lemma_ranks_totally() {
    }

    fn comes_first(&self, other: &Self) -> (r: bool) {
        self.timestamp_ms > other.timestamp_ms || (self.timestamp_ms == other.timestamp_ms
            && self.duration_ms >= other.duration_ms)
    }
}

/// The samples that are kept of `samples`: the newest ones, newest first.
pub open spec fn newest(samples: Seq<DurationSample>) -> Seq<DurationSample> {
    if samples.len() > MAX_SAMPLES {
        order::ranked(samples).take(MAX_SAMPLES as int)
    } else {
        order::ranked(samples)
    }
}

/// The samples of one test in one environment.
#[derive(Debug, Clone)]
pub struct PerfRecord {
    pub samples: Vec<DurationSample>,
}

impl Default for PerfRecord {
    fn default() -> (r: Self)
        ensures
            r.samples@.len() == 0,
    {
        PerfRecord { samples: Vec::new() }
    }
}

impl PerfRecord {
    fn record(&mut self, timestamp_ms: u64, duration_ms: u64)
        ensures
            final(self).samples@ == newest(
                old(self).samples@.push(DurationSample { timestamp_ms, duration_ms }),
            ),
    {
        self.samples.push(DurationSample { timestamp_ms, duration_ms });
        self.sort_and_truncate();
    }

    fn combine(&mut self, other: &Self)
        ensures
            final(self).samples@ == newest(old(self).samples@ + other.samples@),
    {
        let mut i: usize = 0;
        while i < other.samples.len()
            invariant
                i <= other.samples@.len(),
                self.samples@ == old(self).samples@ + other.samples@.take(i as int),
            decreases other.samples@.len() - i,
        {
            proof {
                assert(other.samples@.take(i + 1) =~= other.samples@.take(i as int).push(
                    other.samples@[i as int],
                ));
            }
            self.samples.push(other.samples[i]);
            i = i + 1;
        }
        proof {
            assert(other.samples@.take(other.samples@.len() as int) =~= other.samples@);
        }
        self.sort_and_truncate();
    }

    fn sort_and_truncate(&mut self)
        ensures
            final(self).samples@ == newest(old(self).samples@),
    {
        let mut taken: Vec<DurationSample> = Vec::new();
        core::mem::swap(&mut taken, &mut self.samples);
        let mut sorted: Vec<DurationSample> = sort(taken);
        proof {
            order::lemma_ranked(taken@);
        }
        if sorted.len() > MAX_SAMPLES {
            sorted.truncate(MAX_SAMPLES);
        }
        proof {
            assert(sorted@ =~= newest(old(self).samples@));
        }
        self.samples = sorted;
    }
}

/// How often a test ran and failed in one environment.
#[derive(Debug, Clone, Copy, PartialEq, Eq, Structural)]
pub struct FlakeRecord {
    pub runs: u64,
    pub failures: u64,
    pub last_failure_timestamp_ms: Option<u64>,
    pub last_failure_class: Option<FailureClass>,
}

/// The record of a test that never ran.
pub open spec fn no_runs() -> FlakeRecord {
    FlakeRecord {
        runs: 0,
        failures: 0,
        last_failure_timestamp_ms: None,
        last_failure_class: None,
    }
}

/// The sum of two counters, at most the largest one.
pub open spec fn capped_sum(a: u64, b: u64) -> u64 {
    if a + b > u64::MAX {
        u64::MAX
    } else {
        (a + b) as u64
    }
}

/// Whether a failure at `timestamp_ms` is at least as late as the last one.
pub open spec fn at_least_as_late(last: Option<u64>, timestamp_ms: u64) -> bool {
    match last {
        Some(t) => t <= timestamp_ms,
        None => true,
    }
}

/// `record` after one more run.
pub open spec fn with_run(
    record: FlakeRecord,
    failed: bool,
    class: Option<FailureClass>,
    timestamp_ms: u64,
) -> FlakeRecord {
    let runs = capped_sum(record.runs, 1);
    if !failed {
        FlakeRecord { runs, ..record }
    } else if at_least_as_late(record.last_failure_timestamp_ms, timestamp_ms) {
        FlakeRecord {
            runs,
            failures: capped_sum(record.failures, 1),
            last_failure_timestamp_ms: Some(timestamp_ms),
            last_failure_class: class,
        }
    } else {
        FlakeRecord { runs, failures: capped_sum(record.failures, 1), ..record }
    }
}

/// Two records as one: counts add up, and the later failure is kept (of two
/// equally late ones, that of `b`).
pub open spec fn flakes_combined(a: FlakeRecord, b: FlakeRecord) -> FlakeRecord {
    let runs = capped_sum(a.runs, b.runs);
    let failures = capped_sum(a.failures, b.failures);
    match b.last_failure_timestamp_ms {
        Some(t) => if at_least_as_late(a.last_failure_timestamp_ms, t) {
            FlakeRecord {
                runs,
                failures,
                last_failure_timestamp_ms: Some(t),
                last_failure_class: b.last_failure_class,
            }
        } else {
            FlakeRecord { runs, failures, ..a }
        },
        None => FlakeRecord { runs, failures, ..a },
    }
}

impl Default for FlakeRecord {
    fn default() -> (r: Self)
        ensures
            r == no_runs(),
    {
        FlakeRecord {
            runs: 0,
            failures: 0,
            last_failure_timestamp_ms: None,
            last_failure_class: None,
        }
    }
}

impl FlakeRecord {
    fn record(&mut self, failed: bool, class: Option<FailureClass>, timestamp_ms: u64)
        ensures
            *final(self) == with_run(*old(self), failed, class, timestamp_ms),
    {
        self.runs = self.runs.saturating_add(1);
        if failed {
            self.failures = self.failures.saturating_add(1);
            let later: bool = match self.last_failure_timestamp_ms {
                Some(t) => t <= timestamp_ms,
                None => true,
            };
            if later {
                self.last_failure_timestamp_ms = Some(timestamp_ms);
                self.last_failure_class = class;
            }
        }
    }

    fn combine(&mut self, other: &Self)
        ensures
            *final(self) == flakes_combined(*old(self), *other),
    {
        self.runs = self.runs.saturating_add(other.runs);
        self.failures = self.failures.saturating_add(other.failures);
        if let Some(other_ts) = other.last_failure_timestamp_ms {
            let later: bool = match self.last_failure_timestamp_ms {
                Some(t) => t <= other_ts,
                None => true,
            };
            if later {
                self.last_failure_timestamp_ms = Some(other_ts);
                self.last_failure_class = other.last_failure_class;
            }
        }
    }
}

/// Combining flake records is associative, and a record without runs changes
/// nothing on the right.
pub proof fn law_flakes_combine_as_a_monoid(a: FlakeRecord, b: FlakeRecord, c: FlakeRecord)
    ensures
        flakes_combined(flakes_combined(a, b), c) == flakes_combined(a, flakes_combined(b, c)),
        flakes_combined(a, no_runs()) == a,
{
}

// ---------------------------------------------------------------------------
// Keeping the newest samples.

/// Where `y` stands in `r`: behind the elements that rank before it.
spec fn slot(r: Seq<DurationSample>, y: DurationSample, i: int) -> int
    decreases r.len() - i,
{
    if i >= r.len() || !r[i].ranks(y) {
        i
    } else {
        slot(r, y, i + 1)
    }
}

proof fn lemma_slot(r: Seq<DurationSample>, y: DurationSample, i: int)
    requires
        0 <= i <= r.len(),
        forall|k: int| 0 <= k < i ==> r[k].ranks(y),
    ensures
        i <= slot(r, y, i) <= r.len(),
        forall|k: int| 0 <= k < slot(r, y, i) ==> r[k].ranks(y),
        slot(r, y, i) < r.len() ==> !r[slot(r, y, i)].ranks(y),
    decreases r.len() - i,
{
    if i < r.len() && r[i].ranks(y) {
        lemma_slot(r, y, i + 1);
    }
}

/// Sorting one more sample puts it into its slot.
proof fn lemma_ranked_push(s: Seq<DurationSample>, y: DurationSample)
    ensures
        order::ranked(s.push(y)) == order::ranked(s).insert(slot(order::ranked(s), y, 0), y),
        0 <= slot(order::ranked(s), y, 0) <= order::ranked(s).len(),
        order::ranked(s).len() == s.len(),
{
    let leq = |a: DurationSample, b: DurationSample| a.ranks(b);
    let r = order::ranked(s);
    order::lemma_ranked(s);
    lemma_slot(r, y, 0);
    let at = slot(r, y, 0);
    let t = r.insert(at, y);
    vstd::seq_lib::to_multiset_insert(r, at, y);
    vstd::seq_lib::to_multiset_build(s, y);
    assert(vstd::relations::sorted_by(t, leq)) by {
        assert forall|i: int, j: int| 0 <= i < j < t.len() implies #[trigger] leq(t[i], t[j]) by {
            if i < at && j > at {
                assert(leq(r[i], r[j - 1]));
            } else if i < at && j < at {
                assert(leq(r[i], r[j]));
            } else if i > at {
                assert(leq(r[i - 1], r[j - 1]));
            } else if i == at {
                if j - 1 > at {
                    assert(leq(r[at], r[j - 1]));
                }
            }
        }
    }
    order::lemma_ranked_is(s.push(y), t);
}

/// Once a kept sample ranks before `x` at the last kept place, one more sample
/// keeps it so.
proof fn lemma_last_kept_stays(s: Seq<DurationSample>, y: DurationSample, x: DurationSample)
    requires
        s.len() >= MAX_SAMPLES,
        order::ranked(s)[MAX_SAMPLES - 1].ranks(x),
    ensures
        order::ranked(s.push(y))[MAX_SAMPLES - 1].ranks(x),
{
    let leq = |a: DurationSample, b: DurationSample| a.ranks(b);
    let r = order::ranked(s);
    order::lemma_ranked(s);
    lemma_ranked_push(s, y);
    lemma_slot(r, y, 0);
    let at = slot(r, y, 0);
    if at == MAX_SAMPLES - 1 {
        assert(!r[at].ranks(y));
    } else if at < MAX_SAMPLES - 1 {
        assert(leq(r[MAX_SAMPLES - 2], r[MAX_SAMPLES - 1]));
    }
}

/// A sample that ranks behind the last kept one is not kept.
proof fn lemma_late_sample_is_dropped(s: Seq<DurationSample>, x: DurationSample)
    requires
        s.len() >= MAX_SAMPLES,
        order::ranked(s)[MAX_SAMPLES - 1].ranks(x),
    ensures
        newest(s.push(x)) == newest(s),
{
    let leq = |a: DurationSample, b: DurationSample| a.ranks(b);
    let r = order::ranked(s);
    order::lemma_ranked(s);
    lemma_ranked_push(s, x);
    lemma_slot(r, x, 0);
    let at = slot(r, x, 0);
    if at < MAX_SAMPLES {
        if at < MAX_SAMPLES - 1 {
            assert(leq(r[at], r[MAX_SAMPLES - 1]));
        }
        assert(r[at].ranks(x));
        assert(false);
    }
    assert(order::ranked(s.push(x)).take(MAX_SAMPLES as int) =~= r.take(MAX_SAMPLES as int));
    assert(r.take(MAX_SAMPLES as int) =~= newest(s));
}

/// What is kept depends on the samples, not on their order.
proof fn lemma_newest_of_permutation(s: Seq<DurationSample>, t: Seq<DurationSample>)
    requires
        s.to_multiset() == t.to_multiset(),
    ensures
        newest(s) == newest(t),
{
    order::lemma_ranked(s);
    order::lemma_ranked_is(t, order::ranked(s));
    s.to_multiset_ensures();
    t.to_multiset_ensures();
}

proof fn lemma_bound_holds_under(
    p: Seq<DurationSample>,
    b: Seq<DurationSample>,
    n: int,
    x: DurationSample,
)
    requires
        p.len() >= MAX_SAMPLES,
        order::ranked(p)[MAX_SAMPLES - 1].ranks(x),
        0 <= n <= b.len(),
    ensures
        order::ranked(p + b.take(n))[MAX_SAMPLES - 1].ranks(x),
    decreases n,
{
    if n == 0 {
        assert(p + b.take(0) =~= p);
    } else {
        lemma_bound_holds_under(p, b, n - 1, x);
        lemma_last_kept_stays(p + b.take(n - 1), b[n - 1], x);
        assert(p + b.take(n) =~= (p + b.take(n - 1)).push(b[n - 1]));
    }
}

proof fn lemma_late_samples_are_dropped(
    p: Seq<DurationSample>,
    q: Seq<DurationSample>,
    n: int,
)
    requires
        p.len() >= MAX_SAMPLES,
        forall|k: int| 0 <= k < q.len() ==> order::ranked(p)[MAX_SAMPLES - 1].ranks(#[trigger] q[k]),
        0 <= n <= q.len(),
    ensures
        newest(p + q.take(n)) == newest(p),
    decreases n,
{
    if n == 0 {
        assert(p + q.take(0) =~= p);
    } else {
        lemma_late_samples_are_dropped(p, q, n - 1);
        lemma_bound_holds_under(p, q, n - 1, q[n - 1]);
        lemma_late_sample_is_dropped(p + q.take(n - 1), q[n - 1]);
        assert(p + q.take(n) =~= (p + q.take(n - 1)).push(q[n - 1]));
    }
}

/// Dropping old samples early changes nothing: keeping the newest of `a`, adding
/// `b` and keeping the newest again is keeping the newest of both.
pub proof fn law_newest_absorbs(a: Seq<DurationSample>, b: Seq<DurationSample>)
    ensures
        newest(newest(a) + b) == newest(a + b),
{
    let leq = |x: DurationSample, y: DurationSample| x.ranks(y);
    let r = order::ranked(a);
    order::lemma_ranked(a);
    vstd::seq_lib::lemma_multiset_commutative(r, b);
    vstd::seq_lib::lemma_multiset_commutative(a, b);
    lemma_newest_of_permutation(a + b, r + b);
    if a.len() > MAX_SAMPLES {
        let p = r.take(MAX_SAMPLES as int);
        let q = r.skip(MAX_SAMPLES as int);
        assert(r =~= p + q);
        assert(vstd::relations::sorted_by(p, leq)) by {
            assert forall|i: int, j: int| 0 <= i < j < p.len() implies #[trigger] leq(
                p[i],
                p[j],
            ) by {
                assert(leq(r[i], r[j]));
            }
        }
        order::lemma_ranked_is(p, p);
        assert forall|k: int| 0 <= k < q.len() implies order::ranked(p)[MAX_SAMPLES - 1].ranks(
            #[trigger] q[k],
        ) by {
            assert(leq(r[MAX_SAMPLES - 1], r[MAX_SAMPLES + k]));
        }
        assert forall|k: int| 0 <= k < q.len() implies order::ranked(p + b)[MAX_SAMPLES - 1].ranks(
            #[trigger] q[k],
        ) by {
            lemma_bound_holds_under(p, b, b.len() as int, q[k]);
            assert(b.take(b.len() as int) =~= b);
        }
        lemma_late_samples_are_dropped(p + b, q, q.len() as int);
        assert(q.take(q.len() as int) =~= q);
        vstd::seq_lib::lemma_multiset_commutative(p, q);
        vstd::seq_lib::lemma_multiset_commutative(p, b);
        vstd::seq_lib::lemma_multiset_commutative(p + b, q);
        assert((r + b).to_multiset() =~= ((p + b) + q).to_multiset());
        lemma_newest_of_permutation(r + b, (p + b) + q);
    }
}

/// Combining samples is associative and does not depend on the order.
pub proof fn law_samples_combine_as_a_monoid(
    a: Seq<DurationSample>,
    b: Seq<DurationSample>,
    c: Seq<DurationSample>,
)
    ensures
        newest(newest(a + b) + c) == newest(a + newest(b + c)),
        newest(a + b) == newest(b + a),
{
    law_newest_absorbs(a + b, c);
    law_newest_absorbs(b + c, a);
    lemma_newest_of_sum(newest(b + c), a);
    lemma_newest_of_sum(a, b);
    lemma_newest_of_sum(b + c, a);
    assert((a + b) + c =~= a + (b + c));
}

/// What is kept of two groups of samples does not depend on their order.
proof fn lemma_newest_of_sum(a: Seq<DurationSample>, b: Seq<DurationSample>)
    ensures
        newest(a + b) == newest(b + a),
{
    vstd::seq_lib::lemma_multiset_commutative(a, b);
    vstd::seq_lib::lemma_multiset_commutative(b, a);
    assert((a + b).to_multiset() =~= (b + a).to_multiset());
    lemma_newest_of_permutation(a + b, b + a);
}

// ---------------------------------------------------------------------------
// Percentiles.

/// The rank of the `p`-th percentile among `n` values, counted from one.
pub open spec fn nearest_rank(p: nat, n: nat) -> int {
    let up = (p * n + 99) / 100;
    if up < 1 {
        1
    } else if up > n {
        n as int
    } else {
        up as int
    }
}

/// The nearest-rank percentile of `samples`, zero when there are none.
pub open spec fn percentile_of(samples: Seq<u64>, p: nat) -> u64 {
    if samples.len() == 0 {
        0
    } else {
        order::ranked(samples)[nearest_rank(p, samples.len()) - 1]
    }
}

/// Nearest-rank percentile (`p` in 0..=100) over unsorted samples.
pub fn percentile(samples: &[u64], p: u64) -> (r: u64)
    requires
        p <= 100,
    ensures
        r == percentile_of(samples@, p as nat),
        samples@.len() > 0 ==> samples@.contains(r),
{
    if samples.len() == 0 {
        return 0;
    }
    let mut copy: Vec<u64> = Vec::new();
    let mut i: usize = 0;
    while i < samples.len()
        invariant
            i <= samples@.len(),
            copy@ == samples@.take(i as int),
        decreases samples@.len() - i,
    {
        proof {
            assert(samples@.take(i + 1) =~= samples@.take(i as int).push(samples@[i as int]));
        }
        copy.push(samples[i]);
        i = i + 1;
    }
    proof {
        assert(samples@.take(samples@.len() as int) =~= samples@);
        order::lemma_ranked(samples@);
        samples@.to_multiset_ensures();
        order::ranked(samples@).to_multiset_ensures();
    }
    let sorted: Vec<u64> = sort(copy);
    let n: u128 = sorted.len() as u128;
    proof {
        assert(p as u128 * n <= 100 * n) by (nonlinear_arith)
            requires
                p <= 100,
                n >= 0,
        ;
    }
    let up: u128 = (p as u128 * n + 99) / 100;
    let rank: u128 = if up < 1 {
        1
    } else if up > n {
        n
    } else {
        up
    };
    let at: usize = (rank - 1) as usize;
    proof {
        let v = order::ranked(samples@)[at as int];
        assert(order::ranked(samples@).contains(v));
        assert(order::ranked(samples@).to_multiset().count(v) > 0);
    }
    sorted[at]
}

/// A percentile is one of the samples, and a higher percentile is no smaller.
pub proof fn law_percentiles_grow(samples: Seq<u64>, p: nat, q: nat)
    requires
        samples.len() > 0,
        p <= q,
    ensures
        samples.contains(percentile_of(samples, p)),
        percentile_of(samples, p) <= percentile_of(samples, q),
{
    order::lemma_ranked(samples);
    let r = order::ranked(samples);
    samples.to_multiset_ensures();
    r.to_multiset_ensures();
    let n = samples.len();
    assert(p * n <= q * n) by (nonlinear_arith)
        requires
            p <= q,
    ;
    let i = nearest_rank(p, n) - 1;
    let j = nearest_rank(q, n) - 1;
    assert(0 <= i <= j < n);
    assert(r.contains(r[i]));
    assert(r.to_multiset().count(r[i]) > 0);
    let leq = |a: u64, b: u64| a.ranks(b);
    if i < j {
        assert(leq(r[i], r[j]));
    }
}

// ---------------------------------------------------------------------------
// The store.

/// One new sample, waiting to be persisted.
#[derive(Debug, Clone, Copy, PartialEq, Eq, Structural)]
pub struct PerfEntry {
    pub env: Environment,
    pub key: u64,
    pub timestamp_ms: u64,
    pub duration_ms: u64,
}

/// One new run, waiting to be persisted.
#[derive(Debug, Clone, Copy, PartialEq, Eq, Structural)]
pub struct FlakeEntry {
    pub env: Environment,
    pub key: u64,
    pub failed: bool,
    pub class: Option<FailureClass>,
    pub timestamp_ms: u64,
}

/// The history of one environment.
pub struct EnvView {
    pub perf: Map<u64, Seq<DurationSample>>,
    pub flake: Map<u64, FlakeRecord>,
}

/// The contents of a [`DurationDb`]: the history, the names behind the keys, and
/// what has been added since it was loaded.
pub struct DbView {
    pub local: EnvView,
    pub remote: EnvView,
    pub names: Map<u64, IdentityView>,
    pub new_perf: Seq<PerfEntry>,
    pub new_flake: Seq<FlakeEntry>,
    pub new_names: Seq<(u64, IdentityView)>,
}

impl DbView {
    /// The history of `env`.
    pub open spec fn env(self, env: Environment) -> EnvView {
        match env {
            Environment::Local => self.local,
            Environment::Remote => self.remote,
        }
    }

    /// The store with the history of `env` replaced.
    pub open spec fn with_env(self, env: Environment, history: EnvView) -> DbView {
        match env {
            Environment::Local => DbView { local: history, ..self },
            Environment::Remote => DbView { remote: history, ..self },
        }
    }

    /// Whether there are samples or a flake record under `key`.
    pub open spec fn has_key(self, key: u64) -> bool {
        self.local.perf.contains_key(key) || self.remote.perf.contains_key(key)
            || self.local.flake.contains_key(key) || self.remote.flake.contains_key(key)
    }

    /// All samples of a test, in `env` or in both environments.
    pub open spec fn samples(self, env: Option<Environment>, key: u64) -> Seq<DurationSample> {
        match env {
            Some(e) => samples_at(self.env(e).perf, key),
            None => samples_at(self.local.perf, key) + samples_at(self.remote.perf, key),
        }
    }

    /// The flake record of a test, in `env` or in both environments.
    pub open spec fn flakes(self, env: Option<Environment>, key: u64) -> Option<FlakeRecord> {
        match env {
            Some(e) => flakes_added(None, self.env(e).flake, key),
            None => flakes_added(
                flakes_added(None, self.local.flake, key),
                self.remote.flake,
                key,
            ),
        }
    }

    /// The store after the name behind `key` has been seen.
    pub open spec fn with_name(self, key: u64, id: IdentityView) -> DbView {
        if self.names.contains_key(key) {
            self
        } else {
            DbView {
                names: self.names.insert(key, id),
                new_names: self.new_names.push((key, id)),
                ..self
            }
        }
    }

    /// The store after one run of the test behind `key`. A failed run counts as
    /// a run but gives no duration sample.
    pub open spec fn with_recorded(
        self,
        env: Environment,
        key: u64,
        id: IdentityView,
        duration_ms: u64,
        failed: bool,
        class: Option<FailureClass>,
        timestamp_ms: u64,
    ) -> DbView {
        let named = self.with_name(key, id);
        let timed = if failed {
            named
        } else {
            DbView {
                new_perf: named.new_perf.push(PerfEntry { env, key, timestamp_ms, duration_ms }),
                ..named.with_env(
                    env,
                    with_sample(
                        named.env(env),
                        key,
                        DurationSample { timestamp_ms, duration_ms },
                    ),
                )
            }
        };
        DbView {
            new_flake: timed.new_flake.push(FlakeEntry { env, key, failed, class, timestamp_ms }),
            ..timed.with_env(env, with_counted(timed.env(env), key, failed, class, timestamp_ms))
        }
    }
}

/// The samples under `key`, none when there is no entry.
pub open spec fn samples_at(perf: Map<u64, Seq<DurationSample>>, key: u64) -> Seq<DurationSample> {
    if perf.contains_key(key) {
        perf[key]
    } else {
        Seq::empty()
    }
}

/// The record under `key`, one without runs when there is no entry.
pub open spec fn flakes_at(flake: Map<u64, FlakeRecord>, key: u64) -> FlakeRecord {
    if flake.contains_key(key) {
        flake[key]
    } else {
        no_runs()
    }
}

/// `acc` with the record under `key` added to it.
pub open spec fn flakes_added(
    acc: Option<FlakeRecord>,
    flake: Map<u64, FlakeRecord>,
    key: u64,
) -> Option<FlakeRecord> {
    if flake.contains_key(key) {
        Some(
            flakes_combined(
                match acc {
                    Some(a) => a,
                    None => no_runs(),
                },
                flake[key],
            ),
        )
    } else {
        acc
    }
}

/// The history after one more sample.
pub open spec fn with_sample(e: EnvView, key: u64, sample: DurationSample) -> EnvView {
    EnvView { perf: e.perf.insert(key, newest(samples_at(e.perf, key).push(sample))), ..e }
}

/// The history after one more counted run.
pub open spec fn with_counted(
    e: EnvView,
    key: u64,
    failed: bool,
    class: Option<FailureClass>,
    timestamp_ms: u64,
) -> EnvView {
    EnvView {
        flake: e.flake.insert(key, with_run(flakes_at(e.flake, key), failed, class, timestamp_ms)),
        ..e
    }
}

/// `a` with the entries of `b` under the keys in `done` added to it.
pub open spec fn perf_merged(
    a: Map<u64, Seq<DurationSample>>,
    b: Map<u64, Seq<DurationSample>>,
    done: Set<u64>,
) -> Map<u64, Seq<DurationSample>> {
    Map::new(
        |k: u64| a.contains_key(k) || done.contains(k),
        |k: u64|
            if done.contains(k) {
                newest(samples_at(a, k) + b[k])
            } else {
                a[k]
            },
    )
}

/// `a` with the entries of `b` under the keys in `done` added to it.
pub open spec fn flake_merged(
    a: Map<u64, FlakeRecord>,
    b: Map<u64, FlakeRecord>,
    done: Set<u64>,
) -> Map<u64, FlakeRecord> {
    Map::new(
        |k: u64| a.contains_key(k) || done.contains(k),
        |k: u64|
            if done.contains(k) {
                flakes_combined(flakes_at(a, k), b[k])
            } else {
                a[k]
            },
    )
}

/// Two histories as one.
pub open spec fn env_merged(a: EnvView, b: EnvView) -> EnvView {
    EnvView {
        perf: perf_merged(a.perf, b.perf, b.perf.dom()),
        flake: flake_merged(a.flake, b.flake, b.flake.dom()),
    }
}

/// The durations of samples.
pub open spec fn durations(samples: Seq<DurationSample>) -> Seq<u64> {
    Seq::new(samples.len(), |i: int| samples[i].duration_ms)
}

/// What the samples of a test say of its duration.
pub open spec fn estimate_from(samples: Seq<DurationSample>) -> DurationEstimate {
    if samples.len() == 0 {
        DurationEstimate::Unseen
    } else {
        DurationEstimate::Measured {
            p50_ms: percentile_of(durations(newest(samples)), 50),
            p95_ms: percentile_of(durations(newest(samples)), 95),
        }
    }
}

/// The samples behind each key.
pub open spec fn perf_view(map: Map<u64, PerfRecord>) -> Map<u64, Seq<DurationSample>> {
    Map::new(|k: u64| map.contains_key(k), |k: u64| map[k].samples@)
}

/// The identity behind each key.
pub open spec fn names_view(map: Map<u64, TestIdentity>) -> Map<u64, IdentityView> {
    Map::new(|k: u64| map.contains_key(k), |k: u64| map[k]@)
}

/// The history of one environment.
pub(crate) struct EnvHistory {
    perf: FxHashMap<u64, PerfRecord>,
    flake: FxHashMap<u64, FlakeRecord>,
}

impl View for EnvHistory {
    type V = EnvView;

    closed spec fn view(&self) -> EnvView {
        EnvView { perf: perf_view(self.perf@), flake: self.flake@ }
    }
}

impl EnvHistory {
    pub(crate) fn new() -> (r: EnvHistory)
        ensures
            r@ == (EnvView { perf: Map::empty(), flake: Map::empty() }),
    {
        let r = EnvHistory { perf: fx_new(), flake: fx_new() };
        proof {
            assert(perf_view(r.perf@) =~= Map::empty());
        }
        r
    }

    /// Sets the samples under `key`.
    pub(crate) fn put_samples(&mut self, key: u64, samples: Vec<DurationSample>)
        ensures
            final(self)@ == (EnvView {
                perf: old(self)@.perf.insert(key, samples@),
                ..old(self)@
            }),
    {
        fx_insert(&mut self.perf, key, PerfRecord { samples });
        proof {
            assert(self@.perf =~= old(self)@.perf.insert(key, samples@));
        }
    }

    /// Sets the flake record under `key`.
    pub(crate) fn put_flakes(&mut self, key: u64, record: FlakeRecord)
        ensures
            final(self)@ == (EnvView {
                flake: old(self)@.flake.insert(key, record),
                ..old(self)@
            }),
    {
        fx_insert(&mut self.flake, key, record);
    }

    /// Every key with samples, once.
    pub(crate) fn perf_keys(&self) -> (r: Vec<u64>)
        ensures
            r@.no_duplicates(),
            r@.to_set() == self@.perf.dom(),
    {
        let r: Vec<u64> = fx_keys(&self.perf);
        proof {
            assert(self@.perf.dom() =~= self.perf@.dom());
        }
        r
    }

    /// Every key with a flake record, once.
    pub(crate) fn flake_keys(&self) -> (r: Vec<u64>)
        ensures
            r@.no_duplicates(),
            r@.to_set() == self@.flake.dom(),
    {
        fx_keys(&self.flake)
    }

    /// The samples under `key`.
    pub(crate) fn samples(&self, key: u64) -> (r: Option<&Vec<DurationSample>>)
        ensures
            r is Some <==> self@.perf.contains_key(key),
            r matches Some(v) ==> v@ == self@.perf[key],
    {
        match fx_get(&self.perf, key) {
            Some(record) => Some(&record.samples),
            None => None,
        }
    }

    /// The flake record under `key`.
    pub(crate) fn flakes(&self, key: u64) -> (r: Option<FlakeRecord>)
        ensures
            r == (if self@.flake.contains_key(key) {
                Some(self@.flake[key])
            } else {
                None::<FlakeRecord>
            }),
    {
        match fx_get(&self.flake, key) {
            Some(record) => Some(*record),
            None => None,
        }
    }

    pub(crate) fn add_sample(&mut self, key: u64, timestamp_ms: u64, duration_ms: u64)
        ensures
            final(self)@ == with_sample(
                old(self)@,
                key,
                DurationSample { timestamp_ms, duration_ms },
            ),
    {
        let mut record: PerfRecord = match fx_remove(&mut self.perf, key) {
            Some(found) => found,
            None => PerfRecord::default(),
        };
        proof {
            assert(record.samples@ =~= samples_at(old(self)@.perf, key));
        }
        record.record(timestamp_ms, duration_ms);
        fx_insert(&mut self.perf, key, record);
        proof {
            assert(self@.perf =~= with_sample(
                old(self)@,
                key,
                DurationSample { timestamp_ms, duration_ms },
            ).perf);
        }
    }

    pub(crate) fn count_run(
        &mut self,
        key: u64,
        failed: bool,
        class: Option<FailureClass>,
        timestamp_ms: u64,
    )
        ensures
            final(self)@ == with_counted(old(self)@, key, failed, class, timestamp_ms),
    {
        let mut record: FlakeRecord = match fx_remove(&mut self.flake, key) {
            Some(found) => found,
            None => FlakeRecord::default(),
        };
        record.record(failed, class, timestamp_ms);
        fx_insert(&mut self.flake, key, record);
        proof {
            assert(self@.flake =~= with_counted(old(self)@, key, failed, class, timestamp_ms).flake);
        }
    }

    fn absorb(&mut self, other: &EnvHistory)
        ensures
            final(self)@ == env_merged(old(self)@, other@),
    {
        let keys: Vec<u64> = fx_keys(&other.perf);
        let ghost mut done: Set<u64> = Set::empty();
        let mut i: usize = 0;
        proof {
            assert(self@.perf =~= perf_merged(old(self)@.perf, other@.perf, done));
        }
        while i < keys.len()
            invariant
                i <= keys@.len(),
                keys@.no_duplicates(),
                keys@.to_set() == other.perf@.dom(),
                done == keys@.take(i as int).to_set(),
                self@.perf == perf_merged(old(self)@.perf, other@.perf, done),
                self@.flake == old(self)@.flake,
            decreases keys@.len() - i,
        {
            let key: u64 = keys[i];
            proof {
                assert(keys@.to_set().contains(key));
                assert(keys@.take(i + 1) =~= keys@.take(i as int).push(key));
                assert(keys@.take(i + 1).to_set() =~= done.insert(key)) by {
                    broadcast use vstd::seq_lib::group_seq_properties;

                }
                assert(!done.contains(key)) by {
                    if keys@.take(i as int).contains(key) {
                        let j = choose|j: int|
                            0 <= j < i && #[trigger] keys@.take(i as int)[j] == key;
                        assert(keys@[j] == keys@[i as int]);
                    }
                }
            }
            let ghost before = self@.perf;
            let mut record: PerfRecord = match fx_remove(&mut self.perf, key) {
                Some(found) => found,
                None => PerfRecord::default(),
            };
            proof {
                assert(record.samples@ =~= samples_at(before, key));
                assert(samples_at(before, key) == samples_at(old(self)@.perf, key));
            }
            if let Some(theirs) = fx_get(&other.perf, key) {
                record.combine(theirs);
            }
            proof {
                assert(other@.perf[key] == other.perf@[key].samples@);
                assert(record.samples@ == newest(samples_at(old(self)@.perf, key) + other@.perf[key]));
            }
            fx_insert(&mut self.perf, key, record);
            proof {
                assert(self@.perf =~= before.insert(key, record.samples@));
                done = done.insert(key);
                assert(self@.perf =~= perf_merged(old(self)@.perf, other@.perf, done));
            }
            i = i + 1;
        }
        proof {
            assert(keys@.take(keys@.len() as int) =~= keys@);
            assert(other@.perf.dom() =~= done);
        }
        let flake_keys: Vec<u64> = fx_keys(&other.flake);
        let ghost mut seen: Set<u64> = Set::empty();
        let mut j: usize = 0;
        proof {
            assert(self@.flake =~= flake_merged(old(self)@.flake, other@.flake, seen));
        }
        let ghost perf_done = self@.perf;
        while j < flake_keys.len()
            invariant
                j <= flake_keys@.len(),
                flake_keys@.no_duplicates(),
                flake_keys@.to_set() == other.flake@.dom(),
                seen == flake_keys@.take(j as int).to_set(),
                self@.flake == flake_merged(old(self)@.flake, other@.flake, seen),
                self@.perf == perf_done,
            decreases flake_keys@.len() - j,
        {
            let key: u64 = flake_keys[j];
            proof {
                assert(flake_keys@.to_set().contains(key));
                assert(flake_keys@.take(j + 1) =~= flake_keys@.take(j as int).push(key));
                assert(flake_keys@.take(j + 1).to_set() =~= seen.insert(key)) by {
                    broadcast use vstd::seq_lib::group_seq_properties;

                }
                assert(!seen.contains(key)) by {
                    if flake_keys@.take(j as int).contains(key) {
                        let n = choose|n: int|
                            0 <= n < j && #[trigger] flake_keys@.take(j as int)[n] == key;
                        assert(flake_keys@[n] == flake_keys@[j as int]);
                    }
                }
            }
            let mut record: FlakeRecord = match fx_remove(&mut self.flake, key) {
                Some(found) => found,
                None => FlakeRecord::default(),
            };
            if let Some(theirs) = fx_get(&other.flake, key) {
                record.combine(theirs);
            }
            fx_insert(&mut self.flake, key, record);
            proof {
                seen = seen.insert(key);
                assert(self@.flake =~= flake_merged(old(self)@.flake, other@.flake, seen));
            }
            j = j + 1;
        }
        proof {
            assert(flake_keys@.take(flake_keys@.len() as int) =~= flake_keys@);
        }
    }
}

/// The identities behind the keys.
pub(crate) struct NameTable {
    map: FxHashMap<u64, TestIdentity>,
}

impl View for NameTable {
    type V = Map<u64, IdentityView>;

    closed spec fn view(&self) -> Map<u64, IdentityView> {
        names_view(self.map@)
    }
}

impl NameTable {
    pub(crate) fn new() -> (r: NameTable)
        ensures
            r@ == Map::<u64, IdentityView>::empty(),
    {
        let r = NameTable { map: fx_new() };
        proof {
            assert(r@ =~= Map::<u64, IdentityView>::empty());
        }
        r
    }

    pub(crate) fn put(&mut self, key: u64, id: TestIdentity)
        ensures
            final(self)@ == old(self)@.insert(key, id@),
    {
        fx_insert(&mut self.map, key, id);
        proof {
            assert(self@ =~= old(self)@.insert(key, id@));
        }
    }

    pub(crate) fn get(&self, key: u64) -> (r: Option<&TestIdentity>)
        ensures
            r is Some <==> self@.contains_key(key),
            r matches Some(id) ==> id@ == self@[key],
    {
        fx_get(&self.map, key)
    }

    /// Every key, once.
    pub(crate) fn keys(&self) -> (r: Vec<u64>)
        ensures
            r@.no_duplicates(),
            r@.to_set() == self@.dom(),
    {
        let r: Vec<u64> = fx_keys(&self.map);
        proof {
            assert(self@.dom() =~= self.map@.dom());
        }
        r
    }
}

/// The files of a store. A file that is not there, or cannot be read, is absent.
#[derive(Debug, Clone)]
pub struct DbFiles {
    pub perf_bin: Option<Vec<u8>>,
    pub perf_log: Option<Vec<u8>>,
    pub flake_bin: Option<Vec<u8>>,
    pub flake_log: Option<Vec<u8>>,
    pub names_bin: Option<Vec<u8>>,
    pub names_log: Option<Vec<u8>>,
}

/// The contents of the files of a store; an absent file is empty.
pub struct FilesView {
    pub perf_bin: Seq<u8>,
    pub perf_log: Seq<u8>,
    pub flake_bin: Seq<u8>,
    pub flake_log: Seq<u8>,
    pub names_bin: Seq<u8>,
    pub names_log: Seq<u8>,
}

/// The contents of a file; an absent one is empty.
pub open spec fn contents(file: Option<Vec<u8>>) -> Seq<u8> {
    match file {
        Some(bytes) => bytes@,
        None => Seq::empty(),
    }
}

impl View for DbFiles {
    type V = FilesView;

    open spec fn view(&self) -> FilesView {
        FilesView {
            perf_bin: contents(self.perf_bin),
            perf_log: contents(self.perf_log),
            flake_bin: contents(self.flake_bin),
            flake_log: contents(self.flake_log),
            names_bin: contents(self.names_bin),
            names_log: contents(self.names_log),
        }
    }
}

/// The history that files hold.
pub open spec fn histories_loaded(f: FilesView) -> Histories {
    let none = Map::<u64, Seq<DurationSample>>::empty();
    let perf = db_codec::perf_bin_read(f.perf_bin, none, none);
    let sampled = db_codec::perf_replayed(
        f.perf_log,
        Histories {
            local: EnvView { perf: perf.0, flake: Map::empty() },
            remote: EnvView { perf: perf.1, flake: Map::empty() },
        },
    );
    let flakes = db_codec::flake_bin_read(f.flake_bin, sampled.local.flake, sampled.remote.flake);
    db_codec::flake_replayed(
        f.flake_log,
        Histories {
            local: EnvView { flake: flakes.0, ..sampled.local },
            remote: EnvView { flake: flakes.1, ..sampled.remote },
        },
    )
}

/// The store that files hold, with nothing waiting to be persisted.
pub open spec fn loaded(f: FilesView) -> DbView {
    let h = histories_loaded(f);
    DbView {
        local: h.local,
        remote: h.remote,
        names: db_codec::names_replayed(f.names_log, db_codec::names_bin_read(f.names_bin, Map::empty())),
        new_perf: Seq::empty(),
        new_flake: Seq::empty(),
        new_names: Seq::empty(),
    }
}

/// The store without any history.
pub open spec fn empty_store() -> DbView {
    DbView {
        local: EnvView { perf: Map::empty(), flake: Map::empty() },
        remote: EnvView { perf: Map::empty(), flake: Map::empty() },
        names: Map::empty(),
        new_perf: Seq::empty(),
        new_flake: Seq::empty(),
        new_names: Seq::empty(),
    }
}

/// What a flush appends to each log; an absent part leaves its log untouched.
#[derive(Debug, Clone)]
pub struct PendingLogs {
    pub perf: Option<Vec<u8>>,
    pub flake: Option<Vec<u8>>,
    pub names: Option<Vec<u8>>,
}

/// The compacted files of a store.
#[derive(Debug, Clone)]
pub struct CompactedFiles {
    pub perf_bin: Vec<u8>,
    pub flake_bin: Vec<u8>,
    pub names_bin: Vec<u8>,
}

/// Size in bytes above which a log is folded into its compacted file.
pub const COMPACTION_LIMIT: u64 = 524_288;

/// Whether logs of these sizes are due to be folded into the compacted files.
pub fn needs_compaction(perf_size: u64, flake_size: u64, names_size: u64) -> (r: bool)
    ensures
        r <==> perf_size > COMPACTION_LIMIT || flake_size > COMPACTION_LIMIT || names_size
            > COMPACTION_LIMIT,
{
    perf_size > COMPACTION_LIMIT || flake_size > COMPACTION_LIMIT || names_size > COMPACTION_LIMIT
}

/// What happened on the way to the lock file of a store.
#[derive(Debug, Clone, Copy, PartialEq, Eq)]
pub enum LockEvent {
    /// The start, and the end of a wait.
    Ready,
    /// The lock file was created.
    Created,
    /// The lock is held; its age, when it can be told.
    Held { age: Option<Duration> },
    /// The lock file cannot be created.
    Failed,
}

/// What to do about the lock file next.
#[derive(Debug, Clone, Copy, PartialEq, Eq)]
pub enum LockAction {
    /// Try to create the lock file.
    Try,
    /// The lock is ours.
    Proceed,
    /// Remove the stale lock and wait.
    RemoveAndWait,
    /// Wait.
    Wait,
    /// Go on without the lock.
    GiveUp,
}

/// Attempts to take the lock before going on without it.
pub const LOCK_ATTEMPTS: u32 = 200;

/// Milliseconds between two attempts to take the lock.
pub const LOCK_WAIT_MS: u64 = 10;

/// How to go on after an event when the lock file was tried `attempts` times. A lock
/// older than ten seconds is stale.
pub open spec fn lock_action(attempts: u32, event: LockEvent) -> LockAction {
    match event {
        LockEvent::Ready => if attempts < LOCK_ATTEMPTS {
            LockAction::Try
        } else {
            LockAction::GiveUp
        },
        LockEvent::Created => LockAction::Proceed,
        LockEvent::Failed => LockAction::GiveUp,
        LockEvent::Held { age } => if age matches Some(a) && a.total_nanos() > 10_000_000_000 {
            LockAction::RemoveAndWait
        } else {
            LockAction::Wait
        },
    }
}

/// Decides how to go on after an event when the lock file was tried `attempts` times.
pub fn lock_step(attempts: u32, event: LockEvent) -> (r: LockAction)
    ensures
        r == lock_action(attempts, event),
{
    match event {
        LockEvent::Ready => if attempts < LOCK_ATTEMPTS {
            LockAction::Try
        } else {
            LockAction::GiveUp
        },
        LockEvent::Created => LockAction::Proceed,
        LockEvent::Failed => LockAction::GiveUp,
        LockEvent::Held { age: Some(age) } => {
            let limit: Duration = Duration::from_secs(10);
            if age.at_most(&limit) {
                LockAction::Wait
            } else {
                LockAction::RemoveAndWait
            }
        },
        LockEvent::Held { age: None } => LockAction::Wait,
    }
}

/// A span in whole milliseconds, in 64 bits.
pub open spec fn millis_u64(d: Duration) -> u64 {
    (d.total_millis() as u128) as u64
}

/// The loaded history plus what this run has added to it.
pub struct DurationDb {
    project: String,
    local: EnvHistory,
    remote: EnvHistory,
    names: NameTable,
    new_perf: Vec<PerfEntry>,
    new_flake: Vec<FlakeEntry>,
    new_names: Vec<(u64, TestIdentity)>,
}

impl View for DurationDb {
    type V = DbView;

    closed spec fn view(&self) -> DbView {
        DbView {
            local: self.local@,
            remote: self.remote@,
            names: self.names@,
            new_perf: self.new_perf@,
            new_flake: self.new_flake@,
            new_names: db_codec::name_entries(self.new_names@),
        }
    }
}

/// `rustc_hash::FxHasher` over the project directory and the identity. The hash
/// depends on the machine (the width of `usize` and the target's multiplication),
/// so nothing is said of its value.
#[verifier::external_body]
fn hash_key(project: &str, test_id: &TestIdentity) -> u64 {
    let mut hasher = FxHasher::default();
    project.hash(&mut hasher);
    test_id.hash(&mut hasher);
    hasher.finish()
}

/// Whether `key` is a key that the hash gives a test of a project.
pub closed spec fn is_key(
    project: Seq<char>,
    target: Seq<char>,
    name: Seq<char>,
    variant: Variant,
    key: u64,
) -> bool {
    exists|at: &str, id: TestIdentity|
        at@ == project && id.target@ == target && id.name@ == name && id.variant == variant
            && #[trigger] call_ensures(hash_key, (at, &id), key)
}

/// `std::time::SystemTime::elapsed` since the Unix epoch, in milliseconds; zero on a
/// clock that stands before it. Nothing is said of what a clock shows.
#[verifier::external_body]
fn clock_ms() -> u64 {
    std::time::UNIX_EPOCH.elapsed().unwrap_or_default().as_millis() as u64
}

impl DurationDb {
    /// The project directory that keys are made for.
    pub closed spec fn spec_project(&self) -> Seq<char> {
        self.project@
    }

    /// Loads the store of a project from its files. The history is advisory, so
    /// what cannot be read starts fresh.
    pub fn load(project: &str, files: &DbFiles) -> (r: DurationDb)
        ensures
            r@ == loaded(files@),
            r.spec_project() == project@,
    {
        let mut local: EnvHistory = EnvHistory::new();
        let mut remote: EnvHistory = EnvHistory::new();
        let mut names: NameTable = NameTable::new();
        if let Some(b) = &files.perf_bin {
            read_perf_bin(b.as_slice(), &mut local, &mut remote);
        }
        if let Some(b) = &files.perf_log {
            replay_perf_log(b.as_slice(), &mut local, &mut remote);
        }
        if let Some(b) = &files.flake_bin {
            read_flake_bin(b.as_slice(), &mut local, &mut remote);
        }
        if let Some(b) = &files.flake_log {
            replay_flake_log(b.as_slice(), &mut local, &mut remote);
        }
        if let Some(b) = &files.names_bin {
            read_names_bin(b.as_slice(), &mut names);
        }
        if let Some(b) = &files.names_log {
            replay_names_log(b.as_slice(), &mut names);
        }
        let r = DurationDb {
            project: project.to_owned(),
            local,
            remote,
            names,
            new_perf: Vec::new(),
            new_flake: Vec::new(),
            new_names: Vec::new(),
        };
        proof {
            assert(r@.new_names =~= Seq::empty());
        }
        r
    }

    /// An empty in-memory store that is never persisted.
    pub fn ephemeral() -> (r: DurationDb)
        ensures
            r@ == empty_store(),
            r.spec_project() == Seq::<char>::empty(),
    {
        let r = DurationDb {
            project: String::new(),
            local: EnvHistory::new(),
            remote: EnvHistory::new(),
            names: NameTable::new(),
            new_perf: Vec::new(),
            new_flake: Vec::new(),
            new_names: Vec::new(),
        };
        proof {
            assert(r@.new_names =~= Seq::empty());
        }
        r
    }

    /// Whether `key` is a key of a test in this store.
    pub open spec fn keyed(self, id: TestIdentity, key: u64) -> bool {
        is_key(self.spec_project(), id.target@, id.name@, id.variant, key)
    }

    /// The key of a test: the hash of the project and the identity.
    pub fn key_of(&self, test_id: &TestIdentity) -> (r: u64)
        ensures
            self.keyed(*test_id, r),
    {
        hash_key(self.project.as_str(), test_id)
    }

    /// The keys of some tests, in their order.
    pub fn keys_of(&self, ids: &[TestIdentity]) -> (r: Vec<u64>)
        ensures
            r@.len() == ids@.len(),
            forall|i: int| 0 <= i < ids@.len() ==> self.keyed(ids@[i], #[trigger] r@[i]),
    {
        let mut out: Vec<u64> = Vec::new();
        let mut i: usize = 0;
        while i < ids.len()
            invariant
                i <= ids.len(),
                out@.len() == i,
                forall|k: int| 0 <= k < i ==> self.keyed(ids@[k], #[trigger] out@[k]),
            decreases ids.len() - i,
        {
            out.push(self.key_of(&ids[i]));
            i += 1;
        }
        out
    }

    /// Every key with samples or a flake record, in ascending order.
    pub fn all_keys(&self) -> (r: Vec<u64>)
        ensures
            forall|i: int, j: int| 0 <= i < j < r@.len() ==> r@[i] < r@[j],
            forall|k: u64| r@.contains(k) <==> #[trigger] self@.has_key(k),
    {
        let mut keys: Vec<u64> = self.local.perf_keys();
        let ghost a = keys@;
        let mut more: Vec<u64> = self.remote.perf_keys();
        let ghost b = more@;
        keys.append(&mut more);
        let mut flakes: Vec<u64> = self.local.flake_keys();
        let ghost c = flakes@;
        keys.append(&mut flakes);
        let mut more_flakes: Vec<u64> = self.remote.flake_keys();
        let ghost d = more_flakes@;
        keys.append(&mut more_flakes);
        let ghost all = keys@;
        proof {
            assert forall|k: u64| all.contains(k) <==> #[trigger] self@.has_key(k) by {
                assert(all =~= a + b + c + d);
                assert(a.to_set().contains(k) <==> a.contains(k));
                assert(b.to_set().contains(k) <==> b.contains(k));
                assert(c.to_set().contains(k) <==> c.contains(k));
                assert(d.to_set().contains(k) <==> d.contains(k));
                vstd::seq_lib::lemma_seq_concat_contains_all_elements(a, b, k);
                vstd::seq_lib::lemma_seq_concat_contains_all_elements(a + b, c, k);
                vstd::seq_lib::lemma_seq_concat_contains_all_elements(a + b + c, d, k);
            }
        }
        let sorted: Vec<u64> = sort(keys);
        proof {
            order::lemma_ranked(all);
            all.to_multiset_ensures();
            sorted@.to_multiset_ensures();
            assert forall|k: u64| #[trigger] sorted@.contains(k) <==> all.contains(k) by {
                assert(sorted@.to_multiset().count(k) == all.to_multiset().count(k));
            }
            let leq = |a: u64, b: u64| a.ranks(b);
            assert forall|x: int, y: int| 0 <= x < y < sorted@.len() implies sorted@[x]
                <= sorted@[y] by {
                assert(leq(sorted@[x], sorted@[y]));
            }
        }
        let mut out: Vec<u64> = Vec::new();
        let mut i: usize = 0;
        while i < sorted.len()
            invariant
                i <= sorted@.len(),
                forall|x: int, y: int| 0 <= x < y < sorted@.len() ==> sorted@[x] <= sorted@[y],
                forall|x: int, y: int| 0 <= x < y < out@.len() ==> out@[x] < out@[y],
                forall|x: int| 0 <= x < out@.len() ==> #[trigger] sorted@.contains(out@[x]),
                forall|x: int| 0 <= x < i ==> out@.contains(#[trigger] sorted@[x]),
                out@.len() > 0 ==> i > 0 && out@.last() == sorted@[i - 1],
                i > 0 ==> out@.len() > 0,
            decreases sorted@.len() - i,
        {
            let key: u64 = sorted[i];
            let ghost before = out@;
            if out.len() == 0 || out[out.len() - 1] != key {
                out.push(key);
                proof {
                    assert(out@.last() == key);
                    assert forall|x: int| 0 <= x < i implies out@.contains(#[trigger] sorted@[x]) by {
                        let n = choose|n: int| 0 <= n < before.len() && before[n] == sorted@[x];
                        assert(out@[n] == sorted@[x]);
                    }
                }
            }
            i = i + 1;
        }
        proof {
            assert forall|k: u64| out@.contains(k) <==> #[trigger] self@.has_key(k) by {
                assert(all.contains(k) <==> self@.has_key(k));
                assert(sorted@.contains(k) <==> all.contains(k));
                if out@.contains(k) {
                    let n = choose|n: int| 0 <= n < out@.len() && out@[n] == k;
                    assert(sorted@.contains(out@[n]));
                }
                if sorted@.contains(k) {
                    let n = choose|n: int| 0 <= n < sorted@.len() && sorted@[n] == k;
                    assert(out@.contains(sorted@[n]));
                }
            }
        }
        out
    }

    /// The identity behind a key.
    pub fn get_name(&self, key: u64) -> (r: Option<&TestIdentity>)
        ensures
            r is Some <==> self@.names.contains_key(key),
            r matches Some(id) ==> id@ == self@.names[key],
    {
        self.names.get(key)
    }

    fn perf_record(&self, env: Option<Environment>, key: u64) -> (r: PerfRecord)
        ensures
            r.samples@ == newest(self@.samples(env, key)),
    {
        let mut combined: PerfRecord = PerfRecord::default();
        let ghost empty = combined.samples@;
        proof {
            assert(newest(Seq::<DurationSample>::empty()) =~= Seq::empty()) by {
                order::lemma_ranked(Seq::<DurationSample>::empty());
            }
            assert(combined.samples@ =~= Seq::empty());
        }
        let use_local: bool = match env {
            Some(Environment::Remote) => false,
            _ => true,
        };
        let use_remote: bool = match env {
            Some(Environment::Local) => false,
            _ => true,
        };
        if use_local {
            if let Some(record) = fx_get(&self.local.perf, key) {
                combined.combine(record);
            }
        }
        let ghost from_local = samples_at(self@.local.perf, key);
        proof {
            assert(Seq::<DurationSample>::empty() + from_local =~= from_local);
            assert(use_local ==> combined.samples@ == newest(from_local));
        }
        let ghost from_remote = samples_at(self@.remote.perf, key);
        if use_remote {
            if let Some(record) = fx_get(&self.remote.perf, key) {
                combined.combine(record);
            }
        }
        proof {
            law_newest_absorbs(from_local, from_remote);
            assert(Seq::<DurationSample>::empty() + from_remote =~= from_remote);
            assert(from_local + Seq::<DurationSample>::empty() =~= from_local);
        }
        combined
    }

    /// The newest samples of a test, in `env` or in both environments.
    pub fn get_perf_samples(&self, env: Option<Environment>, key: u64) -> (r: Vec<DurationSample>)
        ensures
            r@ == newest(self@.samples(env, key)),
    {
        self.perf_record(env, key).samples
    }

    /// The flake record of a test, in `env` or in both environments.
    pub fn get_flake_record(&self, env: Option<Environment>, key: u64) -> (r: Option<FlakeRecord>)
        ensures
            r == self@.flakes(env, key),
    {
        let mut combined: FlakeRecord = FlakeRecord::default();
        let mut found: bool = false;
        let use_local: bool = match env {
            Some(Environment::Remote) => false,
            _ => true,
        };
        let use_remote: bool = match env {
            Some(Environment::Local) => false,
            _ => true,
        };
        if use_local {
            if let Some(record) = self.local.flakes(key) {
                combined.combine(&record);
                found = true;
            }
        }
        if use_remote {
            if let Some(record) = self.remote.flakes(key) {
                combined.combine(&record);
                found = true;
            }
        }
        if found {
            Some(combined)
        } else {
            None
        }
    }

    /// The duration estimate for a test: of `env` when it is given, else across
    /// environments.
    pub fn estimate(&self, env: Option<Environment>, test_id: &TestIdentity) -> (r:
        DurationEstimate)
        ensures
            exists|key: u64|
                self.keyed(*test_id, key) && r == estimate_from(#[trigger] self@.samples(env, key)),
    {
        let key: u64 = self.key_of(test_id);
        self.estimate_by_key(env, key)
    }

    /// The duration estimate for the test behind `key`.
    pub fn estimate_by_key(&self, env: Option<Environment>, key: u64) -> (r: DurationEstimate)
        ensures
            r == estimate_from(self@.samples(env, key)),
    {
        let combined: PerfRecord = self.perf_record(env, key);
        let ghost all = self@.samples(env, key);
        proof {
            order::lemma_ranked(all);
        }
        if combined.samples.len() == 0 {
            return DurationEstimate::Unseen;
        }
        let mut ms: Vec<u64> = Vec::new();
        let mut i: usize = 0;
        while i < combined.samples.len()
            invariant
                i <= combined.samples@.len(),
                ms@ == durations(combined.samples@).take(i as int),
            decreases combined.samples@.len() - i,
        {
            proof {
                let d = durations(combined.samples@);
                assert(d.take(i + 1) =~= d.take(i as int).push(d[i as int]));
            }
            ms.push(combined.samples[i].duration_ms);
            i = i + 1;
        }
        proof {
            let d = durations(combined.samples@);
            assert(d.take(d.len() as int) =~= d);
        }
        DurationEstimate::Measured {
            p50_ms: percentile(ms.as_slice(), 50),
            p95_ms: percentile(ms.as_slice(), 95),
        }
    }

    /// The flake record for a test: of `env` when it is given, else across
    /// environments.
    pub fn flake(&self, env: Option<Environment>, test_id: &TestIdentity) -> (r: Option<
        FlakeRecord,
    >)
        ensures
            exists|key: u64| self.keyed(*test_id, key) && r == #[trigger] self@.flakes(env, key),
    {
        let key: u64 = self.key_of(test_id);
        self.get_flake_record(env, key)
    }

    fn note_name(&mut self, key: u64, test_id: &TestIdentity)
        ensures
            final(self)@ == old(self)@.with_name(key, test_id@),
            final(self).spec_project() == old(self).spec_project(),
    {
        if self.names.get(key).is_none() {
            self.names.put(key, test_id.duplicate());
            self.new_names.push((key, test_id.duplicate()));
            proof {
                assert(self@.new_names =~= old(self)@.new_names.push((key, test_id@)));
            }
        }
    }

    /// Remembers the name of a test that was discovered but has not run yet.
    pub fn record_discovered_name(&mut self, test_id: &TestIdentity)
        ensures
            exists|key: u64|
                old(self).keyed(*test_id, key) && final(self)@ == #[trigger] old(self)@.with_name(
                    key,
                    test_id@,
                ),
            final(self).spec_project() == old(self).spec_project(),
    {
        let key: u64 = self.key_of(test_id);
        self.note_name(key, test_id);
    }

    /// Records one run of a test, at the time of the call.
    pub fn record(
        &mut self,
        env: Environment,
        test_id: &TestIdentity,
        duration: Duration,
        failed: bool,
        failure_class: Option<FailureClass>,
    )
        ensures
            exists|key: u64, timestamp_ms: u64|
                old(self).keyed(*test_id, key) && final(self)@ == #[trigger] old(self)@.with_recorded(
                    env,
                    key,
                    test_id@,
                    millis_u64(duration),
                    failed,
                    failure_class,
                    timestamp_ms,
                ),
            final(self).spec_project() == old(self).spec_project(),
    {
        let timestamp_ms: u64 = clock_ms();
        self.record_at(env, test_id, duration, failed, failure_class, timestamp_ms);
    }

    /// Records one run of a test.
    pub fn record_at(
        &mut self,
        env: Environment,
        test_id: &TestIdentity,
        duration: Duration,
        failed: bool,
        failure_class: Option<FailureClass>,
        timestamp_ms: u64,
    )
        ensures
            exists|key: u64|
                old(self).keyed(*test_id, key) && final(self)@ == #[trigger] old(self)@.with_recorded(
                    env,
                    key,
                    test_id@,
                    millis_u64(duration),
                    failed,
                    failure_class,
                    timestamp_ms,
                ),
            final(self).spec_project() == old(self).spec_project(),
    {
        let key: u64 = self.key_of(test_id);
        self.record_by_key(env, key, test_id, duration, failed, failure_class, timestamp_ms);
    }

    /// Records one run of the test behind `key`.
    pub fn record_by_key(
        &mut self,
        env: Environment,
        key: u64,
        test_id: &TestIdentity,
        duration: Duration,
        failed: bool,
        failure_class: Option<FailureClass>,
        timestamp_ms: u64,
    )
        ensures
            final(self)@ == old(self)@.with_recorded(
                env,
                key,
                test_id@,
                millis_u64(duration),
                failed,
                failure_class,
                timestamp_ms,
            ),
            final(self).spec_project() == old(self).spec_project(),
    {
        self.note_name(key, test_id);
        let duration_ms: u64 = #[verifier::truncate] (duration.as_millis() as u64);
        if !failed {
            match env {
                Environment::Local => self.local.add_sample(key, timestamp_ms, duration_ms),
                Environment::Remote => self.remote.add_sample(key, timestamp_ms, duration_ms),
            }
            self.new_perf.push(PerfEntry { env, key, timestamp_ms, duration_ms });
        }
        match env {
            Environment::Local => self.local.count_run(key, failed, failure_class, timestamp_ms),
            Environment::Remote => self.remote.count_run(key, failed, failure_class, timestamp_ms),
        }
        self.new_flake.push(FlakeEntry { env, key, failed, class: failure_class, timestamp_ms });
    }
}

/// The names of two stores: those of `a` where both know the key.
pub open spec fn names_merged(a: Map<u64, IdentityView>, b: Map<u64, IdentityView>) -> Map<
    u64,
    IdentityView,
> {
    Map::new(
        |k: u64| a.contains_key(k) || b.contains_key(k),
        |k: u64|
            if a.contains_key(k) {
                a[k]
            } else {
                b[k]
            },
    )
}

/// Whether `r` is `a` with everything of `b` added: histories and names are
/// merged, and what waits to be persisted is what waited in both, plus the names
/// that only `b` knew, in some order.
pub open spec fn is_combined(a: DbView, b: DbView, r: DbView) -> bool {
    &&& r.local == env_merged(a.local, b.local)
    &&& r.remote == env_merged(a.remote, b.remote)
    &&& r.names == names_merged(a.names, b.names)
    &&& r.new_perf == a.new_perf + b.new_perf
    &&& r.new_flake == a.new_flake + b.new_flake
    &&& exists|order: Seq<u64>|
        db_codec::enumerates(order, b.names.dom().difference(a.names.dom())) && r.new_names == a.new_names
            + #[trigger] db_codec::entries_of(order, b.names)
}

impl DurationDb {
    /// Adds everything of `other` to this store.
    pub fn combine(&mut self, other: DurationDb)
        ensures
            is_combined(old(self)@, other@, final(self)@),
            final(self).spec_project() == old(self).spec_project(),
    {
        let mut other: DurationDb = other;
        let ghost theirs = other@;
        self.local.absorb(&other.local);
        self.remote.absorb(&other.remote);
        let keys: Vec<u64> = other.names.keys();
        let ghost mut order: Seq<u64> = Seq::empty();
        let mut i: usize = 0;
        proof {
            assert(db_codec::entries_of(order, theirs.names) =~= Seq::empty());
            assert(old(self)@.new_names + Seq::<(u64, IdentityView)>::empty()
                =~= old(self)@.new_names);
        }
        while i < keys.len()
            invariant
                i <= keys@.len(),
                keys@.no_duplicates(),
                keys@.to_set() == theirs.names.dom(),
                other@ == theirs,
                self@.local == env_merged(old(self)@.local, theirs.local),
                self@.remote == env_merged(old(self)@.remote, theirs.remote),
                self@.new_perf == old(self)@.new_perf,
                self@.new_flake == old(self)@.new_flake,
                self.spec_project() == old(self).spec_project(),
                order.no_duplicates(),
                forall|k: u64|
                    #[trigger] order.contains(k) <==> keys@.take(i as int).contains(k)
                        && !old(self)@.names.contains_key(k),
                forall|k: u64|
                    #[trigger] self@.names.contains_key(k) <==> old(self)@.names.contains_key(k)
                        || keys@.take(i as int).contains(k),
                forall|k: u64|
                    self@.names.contains_key(k) ==> #[trigger] self@.names[k] == (
                    if old(self)@.names.contains_key(k) {
                        old(self)@.names[k]
                    } else {
                        theirs.names[k]
                    }),
                self@.new_names == old(self)@.new_names + db_codec::entries_of(order, theirs.names),
            decreases keys@.len() - i,
        {
            let key: u64 = keys[i];
            let ghost before = self@;
            let ghost seen = keys@.take(i as int);
            proof {
                assert(keys@.to_set().contains(key));
                assert(keys@.take(i + 1) =~= seen.push(key));
                assert(!seen.contains(key)) by {
                    if seen.contains(key) {
                        let n = choose|n: int| 0 <= n < i && #[trigger] seen[n] == key;
                        assert(keys@[n] == keys@[i as int]);
                    }
                }
                assert forall|k: u64| #[trigger] keys@.take(i + 1).contains(k) <==> seen.contains(k)
                    || k == key by {
                    if seen.contains(k) {
                        let n = choose|n: int| 0 <= n < i && #[trigger] seen[n] == k;
                        assert(keys@.take(i + 1)[n] == k);
                    }
                    if k == key {
                        assert(keys@.take(i + 1)[i as int] == k);
                    }
                    if keys@.take(i + 1).contains(k) && k != key {
                        let n = choose|n: int| 0 <= n < i + 1 && #[trigger] keys@.take(i + 1)[n] == k;
                        assert(seen[n] == k);
                    }
                }
            }
            if let Some(id) = other.names.get(key) {
                self.note_name(key, id);
            }
            proof {
                if !before.names.contains_key(key) {
                    let longer = order.push(key);
                    assert(!order.contains(key));
                    assert forall|x: int, y: int|
                        0 <= x < longer.len() && 0 <= y < longer.len() && x != y implies longer[x]
                        != longer[y] by {
                        if x < order.len() && y == order.len() {
                            assert(order.contains(order[x]));
                        }
                        if y < order.len() && x == order.len() {
                            assert(order.contains(order[y]));
                        }
                    }
                    assert(db_codec::entries_of(longer, theirs.names) =~= db_codec::entries_of(
                        order,
                        theirs.names,
                    ).push((key, theirs.names[key])));
                    assert(self@.new_names =~= old(self)@.new_names + db_codec::entries_of(
                        longer,
                        theirs.names,
                    ));
                    assert forall|k: u64| #[trigger] longer.contains(k) <==> order.contains(k)
                        || k == key by {
                        if order.contains(k) {
                            let n = choose|n: int| 0 <= n < order.len() && order[n] == k;
                            assert(longer[n] == k);
                        }
                        if k == key {
                            assert(longer[order.len() as int] == k);
                        }
                    }
                    order = longer;
                }
            }
            i = i + 1;
        }
        let ghost named = self@.names;
        self.new_perf.append(&mut other.new_perf);
        self.new_flake.append(&mut other.new_flake);
        proof {
            assert(self@.names == named);
            assert(keys@.take(keys@.len() as int) =~= keys@);
            assert forall|k: u64| keys@.contains(k) <==> #[trigger] theirs.names.contains_key(k) by {
                assert(keys@.to_set().contains(k) <==> keys@.contains(k));
            }
            let merged = names_merged(old(self)@.names, theirs.names);
            assert forall|k: u64| #[trigger] named.contains_key(k) <==> merged.contains_key(
                k,
            ) by {
                assert(keys@.contains(k) <==> theirs.names.contains_key(k));
            }
            assert forall|k: u64| #[trigger] named.contains_key(k) implies named[k] == merged[k] by {}
            assert(named =~= merged);
            assert(order.to_set() =~= theirs.names.dom().difference(old(self)@.names.dom()));
            assert(db_codec::enumerates(order, theirs.names.dom().difference(old(self)@.names.dom())));
        }
    }

    /// Takes what waits to be persisted, as the bytes to append to each log.
    pub fn flush(&mut self) -> (r: PendingLogs)
        ensures
            r.perf is Some <==> old(self)@.new_perf.len() > 0,
            contents(r.perf) == db_codec::perf_log_bytes(old(self)@.new_perf),
            r.flake is Some <==> old(self)@.new_flake.len() > 0,
            contents(r.flake) == db_codec::flake_log_bytes(old(self)@.new_flake),
            r.names is Some <==> old(self)@.new_names.len() > 0,
            contents(r.names) == db_codec::names_log_bytes(old(self)@.new_names),
            final(self)@ == (DbView {
                new_perf: Seq::empty(),
                new_flake: Seq::empty(),
                new_names: Seq::empty(),
                ..old(self)@
            }),
            final(self).spec_project() == old(self).spec_project(),
    {
        let perf: Option<Vec<u8>> = if self.new_perf.len() == 0 {
            None
        } else {
            Some(perf_log(&self.new_perf))
        };
        let flake: Option<Vec<u8>> = if self.new_flake.len() == 0 {
            None
        } else {
            Some(flake_log(&self.new_flake))
        };
        let names: Option<Vec<u8>> = if self.new_names.len() == 0 {
            None
        } else {
            Some(names_log(&self.new_names))
        };
        self.new_perf.clear();
        self.new_flake.clear();
        self.new_names.clear();
        proof {
            assert(self@.new_names =~= Seq::empty());
        }
        PendingLogs { perf, flake, names }
    }

    /// The compacted files of the store.
    pub fn compacted(&self) -> (r: CompactedFiles)
        ensures
            db_codec::is_perf_bin(r.perf_bin@, self@.local.perf, self@.remote.perf),
            db_codec::is_flake_bin(r.flake_bin@, self@.local.flake, self@.remote.flake),
            db_codec::is_names_bin(r.names_bin@, self@.names),
    {
        CompactedFiles {
            perf_bin: perf_bin(&self.local, &self.remote),
            flake_bin: flake_bin(&self.local, &self.remote),
            names_bin: names_bin(&self.names),
        }
    }
}

} // verus!

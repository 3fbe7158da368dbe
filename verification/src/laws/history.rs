//! What the history of a test says, and what is recorded in it.

use vstd::multiset::Multiset;
use vstd::prelude::*;
use vstd::relations::*;

use crate::duration_db::{
    self, percentile, DurationDb, DurationEstimate, DurationSample, Environment, FlakeRecord,
    PerfEntry,
};
use crate::order::{self, Ranked};
use crate::result::{FailureClass, TestIdentity};
use crate::scheduler::action::known_flakes;
use crate::scheduler::batches::{self, estimates_of};
use crate::time::Duration;
use crate::variant::Variant;

verus! {

// ---------------------------------------------------------------------------
// Percentiles.

/// Whether `r` is the nearest-rank `p`-th percentile of some values: it is one of
/// them, at least `p` percent of them are not above it, and fewer than `p` percent,
/// if any, are below it.
pub open spec fn is_percentile(values: Multiset<u64>, p: nat, r: u64) -> bool {
    &&& values.contains(r)
    &&& 100 * values.filter(|x: u64| x <= r).len() >= p * values.len()
    &&& values.filter(|x: u64| x < r).len() == 0 || 100 * values.filter(|x: u64| x < r).len() < p
        * values.len()
}

proof fn lemma_counts_in_order(s: Seq<u64>, i: int)
    requires
        sorted_by(s, |a: u64, b: u64| a.ranks(b)),
        0 <= i < s.len(),
    ensures
        s.to_multiset().filter(|x: u64| x <= s[i]).len() >= i + 1,
        s.to_multiset().filter(|x: u64| x < s[i]).len() <= i,
{
    let leq = |a: u64, b: u64| a.ranks(b);
    let upto = |x: u64| x <= s[i];
    let below = |x: u64| x < s[i];
    {
        let a = s.take(i + 1);
        let b = s.skip(i + 1);
        assert(s =~= a + b);
        vstd::seq_lib::lemma_multiset_commutative(a, b);
        a.to_multiset_ensures();
        b.to_multiset_ensures();
        let (ma, mb) = (a.to_multiset(), b.to_multiset());
        assert(ma.filter(upto) =~= ma) by {
            assert forall|x: u64| ma.count(x) > 0 implies upto(x) by {
                assert(a.contains(x));
                let k = choose|k: int| 0 <= k < a.len() && a[k] == x;
                if k < i {
                    assert(leq(s[k], s[i]));
                }
            }
        }
        assert(ma.add(mb).filter(upto) =~= ma.filter(upto).add(mb.filter(upto)));
    }
    {
        let a = s.take(i);
        let b = s.skip(i);
        assert(s =~= a + b);
        vstd::seq_lib::lemma_multiset_commutative(a, b);
        a.to_multiset_ensures();
        b.to_multiset_ensures();
        let (ma, mb) = (a.to_multiset(), b.to_multiset());
        assert(mb.filter(below) =~= Multiset::empty()) by {
            assert forall|x: u64| mb.count(x) > 0 implies !below(x) by {
                assert(b.contains(x));
                let k = choose|k: int| 0 <= k < b.len() && b[k] == x;
                if k > 0 {
                    assert(s[i + k] == x);
                    assert(leq(s[i], s[i + k]));
                }
            }
        }
        assert(ma.add(mb).filter(below) =~= ma.filter(below).add(mb.filter(below)));
        assert(ma.filter(below).subset_of(ma));
        vstd::multiset::lemma_multiset_empty_len(Multiset::<u64>::empty());
        lemma_fewer(ma.filter(below), ma);
    }
}

proof fn lemma_fewer(a: Multiset<u64>, b: Multiset<u64>)
    requires
        a.subset_of(b),
    ensures
        a.len() <= b.len(),
{
    assert(b =~= a.add(b.sub(a)));
}

proof fn lemma_percentile(samples: Seq<u64>, p: nat)
    requires
        samples.len() > 0,
        p <= 100,
    ensures
        is_percentile(samples.to_multiset(), p, duration_db::percentile_of(samples, p)),
{
    order::lemma_ranked(samples);
    duration_db::law_percentiles_grow(samples, p, p);
    let s = order::ranked(samples);
    samples.to_multiset_ensures();
    let n = samples.len();
    let rank = duration_db::nearest_rank(p, n);
    assert(p * n <= 100 * n) by (nonlinear_arith)
        requires
            p <= 100,
    ;
    assert(1 <= rank <= n);
    lemma_counts_in_order(s, rank - 1);
    let r = duration_db::percentile_of(samples, p);
    assert(s[rank - 1] == r);
    assert(100 * rank >= p * n);
    assert(rank == 1 || 100 * (rank - 1) < p * n);
}

/// A percentile is the nearest-rank one of the values it is asked of; of no value it
/// is zero.
pub proof fn law_percentiles_are_of_nearest_rank(samples: &[u64], p: u64, r: u64)
    requires
        call_ensures(percentile, (samples, p), r),
        p <= 100,
    ensures
        samples@.len() == 0 ==> r == 0,
        samples@.len() > 0 ==> is_percentile(samples@.to_multiset(), p as nat, r),
{
    if samples@.len() > 0 {
        lemma_percentile(samples@, p as nat);
    }
}

// ---------------------------------------------------------------------------
// Estimates.

/// The durations that were recorded for a key in an environment, or in both.
pub open spec fn recorded(db: DurationDb, env: Option<Environment>, key: u64) -> Seq<
    DurationSample,
> {
    let local = if db@.local.perf.contains_key(key) {
        db@.local.perf[key]
    } else {
        Seq::empty()
    };
    let remote = if db@.remote.perf.contains_key(key) {
        db@.remote.perf[key]
    } else {
        Seq::empty()
    };
    match env {
        Some(Environment::Local) => local,
        Some(Environment::Remote) => remote,
        None => local + remote,
    }
}

/// Whether `kept` are the 64 newest samples of `all`, or all of them where there are
/// not so many; of two samples of one time the longer counts as newer.
pub open spec fn are_newest(all: Seq<DurationSample>, kept: Seq<DurationSample>) -> bool {
    exists|dropped: Seq<DurationSample>|
        {
            &&& #[trigger] (kept + dropped).to_multiset() == all.to_multiset()
            &&& kept.len() == if all.len() > 64 {
                64
            } else {
                all.len()
            }
            &&& forall|i: int, j: int|
                #![trigger kept[i], dropped[j]]
                0 <= i < kept.len() && 0 <= j < dropped.len() ==> kept[i].timestamp_ms
                    > dropped[j].timestamp_ms || (kept[i].timestamp_ms == dropped[j].timestamp_ms
                    && kept[i].duration_ms >= dropped[j].duration_ms)
        }
}

/// Whether an estimate is what samples give: none of none, else the median and the
/// 95th percentile of the durations of the newest.
pub open spec fn is_estimate(all: Seq<DurationSample>, estimate: DurationEstimate) -> bool {
    match estimate {
        DurationEstimate::Unseen => all.len() == 0,
        DurationEstimate::Measured { p50_ms, p95_ms } => all.len() > 0 && exists|
            kept: Seq<DurationSample>,
        |
            #![trigger are_newest(all, kept)]
            {
                let durations = Seq::new(kept.len(), |i: int| kept[i].duration_ms).to_multiset();
                are_newest(all, kept) && is_percentile(durations, 50, p50_ms) && is_percentile(
                    durations,
                    95,
                    p95_ms,
                )
            },
    }
}

pub proof fn lemma_newest(all: Seq<DurationSample>)
    ensures
        are_newest(all, duration_db::newest(all)),
{
    let s = order::ranked(all);
    order::lemma_ranked(all);
    let kept = duration_db::newest(all);
    let dropped = s.skip(kept.len() as int);
    let leq = |a: DurationSample, b: DurationSample| a.ranks(b);
    assert(kept + dropped =~= s);
    assert forall|i: int, j: int|
        #![trigger kept[i], dropped[j]]
        0 <= i < kept.len() && 0 <= j < dropped.len() implies kept[i].timestamp_ms
        > dropped[j].timestamp_ms || (kept[i].timestamp_ms == dropped[j].timestamp_ms
        && kept[i].duration_ms >= dropped[j].duration_ms) by {
        assert(kept[i] == s[i] && dropped[j] == s[j + kept.len()]);
        assert(leq(s[i], s[j + kept.len()]));
    }
    assert((kept + dropped).to_multiset() == all.to_multiset());
}

pub proof fn lemma_estimate(all: Seq<DurationSample>)
    ensures
        is_estimate(all, duration_db::estimate_from(all)),
{
    if all.len() > 0 {
        let kept = duration_db::newest(all);
        lemma_newest(all);
        order::lemma_ranked(all);
        let durations = duration_db::durations(kept);
        assert(durations =~= Seq::new(kept.len(), |i: int| kept[i].duration_ms));
        lemma_percentile(durations, 50);
        lemma_percentile(durations, 95);
        assert(are_newest(all, kept));
    }
}

/// An estimate goes by the newest durations of the test: its median and its 95th
/// percentile.
pub proof fn law_estimates_go_by_the_newest_runs(
    db: &DurationDb,
    env: Option<Environment>,
    key: u64,
    r: DurationEstimate,
)
    requires
        call_ensures(DurationDb::estimate_by_key, (db, env, key), r),
    ensures
        is_estimate(recorded(*db, env, key), r),
{
    lemma_estimate(recorded(*db, env, key));
    assert(recorded(*db, env, key) =~= db@.samples(env, key));
}

/// Whether an estimate is what the durations under a key of a test give.
pub open spec fn estimates_test(
    db: DurationDb,
    target: Seq<char>,
    name: Seq<char>,
    variant: Variant,
    estimate: DurationEstimate,
) -> bool {
    exists|key: u64|
        duration_db::is_key(db.spec_project(), target, name, variant, key) && is_estimate(
            #[trigger] recorded(db, None, key),
            estimate,
        )
}

/// The estimate of every test goes by the key of its own identity: the target, its own
/// name and the variant, in the project of the store.
pub proof fn law_estimates_are_of_the_test_itself(
    db: &DurationDb,
    target: &str,
    names: &[String],
    variant: &Variant,
    r: Vec<DurationEstimate>,
)
    requires
        call_ensures(estimates_of, (db, target, names, variant), r),
    ensures
        r@.len() == names@.len(),
        forall|i: int|
            #![trigger r@[i]]
            0 <= i < names@.len() ==> estimates_test(*db, target@, names@[i]@, *variant, r@[i]),
{
    let keys = choose|keys: Seq<u64>| #[trigger]
        batches::are_estimates(db@, keys, r@) && batches::are_keys(
            db.spec_project(),
            target@,
            names@,
            *variant,
            keys,
        );
    assert forall|i: int|
        #![trigger r@[i]]
        0 <= i < names@.len() implies estimates_test(
        *db,
        target@,
        names@[i]@,
        *variant,
        r@[i],
    ) by {
        let key = keys[i];
        lemma_estimate(recorded(*db, None, key));
        assert(recorded(*db, None, key) =~= db@.samples(None, key));
        assert(duration_db::is_key(db.spec_project(), target@, names@[i]@, *variant, key));
    }
}

// ---------------------------------------------------------------------------
// Flakes.

/// Whether a failure of the test behind a key is on record, here or there.
pub open spec fn has_failed(db: DurationDb, key: u64) -> bool {
    ||| db@.local.flake.contains_key(key) && db@.local.flake[key].failures > 0
    ||| db@.remote.flake.contains_key(key) && db@.remote.flake[key].failures > 0
}

/// Whether a flag says if a failure is on record under a key of a test.
pub open spec fn tells_failures(
    db: DurationDb,
    target: Seq<char>,
    name: Seq<char>,
    variant: Variant,
    flag: bool,
) -> bool {
    exists|key: u64|
        duration_db::is_key(db.spec_project(), target, name, variant, key) && flag
            == #[trigger] has_failed(db, key)
}

/// A test is known to fail at times exactly where a failure is on record under the key
/// of its own identity: the target, its own name and the variant, in the project of
/// the store. The other tests of the call play no part.
pub proof fn law_flakes_are_of_the_test_itself(
    db: &DurationDb,
    target: &str,
    names: &[String],
    variant: &Variant,
    r: Vec<bool>,
)
    requires
        call_ensures(known_flakes, (db, target, names, variant), r),
    ensures
        r@.len() == names@.len(),
        forall|i: int|
            #![trigger r@[i]]
            0 <= i < names@.len() ==> tells_failures(*db, target@, names@[i]@, *variant, r@[i]),
        forall|i: int, key: u64|
            #![trigger r@[i], has_failed(*db, key)]
            0 <= i < names@.len() && (forall|other: u64| #[trigger]
                duration_db::is_key(db.spec_project(), target@, names@[i]@, *variant, other)
                    ==> other == key) ==> r@[i] == has_failed(*db, key),
{
    let keys = choose|keys: Seq<u64>| #[trigger]
        crate::scheduler::action::are_flakes(db@, keys, r@) && batches::are_keys(
            db.spec_project(),
            target@,
            names@,
            *variant,
            keys,
        );
    assert forall|i: int| #![trigger r@[i]] 0 <= i < names@.len() implies tells_failures(
        *db,
        target@,
        names@[i]@,
        *variant,
        r@[i],
    ) by {
        let key = keys[i];
        assert(duration_db::is_key(db.spec_project(), target@, names@[i]@, *variant, key));
        assert(r@[i] == has_failed(*db, key));
    }
}

/// The record of a key holds the runs and failures of both environments.
pub proof fn law_records_add_both_environments(
    db: &DurationDb,
    key: u64,
    r: Option<FlakeRecord>,
)
    requires
        call_ensures(DurationDb::get_flake_record, (db, None, key), r),
    ensures
        r is None <==> !db@.local.flake.contains_key(key) && !db@.remote.flake.contains_key(key),
        db@.local.flake.contains_key(key) && db@.remote.flake.contains_key(key) ==> {
            let (a, b) = (db@.local.flake[key], db@.remote.flake[key]);
            &&& a.runs + b.runs <= u64::MAX ==> (r->0).runs == a.runs + b.runs
            &&& a.failures + b.failures <= u64::MAX ==> (r->0).failures == a.failures + b.failures
        },
        r is Some && !db@.remote.flake.contains_key(key) ==> (r->0).runs
            == db@.local.flake[key].runs && (r->0).failures == db@.local.flake[key].failures,
        r is Some && !db@.local.flake.contains_key(key) ==> (r->0).runs
            == db@.remote.flake[key].runs && (r->0).failures == db@.remote.flake[key].failures,
{
}

// ---------------------------------------------------------------------------
// Records.

/// What a run leaves in the history of its environment: one more run; one more failure
/// where it failed, with the time and the kind of the latest; and its duration where
/// it did not fail. Nothing else changes, and what is added waits to be persisted.
pub proof fn law_a_run_is_recorded_under_its_key(
    db: &mut DurationDb,
    env: Environment,
    key: u64,
    id: &TestIdentity,
    duration: Duration,
    failed: bool,
    class: Option<FailureClass>,
    at: u64,
)
    requires
        call_ensures(DurationDb::record_by_key, (db, env, key, id, duration, failed, class, at), ()),
        duration.total_millis() <= u64::MAX,
    ensures
        ({
            let (before, after) = (old(db)@, final(db)@);
            let (was, is) = if env is Local {
                (before.local, after.local)
            } else {
                (before.remote, after.remote)
            };
            let runs = if was.flake.contains_key(key) {
                was.flake[key].runs
            } else {
                0
            };
            let failures = if was.flake.contains_key(key) {
                was.flake[key].failures
            } else {
                0
            };
            let sample = DurationSample {
                timestamp_ms: at,
                duration_ms: duration.total_millis() as u64,
            };
            &&& env is Local ==> after.remote == before.remote
            &&& env is Remote ==> after.local == before.local
            &&& is.flake.contains_key(key)
            &&& runs < u64::MAX ==> is.flake[key].runs == runs + 1
            &&& failed && failures < u64::MAX ==> is.flake[key].failures == failures + 1
            &&& !failed ==> is.flake[key].failures == failures
            &&& failed && failures == 0 && !was.flake.contains_key(key)
                ==> is.flake[key].last_failure_timestamp_ms == Some(at)
                && is.flake[key].last_failure_class == class
            &&& failed ==> is.perf == was.perf
            &&& !failed ==> is.perf.contains_key(key) && are_newest(
                (if was.perf.contains_key(key) {
                    was.perf[key]
                } else {
                    Seq::empty()
                }).push(sample),
                is.perf[key],
            )
            &&& forall|other: u64|
                #![trigger is.flake.contains_key(other)]
                #![trigger is.perf.contains_key(other)]
                other != key ==> is.flake.contains_key(other) == was.flake.contains_key(other)
                    && is.flake[other] == was.flake[other] && is.perf.contains_key(other)
                    == was.perf.contains_key(other) && is.perf[other] == was.perf[other]
            &&& after.names.contains_key(key)
            &&& !before.names.contains_key(key) ==> after.names[key] == id@
            &&& before.names.contains_key(key) ==> after.names == before.names
            &&& failed ==> after.new_perf == before.new_perf
            &&& !failed ==> after.new_perf == before.new_perf.push(
                PerfEntry { env, key, timestamp_ms: at, duration_ms: sample.duration_ms },
            )
            &&& after.new_flake.len() == before.new_flake.len() + 1
        }),
{
    let was = if env is Local {
        old(db)@.local
    } else {
        old(db)@.remote
    };
    let samples = if was.perf.contains_key(key) {
        was.perf[key]
    } else {
        Seq::empty()
    };
    lemma_newest(
        samples.push(
            DurationSample { timestamp_ms: at, duration_ms: duration.total_millis() as u64 },
        ),
    );
}

/// A failure that was recorded for a test is known of the test: it is recorded under
/// the key that the flags go by.
pub proof fn law_a_recorded_failure_is_known(
    db: &mut DurationDb,
    env: Environment,
    id: &TestIdentity,
    duration: Duration,
    class: Option<FailureClass>,
    at: u64,
    key: u64,
)
    requires
        call_ensures(DurationDb::record_at, (db, env, id, duration, true, class, at), ()),
        forall|other: u64| #[trigger]
            duration_db::is_key(
                old(db).spec_project(),
                id.target@,
                id.name@,
                id.variant,
                other,
            ) ==> other == key,
    ensures
        has_failed(*final(db), key),
        forall|other: u64| other != key ==> #[trigger] has_failed(*final(db), other) == has_failed(
            *old(db),
            other,
        ),
        final(db).spec_project() == old(db).spec_project(),
{
}

} // verus!

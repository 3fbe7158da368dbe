//! The store of the history: how it grows, is listed and is kept; and the report for CI.

use vstd::prelude::*;

use crate::db_cli::{
    self, asks_for_db, db_stats, list_rows, run_db_command, sort_rows, stats_text, table_text,
    DbCli, DbCommand, DbReport, DbStats, ListRow, RatedRow, SortKey,
};
use crate::duration_db::{
    lock_step, needs_compaction, DurationDb, DurationEstimate, DurationSample, Environment,
    FlakeRecord, LockAction, LockEvent,
};
use crate::laws::history::{are_newest, is_estimate, lemma_estimate, lemma_newest, recorded};
use crate::result::{FailureClass, TestIdentity, TestVerdict};
use crate::scheduler::ci_report::{ci_test, side_file_name, status_text, test_separator, CiTest};
use crate::scheduler::finish::FinishedTest;
use crate::scheduler::install::{Installation, StepResult};
use crate::scheduler::observe::{AttemptDuration, AttemptExecution};
use crate::text;
use crate::time::Duration;

verus! {

// ---------------------------------------------------------------------------
// Records.

/// The sum of two counts, or the largest count.
pub open spec fn counted_up(a: u64, b: u64) -> int {
    if a + b > u64::MAX {
        u64::MAX as int
    } else {
        a + b
    }
}

/// Whether a record is that of two: the runs and failures of both, and the later of their
/// last failures; of two at one time, that of the second.
pub open spec fn adds_up(a: FlakeRecord, b: FlakeRecord, r: FlakeRecord) -> bool {
    &&& r.runs == counted_up(a.runs, b.runs)
    &&& r.failures == counted_up(a.failures, b.failures)
    &&& b.last_failure_timestamp_ms is None ==> r.last_failure_timestamp_ms
        == a.last_failure_timestamp_ms
    &&& a.last_failure_timestamp_ms is Some && b.last_failure_timestamp_ms is None
        ==> r.last_failure_class == a.last_failure_class
    &&& a.last_failure_timestamp_ms is None && b.last_failure_timestamp_ms is Some
        ==> r.last_failure_timestamp_ms == b.last_failure_timestamp_ms && r.last_failure_class
        == b.last_failure_class
    &&& a.last_failure_timestamp_ms is Some && b.last_failure_timestamp_ms is Some ==> {
        let (s, t) = (a.last_failure_timestamp_ms->0, b.last_failure_timestamp_ms->0);
        &&& s <= t ==> r.last_failure_timestamp_ms == Some(t) && r.last_failure_class
            == b.last_failure_class
        &&& s > t ==> r.last_failure_timestamp_ms == Some(s) && r.last_failure_class
            == a.last_failure_class
    }
}

/// The record of a key over both environments is that of the two.
pub proof fn law_both_environments_are_one_record(
    db: &DurationDb,
    key: u64,
    r: Option<FlakeRecord>,
)
    requires
        call_ensures(DurationDb::get_flake_record, (db, None, key), r),
        db@.local.flake.contains_key(key),
        db@.remote.flake.contains_key(key),
    ensures
        r matches Some(both) && adds_up(db@.local.flake[key], db@.remote.flake[key], both),
{
}

/// The record of one environment is what is on record there.
pub proof fn law_one_environment_is_its_own_record(
    db: &DurationDb,
    env: Environment,
    key: u64,
    r: Option<FlakeRecord>,
)
    requires
        call_ensures(DurationDb::get_flake_record, (db, Some(env), key), r),
    ensures
        ({
            let flake = if env is Local {
                db@.local.flake
            } else {
                db@.remote.flake
            };
            &&& r is Some <==> flake.contains_key(key)
            &&& r is Some ==> r->0.runs == flake[key].runs && r->0.failures == flake[key].failures
        }),
{
}

/// A failure is the last one unless one at a later time is on record already.
pub proof fn law_the_latest_failure_is_remembered(
    db: &mut DurationDb,
    env: Environment,
    key: u64,
    id: &TestIdentity,
    duration: Duration,
    failed: bool,
    class: Option<FailureClass>,
    at: u64,
)
    requires
        call_ensures(DurationDb::record_by_key, (db, env, key, id, duration, failed, class, at), ()),
    ensures
        ({
            let (was, is) = if env is Local {
                (old(db)@.local.flake, final(db)@.local.flake)
            } else {
                (old(db)@.remote.flake, final(db)@.remote.flake)
            };
            let last = if was.contains_key(key) {
                was[key].last_failure_timestamp_ms
            } else {
                None
            };
            let class_then = if was.contains_key(key) {
                was[key].last_failure_class
            } else {
                None
            };
            let now = is[key];
            &&& !failed ==> now.last_failure_timestamp_ms == last && now.last_failure_class
                == class_then
            &&& failed && (last is None || last->0 <= at) ==> now.last_failure_timestamp_ms == Some(
                at,
            ) && now.last_failure_class == class
            &&& failed && last is Some && last->0 > at ==> now.last_failure_timestamp_ms == last
                && now.last_failure_class == class_then
        }),
{
}

/// Two stores together: every record of a key is that of both, every test has the newest
/// samples of both, and a name that was known stays.
pub proof fn law_combined_stores_hold_both(
    db: &mut DurationDb,
    other: DurationDb,
    key: u64,
    env: Environment,
)
    requires
        call_ensures(DurationDb::combine, (db, other), ()),
    ensures
        ({
            let (a, b, r) = if env is Local {
                (old(db)@.local, other@.local, final(db)@.local)
            } else {
                (old(db)@.remote, other@.remote, final(db)@.remote)
            };
            &&& r.flake.contains_key(key) <==> a.flake.contains_key(key) || b.flake.contains_key(
                key,
            )
            &&& a.flake.contains_key(key) && b.flake.contains_key(key) ==> adds_up(
                a.flake[key],
                b.flake[key],
                r.flake[key],
            )
            &&& a.flake.contains_key(key) && !b.flake.contains_key(key) ==> r.flake[key]
                == a.flake[key]
            &&& !a.flake.contains_key(key) && b.flake.contains_key(key) ==> r.flake[key].runs
                == b.flake[key].runs && r.flake[key].failures == b.flake[key].failures
            &&& r.perf.contains_key(key) <==> a.perf.contains_key(key) || b.perf.contains_key(key)
            &&& a.perf.contains_key(key) && b.perf.contains_key(key) ==> are_newest(
                a.perf[key] + b.perf[key],
                r.perf[key],
            )
            &&& a.perf.contains_key(key) && !b.perf.contains_key(key) ==> r.perf[key] == a.perf[key]
            &&& !a.perf.contains_key(key) && b.perf.contains_key(key) ==> are_newest(
                b.perf[key],
                r.perf[key],
            )
            &&& final(db)@.names.contains_key(key) <==> old(db)@.names.contains_key(key)
                || other@.names.contains_key(key)
            &&& old(db)@.names.contains_key(key) ==> final(db)@.names[key] == old(db)@.names[key]
            &&& !old(db)@.names.contains_key(key) && other@.names.contains_key(key)
                ==> final(db)@.names[key] == other@.names[key]
            &&& final(db)@.new_perf == old(db)@.new_perf + other@.new_perf
            &&& final(db)@.new_flake == old(db)@.new_flake + other@.new_flake
        }),
{
    let (a, b) = if env is Local {
        (old(db)@.local.perf, other@.local.perf)
    } else {
        (old(db)@.remote.perf, other@.remote.perf)
    };
    lemma_newest(a[key] + b[key]);
    lemma_newest(b[key]);
    assert(Seq::<DurationSample>::empty() + b[key] =~= b[key]);
}

/// A fresh store knows nothing.
pub proof fn law_fresh_stores_know_nothing(r: DurationDb, key: u64)
    requires
        call_ensures(DurationDb::ephemeral, (), r),
    ensures
        !r@.local.perf.contains_key(key),
        !r@.remote.perf.contains_key(key),
        !r@.local.flake.contains_key(key),
        !r@.remote.flake.contains_key(key),
        !r@.names.contains_key(key),
        r@.new_perf.len() == 0,
        r@.new_flake.len() == 0,
        r@.new_names.len() == 0,
{
}

/// Logs are folded once one of them is larger than half a mebibyte.
pub proof fn law_logs_are_folded_above_half_a_mebibyte(perf: u64, flake: u64, names: u64, r: bool)
    requires
        call_ensures(needs_compaction, (perf, flake, names), r),
    ensures
        r <==> perf > 524_288 || flake > 524_288 || names > 524_288,
{
}

/// A lock that is held is waited for, two hundred times at most; one older than ten seconds
/// is stale and removed. Without the lock the store goes on.
pub proof fn law_stale_locks_are_removed(attempts: u32, event: LockEvent, r: LockAction)
    requires
        call_ensures(lock_step, (attempts, event), r),
    ensures
        r is Try <==> event is Ready && attempts < 200,
        r is Proceed <==> event is Created,
        r is GiveUp <==> event is Failed || (event is Ready && attempts >= 200),
        r is RemoveAndWait <==> (event matches LockEvent::Held { age: Some(age) }
            && age.total_nanos() > 10_000_000_000),
        r is Wait <==> (event matches LockEvent::Held { age } && (age is None
            || age->0.total_nanos() <= 10_000_000_000)),
{
}

// ---------------------------------------------------------------------------
// Listing the store.

/// The store is asked for by `db` before the first `--`.
pub proof fn law_the_store_is_asked_for_by_name(argv: &[String], r: bool)
    requires
        call_ensures(asks_for_db, (argv,), r),
    ensures
        r <==> exists|i: int|
            0 <= i < argv@.len() && (#[trigger] argv@[i])@ == "db"@ && forall|k: int|
                0 <= k < i ==> (#[trigger] argv@[k])@ != "--"@,
{
}

/// Whether a text holds another one, if there is another.
pub open spec fn has_part(s: Seq<char>, part: Option<String>) -> bool {
    part matches Some(p) ==> exists|k: int|
        0 <= k <= s.len() - p@.len() && #[trigger] s.subrange(k, k + p@.len()) == p@
}

proof fn lemma_find(s: Seq<char>, part: Seq<char>, i: int)
    requires
        0 <= i <= s.len(),
    ensures
        text::find_text(s, part, i) is Some <==> exists|k: int|
            i <= k <= s.len() - part.len() && #[trigger] s.subrange(k, k + part.len()) == part,
    decreases s.len() - i,
{
    if i + part.len() <= s.len() {
        if text::occurs_at(s, part, i) {
            assert(s.subrange(i, i + part.len()) =~= part);
        } else {
            if s.subrange(i, i + part.len()) == part {
                assert(text::occurs_at(s, part, i));
            }
            if i < s.len() {
                lemma_find(s, part, i + 1);
            }
        }
    }
}

/// Whether a row shows what the store holds under its key.
pub open spec fn shows(db: DurationDb, env: Option<Environment>, row: ListRow) -> bool {
    let key = row.key;
    &&& db@.names.contains_key(key) ==> row.target@ == db@.names[key].target && row.name@
        == db@.names[key].name && row.variant@ == db@.names[key].variant
    &&& !db@.names.contains_key(key) ==> row.target@ == "<unknown:0x"@ + text::short_hex(
        key as nat,
    ) + ">"@ && row.name@.len() == 0 && row.variant@.len() == 0
    &&& (row.p50_ms is Some) == (row.p95_ms is Some)
    &&& row.p50_ms is None ==> recorded(db, env, key).len() == 0
    &&& row.p50_ms is Some ==> is_estimate(
        recorded(db, env, key),
        DurationEstimate::Measured { p50_ms: row.p50_ms->0, p95_ms: row.p95_ms->0 },
    )
    &&& env is Some ==> {
        let flake = if env->0 is Local {
            db@.local.flake
        } else {
            db@.remote.flake
        };
        &&& flake.contains_key(key) ==> row.runs == flake[key].runs && row.failures
            == flake[key].failures
        &&& !flake.contains_key(key) ==> row.runs == 0 && row.failures == 0
    }
    &&& env is None ==> {
        let runs = |flake: Map<u64, FlakeRecord>|
            if flake.contains_key(key) {
                flake[key].runs
            } else {
                0
            };
        let failures = |flake: Map<u64, FlakeRecord>|
            if flake.contains_key(key) {
                flake[key].failures
            } else {
                0
            };
        &&& row.runs == counted_up(runs(db@.local.flake), runs(db@.remote.flake))
        &&& row.failures == counted_up(failures(db@.local.flake), failures(db@.remote.flake))
    }
}

/// What a test is called in a listing: its target and its name.
pub open spec fn called(db: DurationDb, key: u64) -> (Seq<char>, Seq<char>) {
    if db@.names.contains_key(key) {
        (db@.names[key].target, db@.names[key].name)
    } else {
        ("<unknown:0x"@ + text::short_hex(key as nat) + ">"@, Seq::empty())
    }
}

/// Whether there is anything in the store under a key.
pub open spec fn on_record(db: DurationDb, key: u64) -> bool {
    db@.local.perf.contains_key(key) || db@.remote.perf.contains_key(key)
        || db@.local.flake.contains_key(key) || db@.remote.flake.contains_key(key)
}

/// A listing has one row for each key on record whose target and name hold the texts that
/// are asked for, by ascending key, and each row shows what the store holds.
pub proof fn law_listings_show_the_store(
    db: &DurationDb,
    env: Option<Environment>,
    target: &Option<String>,
    name: &Option<String>,
    r: Vec<ListRow>,
    key: u64,
)
    requires
        call_ensures(list_rows, (db, env, target, name), r),
    ensures
        forall|i: int, j: int| 0 <= i < j < r@.len() ==> (#[trigger] r@[i]).key < (
        #[trigger] r@[j]).key,
        forall|i: int| 0 <= i < r@.len() ==> shows(*db, env, #[trigger] r@[i]),
        (exists|i: int| 0 <= i < r@.len() && (#[trigger] r@[i]).key == key) <==> on_record(
            *db,
            key,
        ) && has_part(called(*db, key).0, *target) && has_part(called(*db, key).1, *name),
{
    let keys = choose|keys: Seq<u64>|
        db_cli::are_all_keys(db@, keys) && db_cli::row_views(r@) == #[trigger] db_cli::listed_rows(
            db@,
            env,
            db_cli::seen(*target),
            db_cli::seen(*name),
            keys,
            keys.len(),
        );
    let rows = db_cli::row_views(r@);
    lemma_listed(*db, env, *target, *name, keys, keys.len());
    assert forall|i: int| 0 <= i < r@.len() implies shows(*db, env, #[trigger] r@[i]) by {
        assert(rows[i] == r@[i]@);
        lemma_estimate(db@.samples(env, r@[i].key));
        assert(recorded(*db, env, r@[i].key) =~= db@.samples(env, r@[i].key));
    }
    assert forall|i: int, j: int| 0 <= i < j < r@.len() implies (#[trigger] r@[i]).key < (
    #[trigger] r@[j]).key by {
        assert(rows[i] == r@[i]@ && rows[j] == r@[j]@);
    }
    assert(db@.has_key(key) <==> keys.contains(key));
    if exists|i: int| 0 <= i < r@.len() && (#[trigger] r@[i]).key == key {
        let i = choose|i: int| 0 <= i < r@.len() && (#[trigger] r@[i]).key == key;
        assert(rows[i].key == key);
    }
    if on_record(*db, key) && has_part(called(*db, key).0, *target) && has_part(
        called(*db, key).1,
        *name,
    ) {
        let k = choose|k: int| 0 <= k < keys.len() && keys[k] == key;
        let i = choose|i: int| 0 <= i < rows.len() && (#[trigger] rows[i]).key == keys[k];
        assert(r@[i].key == key);
    }
}

proof fn lemma_listed(
    db: DurationDb,
    env: Option<Environment>,
    target: Option<String>,
    name: Option<String>,
    keys: Seq<u64>,
    n: nat,
)
    requires
        n <= keys.len(),
        forall|i: int, j: int| 0 <= i < j < keys.len() ==> keys[i] < keys[j],
    ensures
        ({
            let rows = db_cli::listed_rows(
                db@,
                env,
                db_cli::seen(target),
                db_cli::seen(name),
                keys,
                n,
            );
            &&& forall|i: int|
                0 <= i < rows.len() ==> (#[trigger] rows[i]) == db_cli::row_of(
                    db@,
                    env,
                    rows[i].key,
                )
            &&& forall|i: int|
                0 <= i < rows.len() ==> (exists|k: int|
                    0 <= k < n && keys[k] == (#[trigger] rows[i]).key)
            &&& forall|i: int|
                0 <= i < rows.len() ==> has_part(
                    called(db, (#[trigger] rows[i]).key).0,
                    target,
                ) && has_part(called(db, rows[i].key).1, name)
            &&& forall|i: int, j: int|
                0 <= i < j < rows.len() ==> (#[trigger] rows[i]).key < (#[trigger] rows[j]).key
            &&& forall|k: int|
                0 <= k < n && has_part(called(db, #[trigger] keys[k]).0, target) && has_part(
                    called(db, keys[k]).1,
                    name,
                ) ==> has_row(rows, keys[k])
        }),
    decreases n,
{
    if n > 0 {
        let (t, m) = (db_cli::seen(target), db_cli::seen(name));
        lemma_listed(db, env, target, name, keys, (n - 1) as nat);
        let before = db_cli::listed_rows(db@, env, t, m, keys, (n - 1) as nat);
        let rows = db_cli::listed_rows(db@, env, t, m, keys, n);
        let key = keys[n - 1];
        lemma_part(called(db, key).0, target);
        lemma_part(called(db, key).1, name);
        assert forall|i: int| 0 <= i < rows.len() implies (exists|k: int|
            0 <= k < n && keys[k] == (#[trigger] rows[i]).key) by {
            if i < before.len() {
                assert(rows[i] == before[i]);
                let k = choose|k: int| 0 <= k < n - 1 && keys[k] == before[i].key;
                assert(keys[k] == rows[i].key);
            } else {
                assert(keys[n - 1] == rows[i].key);
            }
        }
        assert forall|i: int, j: int| 0 <= i < j < rows.len() implies (#[trigger] rows[i]).key < (
        #[trigger] rows[j]).key by {
            assert(rows[i] == before[i]);
            let k = choose|k: int| 0 <= k < n - 1 && keys[k] == before[i].key;
            if j < before.len() {
                assert(rows[j] == before[j]);
            } else {
                assert(keys[k] < keys[n - 1]);
            }
        }
        assert forall|k: int|
            0 <= k < n && has_part(called(db, #[trigger] keys[k]).0, target) && has_part(
                called(db, keys[k]).1,
                name,
            ) implies has_row(rows, keys[k]) by {
            if k < n - 1 {
                assert(has_row(before, keys[k]));
                let i = choose|i: int| 0 <= i < before.len() && (#[trigger] before[i]).key == keys[k];
                assert(rows[i].key == keys[k]);
            } else {
                assert(rows[rows.len() - 1].key == keys[k]);
            }
        }
    }
}

/// Whether rows have one of a key.
pub open spec fn has_row(rows: Seq<db_cli::RowView>, key: u64) -> bool {
    exists|i: int| 0 <= i < rows.len() && (#[trigger] rows[i]).key == key
}

proof fn lemma_part(s: Seq<char>, part: Option<String>)
    ensures
        db_cli::holds(s, db_cli::seen(part)) <==> has_part(s, part),
{
    if let Some(p) = part {
        lemma_find(s, p@, 0);
    }
}

/// The sum of some counts.
pub open spec fn sum(counts: Seq<nat>) -> nat
    decreases counts.len(),
{
    if counts.len() == 0 {
        0
    } else {
        counts[0] + sum(counts.skip(1))
    }
}

proof fn lemma_sum_push(counts: Seq<nat>, last: nat)
    ensures
        sum(counts.push(last)) == sum(counts) + last,
    decreases counts.len(),
{
    let all = counts.push(last);
    if counts.len() == 0 {
        assert(all.skip(1) =~= Seq::<nat>::empty());
        assert(sum(all.skip(1)) == 0);
        assert(sum(counts) == 0);
    } else {
        assert(all.skip(1) =~= counts.skip(1).push(last));
        lemma_sum_push(counts.skip(1), last);
    }
}

/// The counts of a key over both environments.
pub open spec fn count_of(db: DurationDb, key: u64, failures: bool) -> nat {
    let one = |flake: Map<u64, FlakeRecord>|
        if flake.contains_key(key) {
            if failures {
                flake[key].failures
            } else {
                flake[key].runs
            }
        } else {
            0
        };
    counted_up(one(db@.local.flake), one(db@.remote.flake)) as nat
}

/// The statistics count every key on record once, the named ones among them, and all runs
/// and failures of all keys.
pub proof fn law_statistics_count_every_key_once(db: &DurationDb, r: DbStats)
    requires
        call_ensures(db_stats, (db,), r),
    ensures
        exists|keys: Seq<u64>|
            {
                &&& #[trigger] keys.no_duplicates()
                &&& forall|key: u64| #[trigger] keys.contains(key) <==> on_record(*db, key)
                &&& r.keys == keys.len()
                &&& r.named == keys.filter(|key: u64| db@.names.contains_key(key)).len()
                &&& r.runs == sum(Seq::new(keys.len(), |i: int| count_of(*db, keys[i], false)))
                &&& r.failures == sum(Seq::new(keys.len(), |i: int| count_of(*db, keys[i], true)))
            },
{
    let keys = choose|keys: Seq<u64>|
        db_cli::are_all_keys(db@, keys) && #[trigger] db_cli::are_stats(db@, keys, r);
    lemma_stats(*db, keys, keys.len());
    assert(keys.take(keys.len() as int) =~= keys);
    assert forall|key: u64| #[trigger] keys.contains(key) <==> on_record(*db, key) by {
        assert(db@.has_key(key) <==> keys.contains(key));
    }
    assert(keys.no_duplicates());
}

proof fn lemma_stats(db: DurationDb, keys: Seq<u64>, n: nat)
    requires
        n <= keys.len(),
    ensures
        db_cli::named_keys(db@, keys, n) == keys.take(n as int).filter(
            |key: u64| db@.names.contains_key(key),
        ).len(),
        db_cli::total_runs(db@, keys, n) == sum(
            Seq::new(n, |i: int| count_of(db, keys[i], false)),
        ),
        db_cli::total_failures(db@, keys, n) == sum(
            Seq::new(n, |i: int| count_of(db, keys[i], true)),
        ),
    decreases n,
{
    reveal(Seq::filter);
    let runs = Seq::new(n, |i: int| count_of(db, keys[i], false));
    let failures = Seq::new(n, |i: int| count_of(db, keys[i], true));
    if n == 0 {
        assert(runs =~= Seq::<nat>::empty());
        assert(failures =~= Seq::<nat>::empty());
    } else {
        lemma_stats(db, keys, (n - 1) as nat);
        assert(keys.take(n as int).drop_last() =~= keys.take(n - 1));
        let fewer_runs = Seq::new((n - 1) as nat, |i: int| count_of(db, keys[i], false));
        let fewer_failures = Seq::new((n - 1) as nat, |i: int| count_of(db, keys[i], true));
        assert(runs =~= fewer_runs.push(count_of(db, keys[n - 1], false)));
        assert(failures =~= fewer_failures.push(count_of(db, keys[n - 1], true)));
        lemma_sum_push(fewer_runs, count_of(db, keys[n - 1], false));
        lemma_sum_push(fewer_failures, count_of(db, keys[n - 1], true));
    }
}

/// How the statistics are shown.
pub proof fn law_statistics_are_told(place: &str, size: &str, stats: &DbStats, r: String)
    requires
        call_ensures(stats_text, (place, size, stats), r),
    ensures
        r@ == "Database directory: "@ + place@ + "\nTotal size on disk:  "@ + size@
            + "\nTotal distinct keys: "@ + text::decimal(stats.keys as nat)
            + "\nNamed test records:  "@ + text::decimal(stats.named as nat)
            + "\nTotal test runs:     "@ + text::decimal(stats.runs as nat)
            + "\nTotal failures:      "@ + text::decimal(stats.failures as nat) + "\n"@,
{
}

/// A command that lists is refused for an environment or an order that there is not; else it
/// lists in the order that it names.
pub proof fn law_listings_are_ordered_as_asked(
    cli: &DbCli,
    db: &DurationDb,
    r: Result<DbReport, String>,
)
    requires
        call_ensures(run_db_command, (cli, db), r),
    ensures
        cli.command is Stats ==> r is Ok && r->Ok_0 is Stats,
        cli.command matches DbCommand::List { sort, env, target, name, format } ==> {
            let known = sort@ == "target"@ || sort@ == "name"@ || sort@ == "p50"@ || sort@ == "p95"@
                || sort@ == "runs"@ || sort@ == "failures"@ || sort@ == "flake-rate"@;
            let place = env matches Some(e) ==> e@ == "local"@ || e@ == "remote"@;
            &&& r is Ok <==> known && place
            &&& !place ==> r is Err && r->Err_0@ == "Invalid env '"@ + env->0@
                + "': expected 'local' or 'remote'"@
            &&& place && !known ==> r is Err && r->Err_0@ == "Invalid sort option '"@ + sort@ + "'"@
            &&& r matches Ok(DbReport::Rows { rows, sort: key, json }) ==> {
                &&& json == (format@ == "json"@)
                &&& key is Target <==> sort@ == "target"@
                &&& key is Name <==> sort@ == "name"@
                &&& key is P50 <==> sort@ == "p50"@
                &&& key is P95 <==> sort@ == "p95"@
                &&& key is Runs <==> sort@ == "runs"@
                &&& key is Failures <==> sort@ == "failures"@
                &&& key is FlakeRate <==> sort@ == "flake-rate"@
            }
            &&& r is Ok ==> r->Ok_0 is Rows
        },
{
    reveal_strlit("target");
    reveal_strlit("name");
    reveal_strlit("p50");
    reveal_strlit("p95");
    reveal_strlit("runs");
    reveal_strlit("failures");
    reveal_strlit("flake-rate");
    assert("name"@[0] == 'n' && "runs"@[0] == 'r' && "p50"@[1] == '5' && "p95"@[1] == '9');
    assert("target"@.len() == 6 && "name"@.len() == 4 && "p50"@.len() == 3 && "p95"@.len() == 3
        && "runs"@.len() == 4 && "failures"@.len() == 8 && "flake-rate"@.len() == 10);
}

/// A number that is not there counts as zero.
pub open spec fn zero_without(n: Option<u64>) -> u64 {
    match n {
        Some(n) => n,
        None => 0,
    }
}

/// Sorted rows are the rows, each once: by name in the order of the texts, by number with the
/// largest first. Rows that are alike keep their order.
pub proof fn law_rows_are_sorted_as_asked(
    sort: SortKey,
    rows: Vec<RatedRow>,
    r: Vec<RatedRow>,
    i: int,
    j: int,
)
    requires
        call_ensures(sort_rows, (sort, rows), r),
        0 <= i < j < r@.len(),
    ensures
        r@.len() == rows@.len(),
        ({
            let (a, b) = (r@[i].row, r@[j].row);
            &&& sort is Target ==> !text::text_lt(b.target@, a.target@) && (a.target@ == b.target@
                ==> !text::text_lt(b.name@, a.name@))
            &&& sort is Name ==> !text::text_lt(b.name@, a.name@) && (a.name@ == b.name@
                ==> !text::text_lt(b.target@, a.target@))
            &&& sort is P50 ==> zero_without(a.p50_ms) >= zero_without(b.p50_ms)
            &&& sort is P95 ==> zero_without(a.p95_ms) >= zero_without(b.p95_ms)
            &&& sort is Runs ==> a.runs >= b.runs
            &&& sort is Failures ==> a.failures >= b.failures
            &&& sort is FlakeRate ==> r@[i].rate >= r@[j].rate
        }),
        exists|p: int, q: int|
            0 <= p < rows@.len() && 0 <= q < rows@.len() && p != q && r@[i] == #[trigger] rows@[p]
                && r@[j] == #[trigger] rows@[q],
{
    let places = choose|places: Seq<int>| #[trigger]
        db_cli::is_arrangement(sort, rows@, places) && r@.len() == rows@.len() && forall|i: int|
            0 <= i < r@.len() ==> #[trigger] r@[i] == rows@[places[i]];
    let (p, q) = (places[i], places[j]);
    assert(db_cli::goes_before(sort, rows@, p, q));
    let (a, b) = (rows@[p].row, rows@[q].row);
    assert(r@[i] == rows@[p] && r@[j] == rows@[q]);
    text::lemma_text_lt_irreflexive(a.target@);
    text::lemma_text_lt_irreflexive(a.name@);
    if text::text_lt(b.target@, a.target@) && text::text_lt(a.target@, b.target@) {
        text::lemma_text_lt_transitive(a.target@, b.target@, a.target@);
    }
    if text::text_lt(b.name@, a.name@) && text::text_lt(a.name@, b.name@) {
        text::lemma_text_lt_transitive(a.name@, b.name@, a.name@);
    }
}

/// What a table shows of a row: the texts of the test, the numbers where they are known, and
/// the rate.
pub open spec fn shown_cells(r: RatedRow) -> Seq<Seq<char>> {
    seq![
        r.row.target@,
        r.row.name@,
        r.row.variant@,
        (if r.row.p50_ms is Some {
            text::decimal(r.row.p50_ms->0 as nat)
        } else {
            "N/A"@
        }),
        (if r.row.p95_ms is Some {
            text::decimal(r.row.p95_ms->0 as nat)
        } else {
            "N/A"@
        }),
        text::decimal(r.row.runs as nat),
        text::decimal(r.row.failures as nat),
        r.rate_text@,
    ]
}

/// The heads of a table.
pub open spec fn heads() -> Seq<Seq<char>> {
    seq![
        "Target"@,
        "Test Name"@,
        "Variant"@,
        "p50 (ms)"@,
        "p95 (ms)"@,
        "Runs"@,
        "Failures"@,
        "Flake %"@,
    ]
}

/// A cell filled up with blanks: texts on the left, numbers on the right.
pub open spec fn filled(cell: Seq<char>, width: nat, right: bool) -> Seq<char> {
    let blanks = Seq::new(
        (if width > cell.len() {
            width - cell.len()
        } else {
            0
        }) as nat,
        |i: int| ' ',
    );
    if right {
        blanks + cell
    } else {
        cell + blanks
    }
}

/// A line of a table: its eight cells, each with a blank behind it.
pub open spec fn shown_line(cells: Seq<Seq<char>>, widths: Seq<nat>) -> Seq<char> {
    filled(cells[0], widths[0], false) + " "@ + filled(cells[1], widths[1], false) + " "@ + filled(
        cells[2],
        widths[2],
        false,
    ) + " "@ + filled(cells[3], widths[3], true) + " "@ + filled(cells[4], widths[4], true) + " "@
        + filled(cells[5], widths[5], true) + " "@ + filled(cells[6], widths[6], true) + " "@
        + filled(cells[7], widths[7], true) + " "@ + "\n"@
}

/// The lines of some rows.
pub open spec fn shown_rows(rows: Seq<RatedRow>, widths: Seq<nat>) -> Seq<char>
    decreases rows.len(),
{
    if rows.len() == 0 {
        Seq::empty()
    } else {
        shown_line(shown_cells(rows[0]), widths) + shown_rows(rows.skip(1), widths)
    }
}

/// Whether every column is as wide as its head and each of its known cells, in bytes.
pub open spec fn wide_enough(rows: Seq<RatedRow>, widths: Seq<nat>) -> bool {
    &&& widths.len() == 8
    &&& forall|c: int|
        0 <= c < 8 ==> vstd::utf8::encode_utf8(#[trigger] heads()[c]).len() <= widths[c]
    &&& forall|i: int, c: int|
        0 <= i < rows.len() && 0 <= c < 8 && !((c == 3 && rows[i].row.p50_ms is None) || (c == 4
            && rows[i].row.p95_ms is None)) ==> vstd::utf8::encode_utf8(
            #[trigger] shown_cells(rows[i])[c],
        ).len() <= widths[c]
}

proof fn lemma_line_of(cells: Seq<Seq<char>>, widths: Seq<nat>)
    requires
        cells.len() == 8,
        widths.len() == 8,
    ensures
        db_cli::table_line(cells, widths) == shown_line(cells, widths),
{
    reveal_with_fuel(db_cli::line_upto, 9);
    assert forall|c: int| 0 <= c < 8 implies #[trigger] db_cli::padded(cells[c], widths[c], c)
        =~= filled(cells[c], widths[c], c >= 3) by {}
    assert(db_cli::padded(cells[0], widths[0], 0) == filled(cells[0], widths[0], false));
    assert(db_cli::padded(cells[1], widths[1], 1) == filled(cells[1], widths[1], false));
    assert(db_cli::padded(cells[2], widths[2], 2) == filled(cells[2], widths[2], false));
    assert(db_cli::padded(cells[3], widths[3], 3) == filled(cells[3], widths[3], true));
    assert(db_cli::padded(cells[4], widths[4], 4) == filled(cells[4], widths[4], true));
    assert(db_cli::padded(cells[5], widths[5], 5) == filled(cells[5], widths[5], true));
    assert(db_cli::padded(cells[6], widths[6], 6) == filled(cells[6], widths[6], true));
    assert(db_cli::padded(cells[7], widths[7], 7) == filled(cells[7], widths[7], true));
    assert(db_cli::table_line(cells, widths) =~= shown_line(cells, widths));
}

proof fn lemma_rows_push(rows: Seq<RatedRow>, last: RatedRow, widths: Seq<nat>)
    ensures
        shown_rows(rows.push(last), widths) == shown_rows(rows, widths) + shown_line(
            shown_cells(last),
            widths,
        ),
    decreases rows.len(),
{
    let all = rows.push(last);
    if rows.len() == 0 {
        assert(all.skip(1) =~= Seq::<RatedRow>::empty());
        assert(shown_rows(all.skip(1), widths) =~= Seq::<char>::empty());
    } else {
        assert(all.skip(1) =~= rows.skip(1).push(last));
        lemma_rows_push(rows.skip(1), last, widths);
    }
    assert(shown_rows(all, widths) =~= shown_rows(rows, widths) + shown_line(
        shown_cells(last),
        widths,
    ));
}

proof fn lemma_rows(rows: Seq<RatedRow>, widths: Seq<nat>, n: nat)
    requires
        n <= rows.len(),
        widths.len() == 8,
    ensures
        db_cli::table_lines(rows, widths, n) == shown_rows(rows.take(n as int), widths),
    decreases n,
{
    if n > 0 {
        lemma_rows(rows, widths, (n - 1) as nat);
        assert(rows.take(n as int) =~= rows.take(n - 1).push(rows[n - 1]));
        lemma_rows_push(rows.take(n - 1), rows[n - 1], widths);
        assert(db_cli::cells(rows[n - 1]) =~= shown_cells(rows[n - 1]));
        lemma_line_of(shown_cells(rows[n - 1]), widths);
    }
}

proof fn lemma_column(rows: Seq<RatedRow>, c: int, n: nat)
    requires
        n <= rows.len(),
        0 <= c < 8,
    ensures
        vstd::utf8::encode_utf8(heads()[c]).len() <= db_cli::column_width(rows, c, n),
        forall|i: int|
            0 <= i < n ==> db_cli::cell_width(#[trigger] rows[i], c) <= db_cli::column_width(
                rows,
                c,
                n,
            ),
    decreases n,
{
    if n > 0 {
        lemma_column(rows, c, (n - 1) as nat);
    }
}

/// A table has a line of heads, a line of dashes and a line for every row, in order, with
/// every column wide enough for its cells.
pub proof fn law_tables_show_every_row(rows: &Vec<RatedRow>, r: String)
    requires
        call_ensures(table_text, (rows,), r),
        rows@.len() > 0,
    ensures
        exists|widths: Seq<nat>|
            #![trigger shown_rows(rows@, widths)]
            {
                &&& wide_enough(rows@, widths)
                &&& r@ == shown_line(heads(), widths) + shown_line(
                    Seq::new(8, |c: int| Seq::new(widths[c], |i: int| '-')),
                    widths,
                ) + shown_rows(rows@, widths)
            },
{
    let widths = db_cli::table_widths(rows@);
    lemma_line_of(heads(), widths);
    let dashes = Seq::new(8, |c: int| Seq::new(widths[c], |i: int| '-'));
    assert(dashes =~= Seq::new(
        db_cli::COLUMNS as nat,
        |c: int| db_cli::repeated('-', widths[c]),
    )) by {
        assert forall|c: int| 0 <= c < 8 implies #[trigger] dashes[c] == db_cli::repeated(
            '-',
            widths[c],
        ) by {
            assert(dashes[c] =~= db_cli::repeated('-', widths[c]));
        }
    }
    lemma_line_of(dashes, widths);
    lemma_rows(rows@, widths, rows@.len());
    assert(rows@.take(rows@.len() as int) =~= rows@);
    assert forall|c: int| 0 <= c < 8 implies vstd::utf8::encode_utf8(#[trigger] heads()[c]).len()
        <= widths[c] by {
        lemma_column(rows@, c, rows@.len());
    }
    assert forall|i: int, c: int|
        0 <= i < rows@.len() && 0 <= c < 8 && !((c == 3 && rows@[i].row.p50_ms is None) || (c == 4
            && rows@[i].row.p95_ms is None)) implies vstd::utf8::encode_utf8(
        #[trigger] shown_cells(rows@[i])[c],
    ).len() <= widths[c] by {
        lemma_column(rows@, c, rows@.len());
        assert(db_cli::cells(rows@[i]) =~= shown_cells(rows@[i]));
        assert(db_cli::cell_width(rows@[i], c) <= widths[c]);
    }
    assert(heads() =~= db_cli::titles());
}

/// An empty table says so.
pub proof fn law_empty_tables_say_so(rows: &Vec<RatedRow>, r: String)
    requires
        call_ensures(table_text, (rows,), r),
    ensures
        rows@.len() == 0 ==> r@ == "No records found.\n"@,
{
}

// ---------------------------------------------------------------------------
// The report for CI.

/// What the report calls an outcome: whatever went wrong outside the test is an
/// infrastructure error.
pub proof fn law_outcomes_have_their_names(status: TestVerdict, r: &'static str)
    requires
        call_ensures(status_text, (status,), r),
    ensures
        status is Pass ==> r@ == "pass"@,
        status is Fail ==> r@ == "failure"@,
        status is Skip ==> r@ == "skip"@,
        status is Omitted ==> r@ == "omitted"@,
        status is Timeout ==> r@ == "timeout"@,
        status is Fatal || status is InfraFailure ==> r@ == "infrastructure_error"@,
{
}

/// The report tells of every test who it is, how it came out, and every attempt in order,
/// with where it ran and how long it took.
pub proof fn law_reports_tell_every_attempt(f: &FinishedTest, r: CiTest, i: int)
    requires
        call_ensures(ci_test, (f,), r),
    ensures
        r.target@ == f.test_id.target@,
        r.name@ == f.test_id.name@,
        r.repeat_index == f.run_id.repeat_index,
        r.status@ == "pass"@ <== f.status is Pass,
        r.status@ == "failure"@ <== f.status is Fail,
        r.status@ == "timeout"@ <== f.status is Timeout,
        r.status@ == "skip"@ <== f.status is Skip,
        r.status@ == "omitted"@ <== f.status is Omitted,
        r.status@ == "infrastructure_error"@ <== f.status is Fatal || f.status is InfraFailure,
        r.integrity@ == "complete"@ <== f.integrity is Complete,
        r.integrity@ == "missing_terminal_result"@ <== f.integrity is MissingTerminalResult,
        r.quarantined == f.quarantined,
        r.labels@ == f.labels@,
        r.max_memory_used_bytes == f.result.max_memory_used_bytes,
        r.action_duration is Some <==> f.result.duration is Some,
        f.result.duration matches Some(d) ==> {
            &&& d.seconds >= 0 ==> (r.action_duration->0).0 == d.seconds
            &&& d.seconds < 0 ==> (r.action_duration->0).0 == 0
            &&& d.nanos >= 0 ==> (r.action_duration->0).1 == d.nanos
            &&& d.nanos < 0 ==> (r.action_duration->0).1 == 0
        },
        r.attempts@.len() == f.attempt_history@.len(),
        0 <= i < r.attempts@.len() ==> {
            let (told, attempt) = (r.attempts@[i], f.attempt_history@[i]);
            &&& told.ordinal == i
            &&& told.case_duration == attempt.framework_case_duration
            &&& attempt.duration matches AttemptDuration::Measured(d) ==> told.action_duration
                == Some(d)
            &&& attempt.duration is Unmeasured ==> told.action_duration is None
            &&& attempt.execution is CacheServed ==> told.execution_disposition@ == "cache_served"@
                && told.executor_environment@ == "remote"@
            &&& attempt.execution is Unknown ==> told.execution_disposition@ == "unknown"@
                && told.executor_environment@ == "unknown"@
            &&& attempt.execution matches AttemptExecution::Physical(env)
                ==> told.execution_disposition@ == "physical"@ && (env is Local
                ==> told.executor_environment@ == "local"@) && (env is Remote
                ==> told.executor_environment@ == "remote"@)
            &&& attempt.status is Pass ==> told.outcome@ == "pass"@
            &&& attempt.status is Fail ==> told.outcome@ == "failure"@
            &&& attempt.status is Timeout ==> told.outcome@ == "timeout"@
            &&& attempt.status is Skip ==> told.outcome@ == "skip"@
            &&& attempt.status is Omitted ==> told.outcome@ == "omitted"@
            &&& attempt.status is Fatal || attempt.status is InfraFailure ==> told.outcome@
                == "infrastructure_error"@
        },
{
    if 0 <= i < r.attempts@.len() {
        assert(crate::scheduler::ci_report::is_ci_attempt(
            i,
            f.attempt_history@[i],
            r.attempts@[i],
        ));
    }
}

/// The time of a test is what the harness measured of the last attempt that came out as the
/// test did; without a complete result, or without such an attempt, there is none.
pub proof fn law_the_deciding_attempt_times_the_test(f: &FinishedTest, r: CiTest, i: int)
    requires
        call_ensures(ci_test, (f,), r),
    ensures
        f.integrity is MissingTerminalResult ==> r.case_duration is None,
        (forall|k: int|
            0 <= k < f.attempt_history@.len() ==> (#[trigger] f.attempt_history@[k]).status
                != f.status) ==> r.case_duration is None,
        f.integrity is Complete && 0 <= i < f.attempt_history@.len() && f.attempt_history@[i].status
            == f.status && (forall|k: int|
            i < k < f.attempt_history@.len() ==> (#[trigger] f.attempt_history@[k]).status
                != f.status) ==> r.case_duration == f.attempt_history@[i].framework_case_duration,
{
    let all = f.attempt_history@;
    lemma_deciding(all, f.status, all.len(), i);
}

proof fn lemma_deciding(
    attempts: Seq<crate::scheduler::observe::AttemptObservation>,
    status: TestVerdict,
    n: nat,
    i: int,
)
    requires
        n <= attempts.len(),
    ensures
        ({
            let r = crate::scheduler::ci_report::deciding_case_duration(attempts, status, n);
            &&& (forall|k: int| 0 <= k < n ==> (#[trigger] attempts[k]).status != status)
                ==> r is None
            &&& 0 <= i < n && attempts[i].status == status && (forall|k: int|
                i < k < n ==> (#[trigger] attempts[k]).status != status) ==> r
                == attempts[i].framework_case_duration
        }),
    decreases n,
{
    if n > 0 {
        lemma_deciding(attempts, status, (n - 1) as nat, i);
        assert(attempts[n - 1].status == status || attempts[n - 1].status != status);
    }
}

/// Only the first test has no comma before it.
pub proof fn law_tests_are_parted_by_commas(first: bool, r: &'static str)
    requires
        call_ensures(test_separator, (first,), r),
    ensures
        first ==> r@.len() == 0,
        !first ==> r@ == ","@,
{
    reveal_strlit("");
}

/// Files beside the report are hidden ones, told apart by process and number.
pub proof fn law_side_files_are_told_apart(
    name: Option<&str>,
    process: u32,
    sequence: u64,
    ending: &str,
    r: String,
)
    requires
        call_ensures(side_file_name, (name, process, sequence, ending), r),
    ensures
        r@ == "."@ + (if name is Some {
            name->0@
        } else {
            "quokka-ci-test-report"@
        }) + "."@ + text::decimal(process as nat) + "."@ + text::decimal(sequence as nat) + "."@
            + ending@,
{
}

// ---------------------------------------------------------------------------
// Putting the report into place.

/// A report is put into place step by step: after the step before it has succeeded, and the
/// destination is only touched once what stands there is saved.
pub proof fn law_reports_are_put_into_place_in_order(s: &mut Installation, result: StepResult)
    requires
        call_ensures(Installation::advance, (s, result), ()),
        result is Succeeded,
    ensures
        old(s).step is WriteFooter ==> final(s)@.step is SyncReport,
        old(s).step is SyncReport ==> final(s)@.step is InspectDestination,
        old(s).step is InspectDestination ==> final(s)@.step is CopyBackup,
        old(s).step is CopyBackup ==> final(s)@.step is SyncBackup,
        old(s).step is SyncBackup ==> final(s)@.step is Install && final(s)@.backup_created
            && final(s)@.previous_present,
        old(s).step is Install ==> final(s)@.step is SyncDirectory && final(s)@.installed,
        old(s).step is SyncDirectory && old(s).backup_created ==> final(s)@.step is RemoveBackup,
        old(s).step is SyncDirectory && !old(s).backup_created ==> final(s)@.step is Over,
        old(s).step is RemoveBackup ==> final(s)@.step is Over && !final(s)@.backup_created,
        old(s).step is RemoveInstalled && old(s).previous_present
            ==> final(s)@.step is RestoreBackup,
        old(s).step is RemoveInstalled && !old(s).previous_present
            ==> final(s)@.step is SyncRollback,
        old(s).step is RestoreBackup ==> final(s)@.step is SyncRestored
            && !final(s)@.backup_created,
        old(s).step is SyncRestored ==> final(s)@.step is SyncRollback,
        old(s).step is SyncRollback ==> final(s)@.step is RemoveTemporary && !final(s)@.installed,
        old(s).step is RemoveTemporary && old(s)@.rollback_error is None
            ==> final(s)@.step is DropBackup,
        old(s).step is RemoveTemporary && old(s)@.rollback_error is Some ==> final(s)@.step is Over,
        old(s).step is DropBackup ==> final(s)@.step is Over,
        final(s)@.error == old(s)@.error,
        final(s)@.rollback_error == old(s)@.rollback_error,
        final(s)@.cleanup_error == old(s)@.cleanup_error,
        final(s)@.destination == old(s)@.destination,
        final(s)@.temporary == old(s)@.temporary,
        final(s)@.backup == old(s)@.backup,
{
}

/// A step that fails on the way is told and the way back is taken: before the new report
/// stands at its destination only its own files are removed, afterwards it is removed again.
pub proof fn law_failed_steps_are_told_and_undone(s: &mut Installation, result: StepResult)
    requires
        call_ensures(Installation::advance, (s, result), ()),
        result is Failed,
    ensures
        ({
            let (before, after) = (old(s)@, final(s)@);
            let why = result->Failed_0@;
            let on_the_way = before.step is WriteFooter || before.step is SyncReport
                || before.step is InspectDestination || before.step is CopyBackup
                || before.step is SyncBackup || before.step is Install
                || before.step is SyncDirectory || before.step is RemoveBackup;
            &&& on_the_way ==> after.error is Some
            &&& before.step is WriteFooter ==> after.error == Some("write report footer: "@ + why)
            &&& before.step is SyncReport ==> after.error == Some("sync report: "@ + why)
            &&& before.step is Install ==> after.error == Some("rename report into place: "@ + why)
            &&& before.step is SyncDirectory ==> after.error == Some(
                "sync report directory: "@ + why,
            )
            &&& on_the_way && !before.installed ==> after.step is RemoveTemporary
            &&& on_the_way && before.installed && (before.backup_created
                || !before.previous_present) ==> after.step is RemoveInstalled
            &&& before.step is RemoveInstalled || before.step is RestoreBackup
                || before.step is SyncRestored || before.step is SyncRollback
                ==> after.rollback_error is Some && after.step is RemoveTemporary
            &&& before.step is RemoveTemporary || before.step is DropBackup
                ==> after.cleanup_error is Some
        }),
{
}

/// At the destination nothing may stand but a file: what is not there needs no backup, what
/// is no file is left alone.
pub proof fn law_only_files_are_replaced(s: &mut Installation, result: StepResult)
    requires
        call_ensures(Installation::advance, (s, result), ()),
        old(s).step is InspectDestination,
        !old(s).installed,
    ensures
        result is NotFound ==> final(s)@.step is Install && final(s)@.error == old(s)@.error
            && final(s)@.backup_created == old(s)@.backup_created,
        result is NotAFile ==> final(s)@.step is RemoveTemporary && final(s)@.error is Some,
{
}

/// A file that is to be removed may be gone already.
pub proof fn law_files_may_be_gone_already(s: &mut Installation, result: StepResult)
    requires
        call_ensures(Installation::advance, (s, result), ()),
        result is NotFound,
        old(s).step is RemoveTemporary || old(s).step is DropBackup || old(s).step is RemoveInstalled,
    ensures
        final(s)@.error == old(s)@.error,
        final(s)@.rollback_error == old(s)@.rollback_error,
        final(s)@.cleanup_error == old(s)@.cleanup_error,
{
}

/// An installation starts at the footer, a report that is given up at its files; neither has
/// touched anything yet.
pub proof fn law_installations_start_at_the_footer(
    destination: String,
    temporary: String,
    backup: String,
    begun: Installation,
    given_up: Installation,
)
    requires
        call_ensures(Installation::begin, (destination, temporary, backup), begun),
        call_ensures(Installation::discard, (destination, temporary, backup), given_up),
    ensures
        begun@.step is WriteFooter,
        given_up@.step is RemoveTemporary,
        begun@.destination == destination@ && begun@.temporary == temporary@ && begun@.backup
            == backup@,
        given_up@.destination == destination@ && given_up@.temporary == temporary@
            && given_up@.backup == backup@,
        !begun@.installed && !begun@.backup_created && !begun@.previous_present,
        !given_up@.installed && !given_up@.backup_created,
        begun@.error is None && begun@.rollback_error is None && begun@.cleanup_error is None,
{
}

/// A failure is told with what went wrong on the way back, where the previous report is
/// kept, and which files are left.
pub proof fn law_failures_tell_where_the_report_is_kept(s: &Installation, r: Option<String>)
    requires
        call_ensures(Installation::failure, (s,), r),
    ensures
        r is Some <==> s.error is Some,
        r is Some && s.rollback_error is None && s.cleanup_error is None ==> r->0@ == s.error->0@,
        r is Some && s.rollback_error is Some && s.cleanup_error is None ==> r->0@ == s.error->0@
            + "; rollback failed: "@ + s.rollback_error->0@ + "; recovery retained at "@ + (
        if s.backup_created {
            s.backup@
        } else {
            s.destination@
        }),
        r is Some && s.rollback_error is None && s.cleanup_error is Some ==> r->0@ == s.error->0@
            + "; cleanup failed: "@ + s.cleanup_error->0@,
{
}

// ---------------------------------------------------------------------------
// Spans of time.

/// Spans are made of seconds and milliseconds, and compared by their length.
pub proof fn law_spans_have_their_length(
    n: u64,
    secs: Duration,
    millis: Duration,
    shown: u128,
    other: Duration,
    most: bool,
)
    requires
        call_ensures(Duration::from_secs, (n,), secs),
        call_ensures(Duration::from_millis, (n,), millis),
        call_ensures(Duration::as_millis, (&other,), shown),
        call_ensures(Duration::at_most, (&secs, &other), most),
    ensures
        secs.total_nanos() == n * 1_000_000_000,
        millis.total_nanos() == n * 1_000_000,
        shown == other.spec_secs() * 1_000 + other.spec_nanos() / 1_000_000,
        most <==> n * 1_000_000_000 <= other.spec_secs() * 1_000_000_000 + other.spec_nanos(),
{
}

} // verus!

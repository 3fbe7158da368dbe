//! The history of durations and failures, its files, and looking into it.

use quokka::db_cli::{
    asks_for_db, db_stats, list_rows, run_db_command, sort_rows, stats_text, table_text, DbCli,
    DbCommand, DbReport, ListRow, RatedRow, SortKey,
};
use quokka::duration_db::{
    lock_step, needs_compaction, percentile, DbFiles, DurationDb, DurationEstimate, Environment,
    LockAction, LockEvent, COMPACTION_LIMIT, LOCK_ATTEMPTS,
};
use quokka::result::{identities_of, FailureClass, TestIdentity};
use quokka::scheduler::action::flakes_at;
use quokka::scheduler::batches::estimates_at;
use quokka::time::Duration;
use quokka::variant::Variant;

fn id(t: &str, n: &str) -> TestIdentity {
    TestIdentity { target: t.into(), name: n.into(), variant: Variant::Default }
}

fn no_files() -> DbFiles {
    DbFiles {
        perf_bin: None,
        perf_log: None,
        flake_bin: None,
        flake_log: None,
        names_bin: None,
        names_log: None,
    }
}

#[test]
fn percentiles_basic() {
    let s = [10, 20, 30, 40, 50, 60, 70, 80, 90, 100];
    assert_eq!(percentile(&s, 50), 50);
    assert_eq!(percentile(&s, 95), 100);
    assert_eq!(percentile(&[42], 50), 42);
    assert_eq!(percentile(&[], 50), 0);
}

#[test]
fn percentiles_sort_their_samples() {
    assert_eq!(percentile(&[30, 10, 20], 50), 20);
    assert_eq!(percentile(&[30, 10, 20], 100), 30);
    assert_eq!(percentile(&[30, 10, 20], 1), 10);
}

#[test]
fn record_and_estimate_roundtrip() {
    let mut db = DurationDb::ephemeral();
    let tid = id("m", "t");
    for (i, ms) in [100u64, 200, 300, 400].into_iter().enumerate() {
        db.record_at(Environment::Local, &tid, Duration::from_millis(ms), false, None, i as u64);
    }
    match db.estimate(Some(Environment::Local), &tid) {
        DurationEstimate::Measured { p50_ms, p95_ms } => {
            assert!((200..=300).contains(&p50_ms));
            assert_eq!(p95_ms, 400);
        }
        DurationEstimate::Unseen => panic!("should be measured"),
    }
    assert_eq!(db.estimate(None, &id("m", "absent")), DurationEstimate::Unseen);
}

#[test]
fn flake_accounting() {
    let mut db = DurationDb::ephemeral();
    let tid = id("m", "t");
    db.record_at(
        Environment::Local,
        &tid,
        Duration::from_millis(1),
        true,
        Some(FailureClass::Fail),
        1,
    );
    db.record_at(Environment::Local, &tid, Duration::from_millis(1), false, None, 2);
    let f = db.flake(None, &tid).unwrap();
    assert_eq!(f.runs, 2);
    assert_eq!(f.failures, 1);
    assert_eq!(f.last_failure_class, Some(FailureClass::Fail));
}

#[test]
fn cache_replays_are_not_recorded() {
    let mut db = DurationDb::ephemeral();
    let tid = id("m", "t");
    db.record_at(Environment::Local, &tid, Duration::from_millis(10), false, None, 1);
}

#[test]
fn duration_db_persists_and_reloads() {
    let tid = id("m", "t");
    let mut files = no_files();
    {
        let mut db = DurationDb::load("project", &files);
        db.record_at(
            Environment::Local,
            &tid,
            Duration::from_millis(250),
            true,
            Some(FailureClass::Fatal),
            1,
        );
        db.record_at(Environment::Local, &tid, Duration::from_millis(250), false, None, 2);
        let logs = db.flush();
        files.perf_log = logs.perf;
        files.flake_log = logs.flake;
        files.names_log = logs.names;
    }
    let db = DurationDb::load("project", &files);
    assert!(matches!(db.estimate(None, &tid), DurationEstimate::Measured { .. }));
    assert_eq!(db.flake(None, &tid).unwrap().failures, 1);
    assert_eq!(db.get_name(db.key_of(&tid)), Some(&tid));
}

#[test]
fn test_combine_monoid() {
    let mut db1 = DurationDb::ephemeral();
    let mut db2 = DurationDb::ephemeral();
    let tid = id("m", "t");

    db1.record_at(Environment::Local, &tid, Duration::from_millis(100), false, None, 1);
    db1.record_at(
        Environment::Remote,
        &tid,
        Duration::from_millis(150),
        true,
        Some(FailureClass::Fail),
        2,
    );

    db2.record_at(Environment::Local, &tid, Duration::from_millis(200), false, None, 3);
    db2.record_at(Environment::Remote, &tid, Duration::from_millis(250), false, None, 4);

    db1.combine(db2);

    match db1.estimate(Some(Environment::Local), &tid) {
        DurationEstimate::Measured { p50_ms, p95_ms } => {
            assert_eq!(p50_ms, 100);
            assert_eq!(p95_ms, 200);
        }
        _ => panic!("Expected measured"),
    }

    let f = db1.flake(Some(Environment::Remote), &tid).unwrap();
    assert_eq!(f.runs, 2);
    assert_eq!(f.failures, 1);
    assert_eq!(f.last_failure_class, Some(FailureClass::Fail));
}

fn sample_db() -> DurationDb {
    let tid1 = TestIdentity {
        target: "//src:quokka-lib-test".to_owned(),
        name: "test_1".to_owned(),
        variant: Variant::Default,
    };
    let tid2 = TestIdentity {
        target: "//src:quokka-lib-test".to_owned(),
        name: "test_2_flaky".to_owned(),
        variant: Variant::Asan,
    };
    let mut db = DurationDb::load("project", &no_files());
    db.record_at(Environment::Local, &tid1, Duration::from_millis(150), false, None, 1000);
    db.record_at(
        Environment::Local,
        &tid2,
        Duration::from_millis(300),
        true,
        Some(FailureClass::Fail),
        1001,
    );
    db.record_at(Environment::Local, &tid2, Duration::from_millis(320), false, None, 1002);
    db
}

fn list(sort: &str, env: Option<&str>, target: Option<&str>, name: Option<&str>, format: &str) -> DbCli {
    DbCli {
        duration_db: None,
        command: DbCommand::List {
            sort: sort.to_owned(),
            env: env.map(str::to_owned),
            target: target.map(str::to_owned),
            name: name.map(str::to_owned),
            format: format.to_owned(),
        },
    }
}

#[test]
fn test_db_cli_stats_and_list() {
    let db = sample_db();
    assert!(run_db_command(&DbCli { duration_db: None, command: DbCommand::Stats }, &db).is_ok());
    assert!(run_db_command(&list("target", None, None, None, "text"), &db).is_ok());
    assert!(run_db_command(
        &list("flake-rate", Some("local"), Some("quokka"), Some("flaky"), "json"),
        &db
    )
    .is_ok());
}

#[test]
fn stats_count_keys_names_and_runs() {
    let stats = db_stats(&sample_db());
    assert_eq!((stats.keys, stats.named, stats.runs, stats.failures), (2, 2, 3, 1));
    assert_eq!(
        stats_text("/home/me/.quokka", "0.25 KB", &stats),
        "Database directory: /home/me/.quokka\n\
         Total size on disk:  0.25 KB\n\
         Total distinct keys: 2\n\
         Named test records:  2\n\
         Total test runs:     3\n\
         Total failures:      1\n"
    );
}

#[test]
fn lists_are_filtered_by_environment_and_text() {
    let db = sample_db();
    let report =
        run_db_command(&list("flake-rate", Some("local"), Some("quokka"), Some("flaky"), "json"), &db);
    match report.unwrap() {
        DbReport::Rows { rows, sort, json } => {
            assert_eq!(sort, SortKey::FlakeRate);
            assert!(json);
            assert_eq!(rows.len(), 1);
            assert_eq!(rows[0].name, "test_2_flaky");
            assert_eq!(rows[0].variant, "asan");
            assert_eq!((rows[0].p50_ms, rows[0].p95_ms), (Some(320), Some(320)));
            assert_eq!((rows[0].runs, rows[0].failures), (2, 1));
        }
        _ => panic!("rows expected"),
    }
    let remote = list_rows(&db, Some(Environment::Remote), &None, &None);
    assert_eq!(remote.len(), 2);
    assert!(remote.iter().all(|r| r.runs == 0 && r.p50_ms.is_none()));
}

#[test]
fn wrong_list_options_are_refused() {
    let db = DurationDb::ephemeral();
    assert_eq!(
        run_db_command(&list("target", Some("moon"), None, None, "text"), &db).unwrap_err(),
        "Invalid env 'moon': expected 'local' or 'remote'"
    );
    assert_eq!(
        run_db_command(&list("size", None, None, None, "text"), &db).unwrap_err(),
        "Invalid sort option 'size'"
    );
}

#[test]
fn a_test_without_a_name_shows_its_key() {
    let mut source = DurationDb::load("project", &no_files());
    source.record_by_key(
        Environment::Local,
        0xab0,
        &id("m", "t"),
        Duration::from_millis(5),
        false,
        None,
        1,
    );
    let logs = source.flush();
    let mut files = no_files();
    files.perf_log = logs.perf;
    files.flake_log = logs.flake;
    let db = DurationDb::load("project", &files);
    let rows = list_rows(&db, None, &None, &None);
    assert_eq!(rows.len(), 1);
    assert_eq!(rows[0].target, "<unknown:0xab0>");
    assert_eq!((rows[0].name.as_str(), rows[0].variant.as_str()), ("", ""));
}

fn rated(target: &str, name: &str, p50: Option<u64>, runs: u64, failures: u64, rate: u64) -> RatedRow {
    RatedRow {
        row: ListRow {
            key: 0,
            target: target.to_owned(),
            name: name.to_owned(),
            variant: "default".to_owned(),
            p50_ms: p50,
            p95_ms: p50,
            runs,
            failures,
        },
        rate,
        rate_text: format!("{rate}.0%"),
    }
}

fn order(sort: SortKey) -> Vec<String> {
    let rows = vec![
        rated("b", "x", Some(5), 2, 1, 50),
        rated("a", "z", None, 4, 0, 0),
        rated("a", "y", Some(9), 4, 3, 75),
    ];
    sort_rows(sort, rows).into_iter().map(|r| r.row.target + &r.row.name).collect()
}

#[test]
fn rows_are_sorted_and_equal_rows_stay_in_order() {
    assert_eq!(order(SortKey::Target), ["ay", "az", "bx"]);
    assert_eq!(order(SortKey::Name), ["bx", "ay", "az"]);
    assert_eq!(order(SortKey::P50), ["ay", "bx", "az"]);
    assert_eq!(order(SortKey::P95), ["ay", "bx", "az"]);
    assert_eq!(order(SortKey::Runs), ["az", "ay", "bx"]);
    assert_eq!(order(SortKey::Failures), ["ay", "bx", "az"]);
    assert_eq!(order(SortKey::FlakeRate), ["ay", "bx", "az"]);
}

#[test]
fn tables_line_up() {
    assert_eq!(table_text(&vec![]), "No records found.\n");
    let table = table_text(&vec![rated("//a:b", "n", None, 12, 3, 25)]);
    assert_eq!(
        table,
        "Target Test Name Variant p50 (ms) p95 (ms) Runs Failures Flake % \n\
         ------ --------- ------- -------- -------- ---- -------- ------- \n\
         //a:b  n         default      N/A      N/A   12        3   25.0% \n"
    );
}

#[test]
fn db_is_asked_for_before_the_dashes_only() {
    let argv = |texts: &[&str]| texts.iter().map(|t| t.to_string()).collect::<Vec<_>>();
    assert!(asks_for_db(&argv(&["quokka", "db", "stats"])));
    assert!(!asks_for_db(&argv(&["quokka", "--", "db"])));
    assert!(!asks_for_db(&argv(&["quokka", "run"])));
}

#[test]
fn compacted_files_hold_what_the_logs_held() {
    let mut db = sample_db();
    let logs = db.flush();
    let compacted = db.compacted();
    let from_logs = DurationDb::load(
        "project",
        &DbFiles {
            perf_bin: None,
            perf_log: logs.perf,
            flake_bin: None,
            flake_log: logs.flake,
            names_bin: None,
            names_log: logs.names,
        },
    );
    let from_bins = DurationDb::load(
        "project",
        &DbFiles {
            perf_bin: Some(compacted.perf_bin),
            perf_log: None,
            flake_bin: Some(compacted.flake_bin),
            flake_log: None,
            names_bin: Some(compacted.names_bin),
            names_log: None,
        },
    );
    assert_eq!(from_logs.all_keys(), from_bins.all_keys());
    assert_eq!(from_logs.all_keys().len(), 2);
    for key in from_logs.all_keys() {
        assert_eq!(from_logs.get_name(key), from_bins.get_name(key));
        assert_eq!(from_logs.get_flake_record(None, key), from_bins.get_flake_record(None, key));
        assert_eq!(from_logs.get_perf_samples(None, key), from_bins.get_perf_samples(None, key));
    }
}

#[test]
fn a_second_flush_has_nothing_to_write() {
    let mut db = sample_db();
    let first = db.flush();
    assert!(first.perf.is_some() && first.flake.is_some() && first.names.is_some());
    let second = db.flush();
    assert!(second.perf.is_none() && second.flake.is_none() && second.names.is_none());
}

#[test]
fn garbage_starts_a_fresh_history() {
    let mut files = no_files();
    files.perf_bin = Some(vec![1, 2, 3]);
    files.flake_bin = Some(vec![255; 40]);
    files.names_log = Some(vec![7]);
    assert!(DurationDb::load("project", &files).all_keys().is_empty());
}

#[test]
fn discovered_names_wait_for_their_first_run() {
    let mut db = DurationDb::ephemeral();
    db.record_discovered_name(&id("m", "t"));
    assert!(db.all_keys().is_empty());
    assert_eq!(db.get_name(db.key_of(&id("m", "t"))), Some(&id("m", "t")));
}

#[test]
fn keys_tell_tests_and_projects_apart() {
    let here = DurationDb::load("here", &no_files());
    let there = DurationDb::load("there", &no_files());
    assert_ne!(here.key_of(&id("m", "t")), here.key_of(&id("m", "u")));
    assert_ne!(here.key_of(&id("m", "t")), there.key_of(&id("m", "t")));
    assert_eq!(here.key_of(&id("m", "t")), here.key_of(&id("m", "t")));
}

#[test]
fn only_the_newest_samples_are_kept() {
    let mut db = DurationDb::ephemeral();
    let tid = id("m", "t");
    for i in 0..100u64 {
        db.record_at(Environment::Local, &tid, Duration::from_millis(i), false, None, i);
    }
    let samples = db.get_perf_samples(None, db.key_of(&tid));
    assert_eq!(samples.len(), 64);
    assert_eq!(samples[0].timestamp_ms, 99);
    assert_eq!(samples[63].timestamp_ms, 36);
}

#[test]
fn logs_are_compacted_above_the_limit() {
    assert!(!needs_compaction(COMPACTION_LIMIT, COMPACTION_LIMIT, COMPACTION_LIMIT));
    assert!(needs_compaction(0, COMPACTION_LIMIT + 1, 0));
}

#[test]
fn stale_locks_are_removed() {
    assert_eq!(lock_step(0, LockEvent::Ready), LockAction::Try);
    assert_eq!(lock_step(LOCK_ATTEMPTS - 1, LockEvent::Ready), LockAction::Try);
    assert_eq!(lock_step(LOCK_ATTEMPTS, LockEvent::Ready), LockAction::GiveUp);
    assert_eq!(lock_step(LOCK_ATTEMPTS, LockEvent::Created), LockAction::Proceed);
    assert_eq!(lock_step(1, LockEvent::Created), LockAction::Proceed);
    assert_eq!(lock_step(1, LockEvent::Failed), LockAction::GiveUp);
    assert_eq!(lock_step(1, LockEvent::Held { age: None }), LockAction::Wait);
    assert_eq!(
        lock_step(1, LockEvent::Held { age: Some(Duration::from_secs(10)) }),
        LockAction::Wait
    );
    assert_eq!(
        lock_step(1, LockEvent::Held { age: Some(Duration::from_millis(10_001)) }),
        LockAction::RemoveAndWait
    );
}

#[test]
fn recorded_runs_are_read_back() {
    let mut db = DurationDb::ephemeral();
    let (tid, other) = (id("m", "t"), id("m", "u"));
    db.record_at(Environment::Remote, &tid, Duration::from_millis(7), false, None, 1);
    db.record_at(
        Environment::Remote,
        &tid,
        Duration::from_millis(900),
        true,
        Some(FailureClass::Fail),
        2,
    );
    assert_eq!(
        db.estimate(Some(Environment::Remote), &tid),
        DurationEstimate::Measured { p50_ms: 7, p95_ms: 7 }
    );
    assert_eq!(db.estimate(Some(Environment::Local), &tid), DurationEstimate::Unseen);
    let record = db.flake(Some(Environment::Remote), &tid).unwrap();
    assert_eq!((record.runs, record.failures), (2, 1));
    assert_eq!(db.estimate(None, &other), DurationEstimate::Unseen);
    assert!(db.flake(None, &other).is_none());
    let ids = identities_of("m", &["t".to_owned(), "u".to_owned()], &Variant::Default);
    assert_eq!(ids, vec![id("m", "t"), id("m", "u")]);
    let keys = db.keys_of(&ids);
    assert_eq!(keys, vec![db.key_of(&tid), db.key_of(&other)]);
    assert_eq!(
        estimates_at(&db, &keys),
        vec![DurationEstimate::Measured { p50_ms: 7, p95_ms: 7 }, DurationEstimate::Unseen]
    );
    assert_eq!(flakes_at(&db, &keys), vec![true, false]);
}

#[test]
fn runs_are_recorded_at_the_time_of_the_call() {
    let mut db = DurationDb::ephemeral();
    let tid = id("m", "t");
    db.record(Environment::Local, &tid, Duration::from_millis(5), false, None);
    let samples = db.get_perf_samples(Some(Environment::Local), db.key_of(&tid));
    assert_eq!(samples.len(), 1);
    assert_eq!(samples[0].duration_ms, 5);
    // Well after the epoch, whatever the time is.
    assert!(samples[0].timestamp_ms > 1_000_000_000_000);
}

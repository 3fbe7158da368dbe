//! The decisions of the scheduler, one by one.

use quokka::batching::{BatchMode, TestSelection};
use quokka::cli::{
    self, DurationDbConfig, MemoryMaxEnv, RunnerConfig, SessionContext, Surroundings,
};
use quokka::config::{FlakyRetryConfig, QuokkaConfig};
use quokka::duration_db::{DurationDb, DurationEstimate, Environment, FlakeRecord};
use quokka::execution::{CgroupMemoryMax, CgroupMemoryMaxOverride};
use quokka::ids::TargetHandle;
use quokka::listing::{TestCase, TestCaseKind};
use quokka::names::NameMap;
use quokka::num::NonZeroUsize;
use quokka::policy::{Owner, RetryPolicy};
use quokka::result::{
    CompletedAction, ExecKind, Execute2Outcome, FailureClass, ProcessOutcome, RunIdentity,
    TestIdentity, TestVerdict,
};
use quokka::scheduler::action::allowed_attempts;
use quokka::scheduler::batches::{build_batches, shard_filter};
use quokka::scheduler::discover::{prepare_listing, settle_listing, whole_unit_tests, ListingStep};
use quokka::scheduler::finish::{
    append_attempt_history, console_test_name, details_after_upload, failure_annotation,
    inline_body, needs_upload, target_failure, target_failure_name, truncate, upload_file_name,
    upload_message, DetailKind, UploadOutcome,
};
use quokka::scheduler::group::{
    group_attempt, prepare_group, settle_group, stage_testcases, GroupFailureDisposition,
    GroupOutcome, GroupStep,
};
use quokka::scheduler::observe::{
    absent_name_verdict, merge_best, report_disposition, AttemptDuration, AttemptExecution,
    AttemptObservation, BestObs, ReportDisposition, ResultIntegrity, RunVerdict,
};
use quokka::scheduler::plan::{
    missing_cgroup_override_targets, target_batch_mode, validate_cgroup_memory_overrides,
    TargetPlan,
};
use quokka::scheduler::report::{
    closing_exit_code, fail_console_line, final_exit_code, lost_action_reason, lost_target_reason,
    malformed_spec_reason, missing_override_reason, opening, session_summary, Level, Opening,
    Reporter, Tally,
};
use quokka::spec::{CommandArg, SpecError, TargetSpec};
use quokka::time::Duration;
use quokka::translator::{DemuxCapability, Framework, ListFormat, TranslatorRegistry};
use quokka::variant::{RepeatKind, Variant};

fn tally() -> Tally {
    Tally { total: 2, passed: 1, failed: 1, quarantined_failed: 0, skipped: 0 }
}

fn config_of(more: &[&str]) -> RunnerConfig {
    let mut argv: Vec<String> =
        ["runner", "--executor-fd", "1", "--orchestrator-fd", "2", "--", "ignored"]
            .iter()
            .map(|value| value.to_string())
            .collect();
    argv.extend(more.iter().map(|value| value.to_string()));
    let around = Surroundings {
        memory_max: MemoryMaxEnv::NotPresent,
        quokka_config: QuokkaConfig::default(),
    };
    cli::parse(argv, &around).expect("config").config
}

#[test]
fn summary_labels_the_host_platform() {
    let context = SessionContext { host_platform: Some("mac".to_owned()), trace_id: None };
    let summary = session_summary(&tally(), &context);
    assert!(summary.ends_with(" [host=mac]"), "got: {summary}");
}

#[test]
fn summary_omits_host_platform_when_absent() {
    let context = SessionContext { host_platform: None, trace_id: None };
    let summary = session_summary(&tally(), &context);
    assert!(!summary.contains("[host="), "got: {summary}");
}

#[test]
fn summaries_count_everything() {
    let tally = Tally { total: 5, passed: 1, failed: 1, quarantined_failed: 2, skipped: 1 };
    let context =
        SessionContext { host_platform: Some("l".to_owned()), trace_id: Some("t".to_owned()) };
    assert_eq!(
        session_summary(&tally, &context),
        "test run complete: 5 tests, 1 passed, 1 failed, 1 skipped (2 quarantined failure(s), not counted) [host=l] [trace=t]"
    );
}

#[test]
fn big_label_selects_per_test_batching() {
    assert_eq!(target_batch_mode(&["rust:big".to_owned()]), Some(BatchMode::PerTest));
    assert_eq!(target_batch_mode(&["rust:gpu".to_owned()]), None);
}

#[test]
fn absent_cgroup_memory_override_target_fails_validation() {
    let mut config = config_of(&[
        "--cgroup-memory-max-override",
        "root//x:tests|suite::large|3221225472",
    ]);
    let mut received = Vec::new();
    assert_eq!(
        missing_cgroup_override_targets(&config, &received),
        vec!["root//x:tests".to_owned()]
    );

    received.push("root//x:tests".to_owned());
    assert!(missing_cgroup_override_targets(&config, &received).is_empty());

    config.cgroup_memory_max_overrides.clear();
    assert!(missing_cgroup_override_targets(&config, &received).is_empty());
}

fn override_validation_config(test: &str) -> RunnerConfig {
    let mut config = config_of(&[]);
    config.cgroup_memory_max_overrides.push(CgroupMemoryMaxOverride {
        target: "root//p:t".to_owned(),
        test: test.to_owned(),
        memory_max: CgroupMemoryMax::default(),
    });
    config
}

fn sample_target(test_type: &str, labels: &[&str]) -> TargetSpec {
    TargetSpec {
        handle: TargetHandle(1),
        suite: "root//p:t".to_owned(),
        display: "root//p:t".to_owned(),
        target_platform: None,
        test_type: test_type.to_owned(),
        command: vec![CommandArg::Verbatim("./t".to_owned())],
        env: Vec::new(),
        labels: labels.iter().map(|label| (*label).to_owned()).collect(),
        contacts: Vec::new(),
        oncall: None,
    }
}

fn override_validation_plan(test_type: &str, labels: &[&str]) -> TargetPlan {
    let spec = sample_target(test_type, labels);
    let mut registry = TranslatorRegistry::new();
    if test_type == "python" {
        registry.register("python", Framework::CustomBinary);
    }
    let config = config_of(&[]);
    TargetPlan::derive(spec, &config, &registry).expect("translator")
}

#[test]
fn cgroup_memory_override_requires_exact_rust_big_singleton() {
    let singleton = vec![TestCase::new("suite::large".to_owned(), TestCaseKind::Test, false)];
    let config = override_validation_config("suite::large");
    let mut exact_plan = override_validation_plan("rust", &["rust:big"]);
    exact_plan.batch_mode = None;
    assert!(validate_cgroup_memory_overrides(&exact_plan, &config, &singleton).is_ok());

    for (test_type, labels) in [
        ("rust", vec!["big"]),
        ("rust", vec!["python:big"]),
        ("rust", Vec::new()),
        ("python", vec!["rust:big"]),
    ] {
        let plan = override_validation_plan(test_type, &labels);
        let error = validate_cgroup_memory_overrides(&plan, &config, &singleton)
            .expect_err("invalid override capability");
        assert!(error.contains("rust:big singleton"), "{error}");
    }

    let missing = Vec::new();
    let error = validate_cgroup_memory_overrides(&exact_plan, &config, &missing)
        .expect_err("missing discovered test");
    assert!(error.contains("matched 0 tests"), "{error}");

    let duplicate = vec![
        TestCase::new("suite::large".to_owned(), TestCaseKind::Test, false),
        TestCase::new("suite::large".to_owned(), TestCaseKind::Test, false),
    ];
    let error = validate_cgroup_memory_overrides(&exact_plan, &config, &duplicate)
        .expect_err("duplicate discovered test");
    assert!(error.contains("matched 2 tests"), "{error}");
}

fn three_tests() -> Vec<TestCase> {
    ["a", "b", "c"]
        .into_iter()
        .map(|name| TestCase::new(name.to_owned(), TestCaseKind::Test, false))
        .collect::<Vec<_>>()
}

fn three_singletons() -> Vec<TestSelection<String>> {
    vec![
        TestSelection::Explicit(vec!["a".to_owned()]),
        TestSelection::Explicit(vec!["b".to_owned()]),
        TestSelection::Explicit(vec!["c".to_owned()]),
    ]
}

#[test]
fn big_batch_override_keeps_each_test_singleton() {
    let mut config = config_of(&["--batch-mode", "fixed-chunk", "--chunk-size", "2"]);
    config.batch_mode = BatchMode::FixedChunk { size: NonZeroUsize::new(2).unwrap() };
    let actual = build_batches(
        "target",
        &three_tests(),
        &config,
        &DurationDb::ephemeral(),
        DemuxCapability::NameAttributable,
        Some(BatchMode::PerTest),
    );
    assert_eq!(actual, three_singletons());
}

#[test]
fn logical_cgroup_forces_singletons_before_action_construction() {
    let mut config = config_of(&[
        "--batch-mode",
        "fixed-chunk",
        "--chunk-size",
        "2",
        "--cgroup-granularity",
        "logical-test",
    ]);
    config.batch_mode = BatchMode::FixedChunk { size: NonZeroUsize::new(2).expect("nonzero") };
    let actual = build_batches(
        "target",
        &three_tests(),
        &config,
        &DurationDb::ephemeral(),
        DemuxCapability::NameAttributable,
        None,
    );
    assert_eq!(actual, three_singletons());
}

#[test]
fn action_cgroup_keeps_fixed_chunk_batching() {
    let mut config = config_of(&[
        "--batch-mode",
        "fixed-chunk",
        "--chunk-size",
        "2",
        "--cgroup-granularity",
        "action",
    ]);
    config.batch_mode = BatchMode::FixedChunk { size: NonZeroUsize::new(2).expect("nonzero") };
    let actual = build_batches(
        "target",
        &three_tests(),
        &config,
        &DurationDb::ephemeral(),
        DemuxCapability::NameAttributable,
        None,
    );
    let groups = actual
        .into_iter()
        .map(|selection| match selection {
            TestSelection::Explicit(names) => names,
            TestSelection::All => panic!("fixed-chunk mode must enumerate selected tests"),
        })
        .collect::<Vec<_>>();
    assert_eq!(groups.len(), 2);
    assert_eq!(groups.iter().filter(|group| group.len() == 2).count(), 1);
    assert_eq!(groups.iter().filter(|group| group.len() == 1).count(), 1);
    let mut members = groups.iter().flatten().cloned().collect::<Vec<_>>();
    members.sort_unstable();
    assert_eq!(members, vec!["a", "b", "c"]);
}

#[test]
fn longest_batches_run_first() {
    let config = config_of(&["--batch-mode", "per-test"]);
    let mut db = DurationDb::ephemeral();
    for (name, ms) in [("a", 10), ("b", 900), ("c", 400)] {
        let id = TestIdentity {
            target: "target".to_owned(),
            name: name.to_owned(),
            variant: Variant::Default,
        };
        db.record_at(Environment::Local, &id, Duration::from_millis(ms), false, None, 1);
    }
    let batches = build_batches(
        "target",
        &three_tests(),
        &config,
        &db,
        DemuxCapability::NameAttributable,
        None,
    );
    assert_eq!(
        batches,
        vec![
            TestSelection::Explicit(vec!["b".to_owned()]),
            TestSelection::Explicit(vec!["c".to_owned()]),
            TestSelection::Explicit(vec!["a".to_owned()]),
        ]
    );
}

#[test]
fn shards_share_the_tests_out() {
    let tests: Vec<TestCase> = (0..40)
        .map(|i| TestCase::new(format!("t{i}"), TestCaseKind::Test, false))
        .collect();
    let mut names = Vec::new();
    for index in ["0", "1", "2"] {
        let config = config_of(&["--shard-index", index, "--shard-count", "3"]);
        names.extend(shard_filter("target", &tests, &config).into_iter().map(|t| t.name));
    }
    names.sort();
    let mut all: Vec<String> = tests.into_iter().map(|t| t.name).collect();
    all.sort();
    assert_eq!(names, all);
}

fn verdict(raw: ProcessOutcome, whole_unit: bool, singleton: bool) -> TestVerdict {
    absent_name_verdict(raw, whole_unit, singleton, b"", b"").0
}

#[test]
fn synthesized_singleton_failure_keeps_action_stderr() {
    let (status, details) = absent_name_verdict(
        ProcessOutcome::Finished { exit_code: 137 },
        false,
        true,
        b"",
        b"nobie rust test cgroup OOM: memory.max=3145728000\n",
    );

    assert_eq!(status, TestVerdict::Fail);
    assert!(details.contains("test process exited nonzero"));
    assert!(details.contains("nobie rust test cgroup OOM"));
}

#[test]
fn per_test_name_without_terminal_result_never_passes() {
    assert_eq!(
        [0, 1, 101, -1].map(|exit_code| verdict(
            ProcessOutcome::Finished { exit_code },
            false,
            true,
        )),
        [TestVerdict::Fatal, TestVerdict::Fail, TestVerdict::Fail, TestVerdict::Fail]
    );
}

#[test]
fn whole_unit_synthetic_name_trusts_the_exit_code() {
    assert_eq!(
        [
            verdict(ProcessOutcome::Finished { exit_code: 0 }, true, true),
            verdict(ProcessOutcome::Finished { exit_code: 101 }, true, true),
            verdict(ProcessOutcome::TimedOut { after: Duration::from_secs(1) }, true, true),
        ],
        [TestVerdict::Pass, TestVerdict::Fail, TestVerdict::Timeout]
    );
}

#[test]
fn missing_terminal_result_is_a_failure_even_when_status_is_omitted() {
    assert_eq!(
        report_disposition(
            TestVerdict::Omitted,
            ResultIntegrity::MissingTerminalResult,
            true,
        ),
        ReportDisposition::Failure
    );
}

#[test]
fn quarantine_spares_complete_failures_only() {
    let of = |status, integrity| report_disposition(status, integrity, true);
    assert_eq!(
        of(TestVerdict::Fail, ResultIntegrity::Complete),
        ReportDisposition::QuarantinedFailure
    );
    assert_eq!(
        of(TestVerdict::Pass, ResultIntegrity::MissingTerminalResult),
        ReportDisposition::Failure
    );
    assert_eq!(of(TestVerdict::Skip, ResultIntegrity::Complete), ReportDisposition::Skipped);
}

#[test]
fn missing_terminal_is_absorbing_but_complete_timeout_can_recover() {
    let missing = BestObs {
        status: TestVerdict::Fatal,
        integrity: ResultIntegrity::MissingTerminalResult,
        details: "test produced no result".to_owned(),
        duration: AttemptDuration::Unmeasured,
        max_memory: None,
    };
    let pass = BestObs {
        status: TestVerdict::Pass,
        integrity: ResultIntegrity::Complete,
        details: String::new(),
        duration: AttemptDuration::Measured(Duration::from_secs(1)),
        max_memory: Some(1024),
    };
    let mut timeout = pass.clone();
    let mut missing_then_pass = NameMap::new();
    merge_best(&mut missing_then_pass, "test", missing.clone());
    merge_best(&mut missing_then_pass, "test", pass.clone());
    timeout.status = TestVerdict::Timeout;
    let mut timeout_then_pass = NameMap::new();
    merge_best(&mut timeout_then_pass, "test", timeout);
    merge_best(&mut timeout_then_pass, "test", pass.clone());

    assert_eq!(
        [missing_then_pass.remove("test"), timeout_then_pass.remove("test")],
        [Some(missing), Some(pass)]
    );
}

#[test]
fn nonzero_exit_fails_a_singleton_and_fatals_an_unattributable_batch() {
    let raw = ProcessOutcome::Finished { exit_code: 101 };
    assert_eq!(
        [verdict(raw, false, true), verdict(raw, false, false)],
        [TestVerdict::Fail, TestVerdict::Fatal]
    );
}

#[test]
fn timeout_is_a_timeout_regardless_of_source() {
    let raw = ProcessOutcome::TimedOut { after: Duration::from_secs(1) };
    assert_eq!(
        [
            verdict(raw, true, true),
            verdict(raw, true, false),
            verdict(raw, false, true),
            verdict(raw, false, false),
        ],
        [TestVerdict::Timeout; 4]
    );
}

#[test]
fn fail_console_line_carries_full_details() {
    let line = fail_console_line("my::test", "panicked at 'boom'\nstack");
    assert_eq!(line, "FAIL my::test\npanicked at 'boom'\nstack");
}

#[test]
fn fail_console_line_omits_empty_details() {
    assert_eq!(fail_console_line("my::test", ""), "FAIL my::test");
}

#[test]
fn console_test_name_preserves_target_and_synthetic_name() {
    let run_id = RunIdentity {
        test: TestIdentity {
            target: "root//testing/parrot:gpui".to_owned(),
            name: "<binary>".to_owned(),
            variant: Variant::Default,
        },
        repeat: RepeatKind::Once,
        repeat_index: 0,
    };
    assert_eq!(console_test_name(&run_id), "root//testing/parrot:gpui::<binary>");
}

#[test]
fn failure_details_are_kept_in_full_when_offloaded_to_cas() {
    let big = "x".repeat(8192);
    assert_eq!(inline_body(DetailKind::Failure, &big), big);

    let preview = inline_body(DetailKind::Passing, &big);
    assert!(preview.len() < big.len(), "passing log should be truncated");
    assert!(preview.ends_with("…[truncated, full log in CAS]"), "got: {preview}");
}

#[test]
fn small_details_are_identical_for_both_kinds() {
    let small = "assertion failed: left == right";
    assert_eq!(inline_body(DetailKind::Failure, small), small);
    assert_eq!(inline_body(DetailKind::Passing, small), small);
}

#[test]
fn previews_end_between_characters() {
    let text = format!("{}{}", "x".repeat(4095), "é".repeat(10));
    let preview = truncate(&text);
    assert_eq!(preview, format!("{}\n…[truncated, full log in CAS]", "x".repeat(4095)));
    assert_eq!(truncate(&"é".repeat(2048)), "é".repeat(2048));
}

#[test]
fn uploads_are_noted_before_the_details() {
    assert_eq!(
        upload_message("abc", "h", -1),
        "[log 3 bytes uploaded to CAS: h/-1]"
    );
    let told = |outcome| details_after_upload(DetailKind::Failure, "é", &outcome);
    assert_eq!(
        told(UploadOutcome::Uploaded { hash: "h".to_owned(), size_bytes: 2 }),
        "[log 2 bytes uploaded to CAS: h/2]\né"
    );
    assert_eq!(
        told(UploadOutcome::Failed("down".to_owned())),
        "[log 2 bytes; CAS upload failed: down]\né"
    );
    assert_eq!(
        told(UploadOutcome::NotWritten("full".to_owned())),
        "[log 2 bytes; CAS upload skipped: full]\né"
    );
    assert_eq!(upload_file_name(7, ""), "brtr-log-7-14695981039346656037.txt");
    let config = config_of(&["--cas-inline-limit", "2"]);
    assert!(!needs_upload("é", &config));
    assert!(needs_upload("éa", &config));
}

fn attempt(status: TestVerdict, duration: AttemptDuration, details: &str) -> AttemptObservation {
    AttemptObservation {
        status,
        duration,
        framework_case_duration: None,
        details: details.to_owned(),
        execution: AttemptExecution::Unknown,
    }
}

#[test]
fn attempts_are_listed_when_there_are_several() {
    let first = attempt(TestVerdict::InfraFailure, AttemptDuration::Unmeasured, "one\ntwo");
    let second = attempt(
        TestVerdict::Pass,
        AttemptDuration::Measured(Duration::from_millis(12)),
        "",
    );
    let mut single = "d".to_owned();
    append_attempt_history(&mut single, std::slice::from_ref(&first));
    assert_eq!(single, "d");
    let mut both = "d".to_owned();
    append_attempt_history(&mut both, &[first, second]);
    assert_eq!(
        both,
        "d\nquokka attempt history:\nattempt 1: InfraFailure duration=unmeasured details=one\nattempt 2: Pass duration_ms=12"
    );
    let long = attempt(TestVerdict::Fail, AttemptDuration::Unmeasured, &"y".repeat(600));
    let mut text = String::new();
    append_attempt_history(&mut text, &[long.clone(), long]);
    assert!(text.starts_with("quokka attempt history:"));
    assert_eq!(text.matches('y').count(), 2 * 500 + 1);
}

#[test]
fn annotations_say_who_looks_after_a_test() {
    let mut plan = override_validation_plan("rust", &["rust:owner=team"]);
    assert_eq!(plan.owner, Owner::Team("team".to_owned()));
    plan.spec.target_platform = Some("cfg".to_owned());
    plan.spec.contacts = vec!["a".to_owned(), "b".to_owned()];
    plan.spec.oncall = Some("now".to_owned());
    let flake = FlakeRecord {
        runs: 20,
        failures: 4,
        last_failure_timestamp_ms: Some(1),
        last_failure_class: Some(FailureClass::Timeout),
    };
    assert_eq!(
        failure_annotation(&plan, Some(flake)),
        "[brtr: target=root//p:t | target_platform=cfg | owner=team | contacts=[a,b] | oncall=now | flaky_history: failed 4/20 recent runs, last=Timeout]"
    );
    let bare = override_validation_plan("rust", &[]);
    assert_eq!(failure_annotation(&bare, None), "[brtr: target=root//p:t]");
    assert_eq!(
        failure_annotation(&bare, Some(FlakeRecord::default())),
        "[brtr: target=root//p:t]"
    );
}

#[test]
fn whole_target_failures_fail_even_in_quarantine() {
    let spec = sample_target("rust", &["rust:quarantined"]);
    let config = config_of(&[]);
    assert_eq!(target_failure_name(&spec), "root//p:t (listing)");
    let failed = target_failure(
        &spec,
        &config,
        true,
        RepeatKind::Once,
        TestVerdict::Omitted,
        "why".to_owned(),
    );
    assert_eq!(failed.console_name, "root//p:t::root//p:t");
    assert_eq!(failed.result.details, "why");
    let mut reporter = Reporter::new();
    let line = reporter.note_finished(&failed).expect("a line");
    assert_eq!(line.level, Level::Warn);
    assert_eq!(line.text, "FAIL root//p:t::root//p:t\nwhy");
    assert_eq!(reporter.verdict, RunVerdict::Fail);
    assert_eq!(reporter.tally.failed, 1);
}

#[test]
fn dropped_targets_and_lost_reports_fail_the_run() {
    let mut reporter = Reporter::new();
    assert_eq!(reporter.verdict.exit_code(), 0);
    reporter.note_unreported();
    assert_eq!(reporter.verdict.exit_code(), 32);
    assert_eq!(reporter.tally.total, 0);
    let mut reporter = Reporter::new();
    let line = reporter.note_dropped("gone");
    assert_eq!((line.level, line.text.as_str()), (Level::Error, "quokka: gone"));
    assert_eq!((reporter.tally.total, reporter.tally.failed), (1, 1));
    assert_eq!(reporter.verdict, RunVerdict::Fail);
    assert!(reporter.note_report_failure("first").is_some());
    assert!(reporter.note_report_failure("second").is_none());
    let context = SessionContext { host_platform: None, trace_id: None };
    let last = reporter.closing_line(&context);
    assert_eq!(last.level, Level::Warn);
    assert_eq!(last.text, "test run complete: 1 tests, 0 passed, 1 failed, 0 skipped");
}

#[test]
fn lost_work_fails_the_run() {
    assert_eq!(closing_exit_code(Some(RunVerdict::Pass), false), 0);
    assert_eq!(closing_exit_code(Some(RunVerdict::Pass), true), 32);
    assert_eq!(closing_exit_code(Some(RunVerdict::Fail), false), 32);
    assert_eq!(closing_exit_code(None, false), 32);
    assert_eq!(final_exit_code(Some(32)), 32);
    assert_eq!(final_exit_code(None), 70);
}

#[test]
fn reasons_say_what_was_lost() {
    assert_eq!(
        missing_override_reason("root//x:t"),
        "cgroup memory override target was not received: root//x:t"
    );
    assert_eq!(
        malformed_spec_reason(None, SpecError::MissingTarget),
        "dropping malformed spec for <unknown target>: ExternalRunnerSpec missing target"
    );
    assert_eq!(lost_target_reason("t", Some("boom")), "target t panicked: boom");
    assert_eq!(lost_target_reason("t", None), "target t panicked: non-string panic payload");
    assert_eq!(lost_action_reason(), "a test action task panicked");
}

#[test]
fn help_goes_before_a_usage_error() {
    let mut config = config_of(&[]);
    assert_eq!(opening(&config), Opening::RunTargets);
    assert_eq!(opening(&config).exit_code(), None);
    config.libtest_usage_error = Some("no".to_owned());
    assert_eq!(opening(&config), Opening::RefuseUsage("error: no".to_owned()));
    assert_eq!(opening(&config).exit_code(), Some(32));
    config.libtest_help_only = true;
    assert!(matches!(opening(&config), Opening::ShowHelp(_)));
    assert_eq!(opening(&config).exit_code(), Some(0));
}

fn finished(status: ProcessOutcome, stdout: &[u8], stderr: &[u8]) -> CompletedAction {
    CompletedAction {
        status,
        stdout: stdout.to_vec(),
        stderr: stderr.to_vec(),
        execution_time: Duration::from_millis(1),
        max_memory_used_bytes: None,
        exec_kind: ExecKind::Local,
    }
}

fn listed(answer: Result<Execute2Outcome, String>, infra_attempt: u32) -> ListingStep {
    let config = config_of(&[]);
    let plan = override_validation_plan("rust", &[]);
    let prepared = prepare_listing(&plan, &config, ListFormat::Text, "");
    settle_listing(
        &plan,
        config.cgroup_granularity,
        ListFormat::Text,
        &prepared.token,
        infra_attempt,
        answer,
    )
}

fn listing_failure(answer: Result<Execute2Outcome, String>, infra_attempt: u32) -> (TestVerdict, String) {
    match listed(answer, infra_attempt) {
        ListingStep::Failed { status, details } => (status, details),
        _ => panic!("a failure expected"),
    }
}

#[test]
fn listings_that_fail_say_why() {
    let done = |status, stdout: &[u8], stderr: &[u8]| {
        listing_failure(Ok(Execute2Outcome::Completed(finished(status, stdout, stderr))), 0)
    };
    assert_eq!(
        done(ProcessOutcome::Finished { exit_code: -3 }, b"", b"oops"),
        (TestVerdict::Fatal, "listing exited -3\noops".to_owned())
    );
    assert_eq!(
        done(ProcessOutcome::Finished { exit_code: 0 }, b"\xff", b""),
        (
            TestVerdict::Fatal,
            "listing parse failed: listing output was not valid UTF-8".to_owned()
        )
    );
    assert_eq!(
        done(ProcessOutcome::TimedOut { after: Duration::from_secs(1) }, b"", b""),
        (TestVerdict::Timeout, "listing timed out".to_owned())
    );
    assert_eq!(
        listing_failure(Ok(Execute2Outcome::CancelledUnspecified), 0),
        (TestVerdict::Omitted, "listing cancelled".to_owned())
    );
    assert_eq!(
        listing_failure(Err("down".to_owned()), 0),
        (TestVerdict::Fatal, "listing RPC failed: down".to_owned())
    );
    assert!(matches!(
        listed(Ok(Execute2Outcome::CancelledQueueTimeout), 1),
        ListingStep::Retry { infra_attempt: 2 }
    ));
    assert_eq!(
        listing_failure(Ok(Execute2Outcome::CancelledQueueTimeout), 2),
        (
            TestVerdict::InfraFailure,
            "listing RE queue timeout (retries exhausted)".to_owned()
        )
    );
}

#[test]
fn the_first_marker_of_a_listing_counts() {
    let config = config_of(&[]);
    let plan = override_validation_plan("rust", &[]);
    let prepared = prepare_listing(&plan, &config, ListFormat::Text, "");
    let stderr = format!(
        "quokka resource {0} test action timeout: seconds=1\nquokka resource {0} cgroup setup failure: x\n",
        prepared.token.0
    );
    let action = finished(ProcessOutcome::Finished { exit_code: 0 }, b"a: test\n", stderr.as_bytes());
    match settle_listing(
        &plan,
        config.cgroup_granularity,
        ListFormat::Text,
        &prepared.token,
        0,
        Ok(Execute2Outcome::Completed(action)),
    ) {
        ListingStep::Failed { status, details } => {
            assert_eq!(status, TestVerdict::Timeout);
            assert_eq!(details, "quokka test action timeout: seconds=1");
        }
        _ => panic!("a failure expected"),
    }
}

#[test]
fn listings_name_the_tests() {
    let action = finished(ProcessOutcome::Finished { exit_code: 0 }, b"a: test\nb: benchmark\n", b"");
    match listed(Ok(Execute2Outcome::Completed(action)), 0) {
        ListingStep::Listed(tests) => assert_eq!(tests.len(), 2),
        _ => panic!("tests expected"),
    }
}

#[test]
fn whole_units_are_not_listed() {
    assert!(whole_unit_tests(&override_validation_plan("rust", &[])).is_none());
    let plan = override_validation_plan("python", &[]);
    let tests = whole_unit_tests(&plan).expect("one test");
    assert_eq!(tests.len(), 1);
    assert_eq!(tests[0].name, "<binary>");
    assert!(plan.runs_as_a_whole());
}

#[test]
fn groups_that_never_ran_say_why() {
    let plan = override_validation_plan("rust", &[]);
    let config = config_of(&[]);
    let token = quokka::execution::ResourceMarkerToken("t".to_owned());
    let names = vec!["a".to_owned()];
    let settle = |attempt, answer| {
        settle_group(&plan, config.cgroup_granularity, &names, &token, attempt, answer)
    };
    assert!(matches!(
        settle(0, Ok(Execute2Outcome::CancelledQueueTimeout)),
        GroupStep::Retry { infra_attempt: 1 }
    ));
    for (attempt, answer, status, details) in [
        (
            2,
            Ok(Execute2Outcome::CancelledQueueTimeout),
            TestVerdict::InfraFailure,
            "RE queue timeout (retries exhausted)",
        ),
        (0, Ok(Execute2Outcome::CancelledUnspecified), TestVerdict::Omitted, "run cancelled"),
        (0, Err("x".to_owned()), TestVerdict::Fatal, "Execute2 RPC failed: x"),
    ] {
        match settle(attempt, answer) {
            GroupStep::Done(GroupOutcome::Failed(f)) => {
                assert_eq!(f.status, status);
                assert_eq!(f.details, details);
                assert_eq!(f.disposition, GroupFailureDisposition::Incomplete);
            }
            _ => panic!("a failure expected"),
        }
    }
}

#[test]
fn batches_are_described_by_their_modules() {
    let names = |list: &[&str]| TestSelection::Explicit(list.iter().map(|n| n.to_string()).collect());
    assert_eq!(stage_testcases(&names(&["a::b"])), vec!["a::b".to_owned()]);
    assert!(stage_testcases(&TestSelection::All).is_empty());
    assert_eq!(
        stage_testcases(&names(&["b::x", "a::y", "z", "a::w"])),
        vec!["(root), a, b (4 tests)".to_owned()]
    );
    assert_eq!(
        stage_testcases(&names(&["d::x", "c::x", "b::x", "a::x"])),
        vec!["a, b, c and 1 more (4 tests)".to_owned()]
    );
}

#[test]
fn known_flakes_get_the_attempts_of_the_configuration() {
    let config = QuokkaConfig { flaky_retry: Some(FlakyRetryConfig { attempts: 5 }) };
    assert_eq!(allowed_attempts(RetryPolicy::new(2), &config, true), 5);
    assert_eq!(allowed_attempts(RetryPolicy::new(2), &config, false), 2);
    assert_eq!(allowed_attempts(RetryPolicy::new(7), &config, true), 7);
    assert_eq!(allowed_attempts(RetryPolicy::new(1), &QuokkaConfig::default(), true), 1);
}

#[test]
fn unknown_test_types_are_refused() {
    let spec = sample_target("cobol", &[]);
    let refused = TargetPlan::derive(spec, &config_of(&[]), &TranslatorRegistry::new());
    assert_eq!(
        refused.err().expect("refusal"),
        "no translator registered for test_type 'cobol'"
    );
}

#[test]
fn plans_follow_labels() {
    let plan = override_validation_plan("rust", &["gpu", "large-mem", "timeout=5s", "stress"]);
    assert!(plan.warning.unwrap().starts_with("quokka: conflict resolving labels for root//p:t: "));
    assert_eq!(plan.timeout, Duration::from_secs(5));
    assert!(plan.repeat.is_stress());
}

#[test]
fn output_that_is_no_text_is_shown_with_replacements() {
    let (status, details) = absent_name_verdict(
        ProcessOutcome::Finished { exit_code: 0 },
        false,
        true,
        b"a\xffb  \n",
        b"",
    );
    assert_eq!(status, TestVerdict::Fatal);
    assert_eq!(
        details,
        "harness exited 0 but emitted no parseable result for this test\n---- stdout ----\na\u{fffd}b"
    );
}

#[test]
fn only_first_calls_of_seen_tests_are_cached() {
    let plan = override_validation_plan("rust", &[]);
    let mut config = config_of(&[]);
    let names = vec!["a".to_owned()];
    let selection = TestSelection::Explicit(names.clone());
    let uncached = |config: &RunnerConfig, first, infra, estimate| {
        prepare_group(&plan, config, &selection, &names, 0, first, infra, &[estimate], "")
            .expect("a request")
            .request
            .disable_test_execution_caching
    };
    let seen = DurationEstimate::Measured { p50_ms: 1, p95_ms: 2 };
    config.duration_db = DurationDbConfig::Persistent("/db".to_owned());
    assert!(!uncached(&config, 0, 0, seen));
    assert!(uncached(&config, 1, 0, seen));
    assert!(uncached(&config, 0, 1, seen));
    assert!(uncached(&config, 0, 0, DurationEstimate::Unseen));
    config.duration_db = DurationDbConfig::Disabled;
    assert!(!uncached(&config, 0, 0, DurationEstimate::Unseen));
    assert_eq!(group_attempt(2, 1), 3);
    assert_eq!(group_attempt(u32::MAX, 1), u32::MAX);
}

#[test]
fn a_count_of_no_shards_keeps_every_test() {
    let mut config = config_of(&[]);
    config.shard.count = 0;
    let tests = vec![TestCase::new("a".to_owned(), TestCaseKind::Test, false)];
    assert_eq!(shard_filter("root//x:t", &tests, &config), tests);
}

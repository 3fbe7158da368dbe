//! The command line: what is read, what is resolved, and what is refused.

use quokka::batching::{BatchFailurePolicy, BatchMode};
use quokka::cli::{
    self, invocation_from, outer_cli, tpx_config, CliError, DurationDbConfig, Invocation, MemoryMaxEnv,
    Surroundings, Transport,
};
use quokka::config::{FlakyRetryConfig, QuokkaConfig};
use quokka::execution::{CgroupGranularity, CgroupMemoryMax};
use quokka::listing::IgnoredPolicy;
use quokka::num::{NonZeroU32, NonZeroU64, NonZeroUsize};
use quokka::options::{read_arguments, OptionSpec, Takes};
use quokka::time::Duration;
use quokka::translator::{ListFormat, RunFormat};
use quokka::variant::{RepeatKind, Variant};

fn argv(items: &[&str]) -> Vec<String> {
    items.iter().map(|s| s.to_string()).collect()
}

fn surroundings() -> Surroundings {
    Surroundings { memory_max: MemoryMaxEnv::NotPresent, quokka_config: QuokkaConfig::default() }
}

fn parse(argv: Vec<String>) -> Result<Invocation, CliError> {
    cli::parse(argv, &surroundings())
}

#[test]
fn parses_buck2_exact_arg_shape() {
    // The literal vector that the build tool sends.
    let inv = parse(argv(&[
        "quokka",
        "--buck-trace-id",
        "abc-123",
        "--config-entry",
        "host=linux",
        "--config-entry",
        "config=foo;bar",
        "--executor-fd",
        "7",
        "--orchestrator-fd",
        "9",
        "--",
        "ignored",
        "--buck-test-info",
        "ignored",
    ]))
    .expect("must parse the build tool's arg shape");
    match inv.transport {
        Transport::UnixFds {
            executor_fd,
            orchestrator_fd,
        } => {
            assert_eq!(executor_fd, 7);
            assert_eq!(orchestrator_fd, 9);
        }
        _ => panic!("expected unix fds"),
    }
    assert_eq!(inv.context.trace_id.as_deref(), Some("abc-123"));
    assert_eq!(inv.context.host_platform.as_deref(), Some("linux"));
    // Defaults.
    assert_eq!(inv.config.per_test_timeout, Duration::from_secs(600));
    assert_eq!(
        inv.config.cgroup_granularity,
        CgroupGranularity::Action
    );
    assert_eq!(inv.config.ignored, IgnoredPolicy::ExcludeIgnored);
    assert_eq!(inv.config.run_format, RunFormat::Json);
    // Default batching chunks tests to amortize per-action overhead.
    assert_eq!(
        inv.config.batch_mode,
        BatchMode::FixedChunk {
            size: NonZeroUsize::new(32).unwrap()
        }
    );
    // Scheduler concurrency limits fall back to their defaults.
    assert_eq!(inv.config.limits.max_inflight_listings, 256);
    assert_eq!(inv.config.limits.max_inflight_test_actions, 2_000);
    assert_eq!(inv.config.limits.max_inflight_per_target, 128);
}

#[test]
fn inflight_limits_are_configurable_and_clamped() {
    let inv = parse(argv(&[
        "runner",
        "--executor-fd",
        "7",
        "--orchestrator-fd",
        "9",
        "--",
        "ignored",
        "--max-inflight-test-actions",
        "50",
        "--max-inflight-listings",
        "30720",
        "--max-inflight-per-target",
        "0",
        "--cgroup-granularity",
        "action",
    ]))
    .unwrap();
    assert_eq!(inv.config.limits.max_inflight_listings, 30_720);
    assert_eq!(inv.config.limits.max_inflight_test_actions, 50);
    // Zero would deadlock the scheduler (a semaphore with no permits), so it
    // is clamped up to one.
    assert_eq!(inv.config.limits.max_inflight_per_target, 1);
    assert_eq!(
        inv.config.cgroup_granularity,
        CgroupGranularity::Action
    );
}

#[test]
fn parses_no_duration_db_flag() {
    let inv = parse(argv(&[
        "runner",
        "--executor-fd",
        "1",
        "--orchestrator-fd",
        "2",
        "--",
        "ignored",
        "--no-duration-db",
    ]))
    .expect("must parse duration DB disable flag");
    assert_eq!(inv.config.duration_db, DurationDbConfig::Disabled);
}

#[test]
fn rejects_conflicting_duration_db_flags() {
    let err = parse(argv(&[
        "runner",
        "--executor-fd",
        "1",
        "--orchestrator-fd",
        "2",
        "--",
        "ignored",
        "--duration-db",
        "/tmp/quokka-db",
        "--no-duration-db",
    ]))
    .unwrap_err();
    assert!(matches!(err, CliError::ConflictingDurationDbFlags));
}

#[test]
fn duration_db_auto_resolution_preserves_disabled_state() {
    let mut auto = DurationDbConfig::Auto;
    auto.resolve_auto(Some("/tmp/quokka-db".to_owned()));
    assert_eq!(
        auto,
        DurationDbConfig::Persistent("/tmp/quokka-db".to_owned())
    );

    let mut disabled = DurationDbConfig::Disabled;
    disabled.resolve_auto(Some("/tmp/quokka-db".to_owned()));
    assert_eq!(disabled, DurationDbConfig::Disabled);
}

#[test]
fn fixed_chunk_size_is_configurable() {
    let inv = parse(argv(&[
        "runner",
        "--executor-fd",
        "7",
        "--orchestrator-fd",
        "9",
        "--",
        "ignored",
        "--chunk-size",
        "32",
    ]))
    .unwrap();
    assert_eq!(
        inv.config.batch_mode,
        BatchMode::FixedChunk {
            size: NonZeroUsize::new(32).unwrap()
        }
    );
}

#[test]
fn tcp_transport_and_feature_flags() {
    let inv = parse(argv(&[
        "runner",
        "--executor-addr",
        "127.0.0.1:5001",
        "--orchestrator-addr",
        "127.0.0.1:5002",
        "--",
        "ignored",
        "--include-ignored",
        "--batch-mode",
        "duration-bucketed",
        "--batch-threshold-ms",
        "30",
        "--stress",
        "5",
        "--shard-index",
        "1",
        "--shard-count",
        "4",
        "--local-debug",
    ]))
    .unwrap();
    assert!(matches!(inv.transport, Transport::Tcp { .. }));
    assert_eq!(inv.config.ignored, IgnoredPolicy::IncludeIgnored);
    assert_eq!(
        inv.config.batch_mode,
        BatchMode::DurationBucketed { p50_lt_ms: 30 }
    );
    assert!(inv.config.stress.is_stress());
    assert_eq!(inv.config.shard.index, 1);
    assert_eq!(inv.config.shard.count, 4);
    assert!(inv.config.local_debug);
}

#[test]
fn ignored_only_with_text_listing_is_rejected() {
    let err = parse(argv(&[
        "runner",
        "--executor-fd",
        "1",
        "--orchestrator-fd",
        "2",
        "--",
        "ignored",
        "--ignored-only",
        "--list-format",
        "text",
    ]))
    .unwrap_err();
    assert!(matches!(err, CliError::IgnoredOnlyNeedsJsonListing));
}

#[test]
fn standard_libtest_args_are_accepted_directly() {
    let inv = parse(argv(&[
        "runner",
        "--executor-fd",
        "1",
        "--orchestrator-fd",
        "2",
        "--",
        "ignored",
        "alpha",
        "--exact",
        "--skip",
        "beta",
        "--no-capture",
        "--ignored",
    ]))
    .unwrap();
    assert_eq!(inv.config.ignored, IgnoredPolicy::IgnoredOnly);
    assert_eq!(
        inv.config.direct_libtest_args,
        vec![
            "alpha".to_owned(),
            "--exact".to_owned(),
            "--skip".to_owned(),
            "beta".to_owned(),
            "--no-capture".to_owned()
        ]
    );
    assert!(inv.config.extra_test_args.is_empty());
}

#[test]
fn buck_test_arg_equals_shape_is_passthrough() {
    let inv = parse(argv(&[
        "runner",
        "--executor-fd",
        "1",
        "--orchestrator-fd",
        "2",
        "--",
        "ignored",
        "--test-arg=--list",
    ]))
    .unwrap();
    assert!(inv.config.libtest_list_only);
    assert_eq!(inv.config.extra_test_args, vec!["--list".to_owned()]);
}

#[test]
fn libtest_help_is_a_runner_level_request() {
    let inv = parse(argv(&[
        "runner",
        "--executor-fd",
        "1",
        "--orchestrator-fd",
        "2",
        "--",
        "ignored",
        "--help",
        "--format",
        "json",
    ]))
    .unwrap();
    assert!(inv.config.libtest_help_only);
    assert_eq!(inv.config.libtest_usage_error, None);
}

#[test]
fn libtest_format_usage_errors_match_libtest() {
    let json_without_unstable = parse(argv(&[
        "runner",
        "--executor-fd",
        "1",
        "--orchestrator-fd",
        "2",
        "--",
        "ignored",
        "--format=json",
    ]))
    .unwrap();
    assert_eq!(
        json_without_unstable.config.libtest_usage_error.as_deref(),
        Some(
            "The \"json\" format is only accepted on the nightly compiler with -Z unstable-options"
        )
    );

    let junit_with_unstable = parse(argv(&[
        "runner",
        "--executor-fd",
        "1",
        "--orchestrator-fd",
        "2",
        "--",
        "ignored",
        "--format",
        "junit",
        "-Z",
        "unstable-options",
    ]))
    .unwrap();
    assert_eq!(junit_with_unstable.config.libtest_usage_error, None);

    let invalid = parse(argv(&[
        "runner",
        "--executor-fd",
        "1",
        "--orchestrator-fd",
        "2",
        "--",
        "ignored",
        "--format=nope",
    ]))
    .unwrap();
    assert_eq!(
        invalid.config.libtest_usage_error.as_deref(),
        Some("argument for --format must be pretty, terse, json or junit (was nope)")
    );
}

#[test]
fn buck_test_arg_space_shape_accepts_following_libtest_flags() {
    let inv = parse(argv(&[
        "runner",
        "--executor-fd",
        "1",
        "--orchestrator-fd",
        "2",
        "--",
        "ignored",
        "--test-arg",
        "editor::formula_bar_f2_existing_reference_edges",
        "--exact",
        "--nocapture",
    ]))
    .unwrap();
    assert_eq!(
        inv.config.extra_test_args,
        vec!["editor::formula_bar_f2_existing_reference_edges".to_owned()]
    );
    assert_eq!(
        inv.config.direct_libtest_args,
        vec!["--exact".to_owned(), "--no-capture".to_owned()]
    );
}

#[test]
fn repeated_buck_test_arg_filter_shape_is_parsed_one_value_at_a_time() {
    let inv = parse(argv(&[
        "runner",
        "--executor-fd",
        "1",
        "--orchestrator-fd",
        "2",
        "--",
        "ignored",
        "--test-arg",
        "--filter",
        "--test-arg",
        "editor::formula_bar_f2_existing_reference_edges",
        "--test-arg",
        "--exact",
        "--test-arg",
        "--nocapture",
    ]))
    .unwrap();
    assert_eq!(
        inv.config.extra_test_args,
        vec![
            "--filter".to_owned(),
            "editor::formula_bar_f2_existing_reference_edges".to_owned(),
            "--exact".to_owned(),
            "--nocapture".to_owned()
        ]
    );
}

#[test]
fn extra_env_is_parsed() {
    let inv = parse(argv(&[
        "runner",
        "--executor-fd",
        "1",
        "--orchestrator-fd",
        "2",
        "--",
        "ignored",
        "--env",
        "RUST_LOG=debug",
    ]))
    .unwrap();
    assert_eq!(
        inv.config.extra_env,
        vec![("RUST_LOG".to_owned(), "debug".to_owned())]
    );
}

#[test]
fn declared_output_env_is_parsed() {
    let inv = parse(argv(&[
        "runner",
        "--executor-fd",
        "1",
        "--orchestrator-fd",
        "2",
        "--",
        "ignored",
        "--declared-output-env",
        "NOBIE_RUST_TEST_ARTIFACTS_ROOT=rust-test-artifacts",
    ]))
    .unwrap();
    assert_eq!(
        inv.config.declared_output_env,
        vec![(
            "NOBIE_RUST_TEST_ARTIFACTS_ROOT".to_owned(),
            "rust-test-artifacts".to_owned()
        )]
    );
}

#[test]
fn declared_output_env_rejects_empty_parts() {
    let err = parse(argv(&[
        "runner",
        "--executor-fd",
        "1",
        "--orchestrator-fd",
        "2",
        "--",
        "ignored",
        "--declared-output-env",
        "=rust-test-artifacts",
    ]))
    .unwrap_err();
    assert!(matches!(err, CliError::InvalidDeclaredOutputEnv(_)));
}

#[test]
fn missing_transport_errors() {
    let err = parse(argv(&["runner", "--", "ignored"])).unwrap_err();
    assert!(matches!(err, CliError::MissingTransport));
}

#[test]
fn ci_test_report_path_is_explicit() {
    let inv = parse(argv(&[
        "runner",
        "--executor-fd",
        "1",
        "--orchestrator-fd",
        "2",
        "--",
        "ignored",
        "--ci-test-report-json",
        ".tmp/quokka-results.json",
    ]))
    .unwrap();
    assert_eq!(
        inv.config.ci_test_report_json,
        Some(".tmp/quokka-results.json".to_owned())
    );
}

#[test]
fn shard_out_of_range_errors() {
    let err = parse(argv(&[
        "runner",
        "--executor-fd",
        "1",
        "--orchestrator-fd",
        "2",
        "--",
        "ignored",
        "--shard-index",
        "4",
        "--shard-count",
        "4",
    ]))
    .unwrap_err();
    assert!(matches!(err, CliError::ShardOutOfRange { .. }));
}

fn with(args: &[&str]) -> Result<Invocation, CliError> {
    let mut all = vec!["runner", "--executor-fd", "1", "--orchestrator-fd", "2", "--", "ignored"];
    all.extend_from_slice(args);
    parse(argv(&all))
}

fn refusal(args: &[&str]) -> String {
    with(args).unwrap_err().message()
}

#[test]
fn every_refusal_says_why() {
    assert_eq!(
        parse(argv(&["runner"])).unwrap_err().message(),
        "missing transport: provide --executor-fd/--orchestrator-fd or --executor-addr/--orchestrator-addr"
    );
    assert_eq!(refusal(&["--list-format", "xml"]), "invalid list-format: `xml`");
    assert_eq!(
        refusal(&["--ignored-only", "--list-format", "text"]),
        "--ignored-only requires --list-format json: stable text `--list` cannot report a test's ignored status, so an ignored-only run would list and run zero tests"
    );
    assert_eq!(refusal(&["--env", "A"]), "invalid --env entry `A` (expected NAME=VALUE)");
    assert_eq!(
        refusal(&["--declared-output-env", "A="]),
        "invalid --declared-output-env entry `A=` (expected NAME=OUTPUT_DIR with both sides non-empty)"
    );
    assert_eq!(
        refusal(&["--shard-index", "4", "--shard-count", "4"]),
        "--shard-index 4 is out of range for --shard-count 4"
    );
    assert_eq!(
        refusal(&["--duration-db", "x", "--no-duration-db"]),
        "--duration-db and --no-duration-db cannot be used together"
    );
    assert!(matches!(with(&["--no-such-flag"]), Err(CliError::Parse(_))));
    assert!(matches!(with(&["--timeout", "soon"]), Err(CliError::Parse(_))));
}

#[test]
fn values_of_options_are_resolved() {
    let config = with(&[
        "--timeout=5",
        "--listing-timeout",
        "7",
        "--list-format=text",
        "--run-format=text",
        "--batch-mode=target",
        "--batch-failure-policy=fail-all",
        "--variant=asan",
        "--stress=3",
        "--flaky-attempts=9",
        "--cas-inline-limit=11",
        "--duration-db=/tmp/db",
        "--cgroup-memory-max-override=root//x:t|a|max",
    ])
    .unwrap()
    .config;
    assert_eq!(config.per_test_timeout, Duration::from_secs(5));
    assert_eq!(config.listing_timeout, Duration::from_secs(7));
    assert_eq!(config.list_format, ListFormat::Text);
    assert_eq!(config.run_format, RunFormat::Text);
    assert_eq!(config.batch_mode, BatchMode::Target);
    assert_eq!(config.batch_failure_policy, BatchFailurePolicy::FailAll);
    assert_eq!(config.variant, Variant::Asan);
    assert_eq!(config.stress, RepeatKind::Stress(NonZeroU32::new(3).unwrap()));
    assert_eq!(config.flaky_attempts, 9);
    assert_eq!(config.cas_inline_limit, 11);
    assert_eq!(config.duration_db.persistent_path(), Some("/tmp/db"));
    assert_eq!(config.cgroup_memory_max_overrides.len(), 1);
    assert_eq!(config.cgroup_memory_max_overrides[0].memory_max, CgroupMemoryMax::Unlimited);
    assert!(config.effective_libtest_args().is_empty());
}

#[test]
fn the_environment_sets_the_memory_limit() {
    let args = argv(&["runner", "--executor-fd", "1", "--orchestrator-fd", "2"]);
    let read = |memory_max: MemoryMaxEnv| {
        cli::parse(
            args.clone(),
            &Surroundings {
                memory_max,
                quokka_config: QuokkaConfig { flaky_retry: Some(FlakyRetryConfig { attempts: 4 }) },
            },
        )
    };
    let config = read(MemoryMaxEnv::Value("4096".to_owned())).unwrap().config;
    assert_eq!(config.cgroup_memory_max, CgroupMemoryMax::Bytes(NonZeroU64::new(4096).unwrap()));
    assert_eq!(config.quokka_config.flaky_retry, Some(FlakyRetryConfig { attempts: 4 }));
    assert!(read(MemoryMaxEnv::Value("none".to_owned())).is_err());
    assert!(read(MemoryMaxEnv::NotUnicode("?".to_owned())).is_err());
}

#[test]
fn limits_are_never_zero() {
    let limits = with(&[
        "--max-inflight-test-actions",
        "0",
        "--max-inflight-listings",
        "0",
        "--max-inflight-per-target",
        "0",
    ])
    .unwrap()
    .config
    .limits;
    assert_eq!(limits.max_inflight_test_actions, 1);
    assert_eq!(limits.max_inflight_listings, 1);
    assert_eq!(limits.max_inflight_per_target, 1);
}

#[test]
fn numbers_are_read_from_their_texts() {
    let given = |pairs: &[(&str, &str)]| -> Vec<(String, Vec<String>)> {
        pairs.iter().map(|(k, v)| (k.to_string(), vec![v.to_string()])).collect()
    };
    let outer = outer_cli(&given(&[("executor-fd", "-3"), ("orchestrator-addr", "x")])).unwrap();
    assert_eq!(outer.executor_fd, Some(-3));
    assert_eq!(outer.orchestrator_fd, None);
    assert_eq!(outer.orchestrator_addr.as_deref(), Some("x"));
    assert!(matches!(
        outer_cli(&given(&[("orchestrator-fd", "x")])),
        Err(CliError::InvalidValue { field: "orchestrator-fd", value }) if value == "x"
    ));
    assert!(matches!(
        tpx_config(&given(&[("timeout", "ten")])),
        Err(CliError::InvalidValue { field: "timeout", value }) if value == "ten"
    ));
}

#[test]
fn options_that_do_not_stand_alone_are_left_out() {
    let flag = OptionSpec {
        id: "x",
        short: Some('x'),
        long: None,
        alias: None,
        value_name: "X",
        takes: Takes::Nothing,
        default: None,
        hyphens: false,
    };
    let table = vec![
        OptionSpec { id: "hyphen", short: Some('-'), ..flag },
        OptionSpec { id: "long", short: None, long: Some("-long"), ..flag },
        OptionSpec { id: "nameless", short: None, ..flag },
        OptionSpec { id: "half", hyphens: true, ..flag },
        flag,
        OptionSpec { id: "again", ..flag },
    ];
    assert_eq!(
        read_arguments(&table, &argv(&["program", "-x"])),
        Ok(vec![("x".to_owned(), vec!["true".to_owned()])])
    );
    assert!(read_arguments(&table, &argv(&["program", "--y"])).is_err());
}

#[test]
fn the_first_refusal_is_told() {
    let refused = |text: &str| Err(text.to_owned());
    let told = |outer, tpx| match invocation_from(outer, tpx, &surroundings()) {
        Err(CliError::Parse(message)) => message,
        other => panic!("{other:?}"),
    };
    assert_eq!(told(refused("outer"), refused("inner")), "outer");
    assert_eq!(told(Ok(Vec::new()), refused("inner")), "inner");
}

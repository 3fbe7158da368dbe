//! Requests to the build tool and the markers in what comes back.

use quokka::caching::TestExecutionCaching;
use quokka::environment::{HostExclusivity, SchedulingProfile};
use quokka::execution::{
    build_cmd, build_env, build_listing_request, build_test_env, build_testing_request,
    cgroup_memory_max_for_action, parse_resource_failures, shell_quote, supervised_action_timeout,
    CgroupGranularity, CgroupMemoryMax, CgroupMemoryMaxOverride, LogicalCommand, ResourceFailure,
    ResourceMarkerToken, TestingRequest,
};
use quokka::ids::TargetHandle;
use quokka::num::NonZeroU64;
use quokka::proto::{
    ArgContent, ArgValue, ArgValueContent, ConfiguredTarget, ConfiguredTargetHandle,
    ExecutorConfigOverride, ExternalRunnerSpec, ExternalRunnerSpecValue, HostSharing, OutputName,
    SpecValue, StageItem,
};
use quokka::spec::{can_be_read, values_are_present, CommandArg, SpecError, TargetSpec};
use quokka::time::Duration;
use quokka::variant::Variant;

const SUPERVISOR: &str = "run_logical() { :; }\n";

fn spec_with_handle_command() -> TargetSpec {
    TargetSpec {
        handle: TargetHandle(9),
        suite: "foo".into(),
        display: "root//x:foo".into(),
        target_platform: None,
        test_type: "rust".into(),
        command: vec![
            CommandArg::ArgHandle(3),
            CommandArg::Verbatim("--nocapture".into()),
        ],
        env: vec![(
            "RUST_BACKTRACE".to_owned(),
            CommandArg::Verbatim("short".into()),
        )],
        labels: vec![],
        contacts: vec![],
        oncall: None,
    }
}

fn logical(appended: Vec<String>) -> Vec<LogicalCommand> {
    vec![LogicalCommand { index: 0, appended }]
}

#[test]
fn cgroup_memory_override_is_exact_and_singleton() {
    let override_value =
        CgroupMemoryMaxOverride::parse("root//x:tests|suite::large|3221225472").unwrap();
    let overrides = [override_value];
    let selected = vec!["suite::large".to_owned()];
    assert_eq!(
        cgroup_memory_max_for_action(
            CgroupMemoryMax::default(),
            &overrides,
            "root//x:tests",
            &selected,
        )
        .unwrap(),
        CgroupMemoryMax::Bytes(NonZeroU64::new(3_221_225_472).unwrap()),
    );
    assert_eq!(
        cgroup_memory_max_for_action(
            CgroupMemoryMax::default(),
            &overrides,
            "root//x:tests",
            &["suite::small".to_owned()],
        )
        .unwrap(),
        CgroupMemoryMax::default(),
    );
    assert!(CgroupMemoryMaxOverride::parse("root//x:tests||3221225472").is_none());
    assert!(CgroupMemoryMaxOverride::parse("root//x:tests|suite::large|0").is_none());
}

#[test]
fn cgroup_memory_override_rejects_batched_action() {
    let overrides =
        [CgroupMemoryMaxOverride::parse("root//x:tests|suite::large|3221225472").unwrap()];
    let tests = vec!["suite::large".to_owned(), "suite::small".to_owned()];
    let result = cgroup_memory_max_for_action(
        CgroupMemoryMax::default(),
        &overrides,
        "root//x:tests",
        &tests,
    );
    assert_eq!(
        result,
        Err("a cgroup memory override requires a singleton test action".to_owned())
    );
}

#[test]
fn echoes_handles_unmodified_and_appends_verbatim() {
    let spec = spec_with_handle_command();
    let req = build_testing_request(TestingRequest {
        target: ConfiguredTargetHandle { id: spec.handle.0 },
        suite: spec.suite.clone(),
        testcases: vec!["m::t".into()],
        base_command: build_cmd(&spec, &[]),
        commands: logical(vec!["m::t".into(), "--exact".into()]),
        env: build_env(&spec, &[("RUST_LOG".to_owned(), "debug".to_owned())]),
        variant: Variant::Default.identity(),
        repeat_count: None,
        profile: SchedulingProfile::default(),
        caching: TestExecutionCaching::Enabled,
        logical_timeout: Duration::from_secs(60),
        cgroup_granularity: CgroupGranularity::LogicalTest,
        cgroup_memory_max: CgroupMemoryMax::default(),
        resource_marker_token: ResourceMarkerToken("test-1".to_owned()),
        supervisor: SUPERVISOR.to_owned(),
    });
    let exec = req.test_executable.unwrap();
    // The runner-supplied --env appears as a verbatim env var after the
    // spec's own (RUST_BACKTRACE) handle.
    let rust_log = exec
        .env
        .iter()
        .find(|e| e.key == "RUST_LOG")
        .expect("extra env applied");
    match &rust_log
        .value
        .as_ref()
        .unwrap()
        .content
        .as_ref()
        .unwrap()
        .value
    {
        Some(ArgContent::SpecValue(ExternalRunnerSpecValue {
            value: Some(SpecValue::Verbatim(v)),
        })) => assert_eq!(v, "debug"),
        _ => panic!("extra env not verbatim"),
    }
    let cmd = exec.cmd;
    // The supervised command still echoes the ArgHandle(3) unmodified.
    match &cmd[4].content.as_ref().unwrap().value {
        Some(ArgContent::SpecValue(ExternalRunnerSpecValue {
            value: Some(SpecValue::ArgHandle(h)),
        })) => assert_eq!(*h, 3),
        _ => panic!("handle not echoed"),
    }
    // Appended verbatim args carry no format.
    assert!(cmd.iter().all(|a| a.format.is_none()));
    // host sharing populated.
    assert!(req.host_sharing_requirements.is_some());
    assert!(!req.disable_test_execution_caching);
}

#[test]
fn declared_output_env_uses_buck_output_handle() {
    let spec = spec_with_handle_command();
    let declared_output_env = vec![(
        "NOBIE_RUST_TEST_ARTIFACTS_ROOT".to_owned(),
        "rust-test-artifacts".to_owned(),
    )];
    let req = build_testing_request(TestingRequest {
        target: ConfiguredTargetHandle { id: spec.handle.0 },
        suite: spec.suite.clone(),
        testcases: vec!["m::t".into()],
        base_command: build_cmd(&spec, &[]),
        commands: logical(vec![]),
        env: build_test_env(&spec, &[], &declared_output_env),
        variant: Variant::Default.identity(),
        repeat_count: None,
        profile: SchedulingProfile::default(),
        caching: TestExecutionCaching::Enabled,
        logical_timeout: Duration::from_secs(60),
        cgroup_granularity: CgroupGranularity::LogicalTest,
        cgroup_memory_max: CgroupMemoryMax::default(),
        resource_marker_token: ResourceMarkerToken("test-2".to_owned()),
        supervisor: SUPERVISOR.to_owned(),
    });
    let exec = req.test_executable.unwrap();
    assert_eq!(exec.pre_create_dirs, Vec::new());
    let artifact_root = exec
        .env
        .iter()
        .find(|e| e.key == "NOBIE_RUST_TEST_ARTIFACTS_ROOT")
        .expect("declared output env applied");
    match &artifact_root
        .value
        .as_ref()
        .unwrap()
        .content
        .as_ref()
        .unwrap()
        .value
    {
        Some(ArgContent::DeclaredOutput(OutputName { name })) => {
            assert_eq!(name, "rust-test-artifacts")
        }
        _ => panic!("declared output env not encoded as declared output"),
    }
}

#[test]
fn stress_sets_repeat_count_and_disables_cache() {
    let spec = spec_with_handle_command();
    let req = build_testing_request(TestingRequest {
        target: ConfiguredTargetHandle { id: spec.handle.0 },
        suite: spec.suite.clone(),
        testcases: vec!["m::t".into()],
        base_command: build_cmd(&spec, &[]),
        commands: logical(vec![]),
        env: build_env(&spec, &[]),
        variant: Variant::Default.identity(),
        repeat_count: Some(4),
        profile: SchedulingProfile::default(),
        caching: TestExecutionCaching::Disabled,
        logical_timeout: Duration::from_secs(60),
        cgroup_granularity: CgroupGranularity::LogicalTest,
        cgroup_memory_max: CgroupMemoryMax::default(),
        resource_marker_token: ResourceMarkerToken("test-3".to_owned()),
        supervisor: SUPERVISOR.to_owned(),
    });
    let stage = req.test_executable.unwrap().stage.unwrap().item.unwrap();
    match stage {
        StageItem::Testing(t) => assert_eq!(t.repeat_count, Some(4)),
        _ => panic!("expected testing stage"),
    }
    assert!(req.disable_test_execution_caching);
}

#[test]
fn listing_request_is_uncacheable_with_suite() {
    let spec = spec_with_handle_command();
    let mut profile = SchedulingProfile::default();
    profile.hardware.listing_only = true;
    let req = build_listing_request(
        &spec,
        &["--list".into()],
        &profile,
        Duration::from_secs(60),
        CgroupGranularity::LogicalTest,
        CgroupMemoryMax::default(),
        &ResourceMarkerToken("listing-test".to_owned()),
        &[],
        SUPERVISOR,
    );
    let stage = req.test_executable.unwrap().stage.unwrap().item.unwrap();
    match stage {
        StageItem::Listing(l) => {
            assert_eq!(l.suite, "foo");
            assert!(!l.cacheable);
        }
        _ => panic!("expected listing stage"),
    }
    assert_eq!(
        req.executor_override,
        Some(ExecutorConfigOverride {
            name: "rust-listing".into()
        })
    );
}

#[test]
fn resource_markers_decode_to_typed_failures() {
    let token = ResourceMarkerToken("expected".to_owned());
    let stderr = b"quokka logical test timeout: index=2 seconds=300\nquokka resource spoof logical test timeout: index=1 seconds=300\nquokka resource expected logical test timeout: index=2 seconds=300\nquokka resource expected logical test cgroup OOM: index=7 memory.max=1572864000 oom=0->1 oom_kill=0->1\nquokka resource expected test action timeout: seconds=300\nquokka resource expected test action cgroup OOM: memory.max=1572864000 oom=0->1 oom_kill=0->1\nquokka resource expected cgroup setup failure: no delegation\n";
    assert_eq!(
        parse_resource_failures(stderr, &token),
        vec![
            ResourceFailure::LogicalTimeout {
                index: 2,
                details: "quokka logical test timeout: index=2 seconds=300".to_owned(),
            },
            ResourceFailure::LogicalOom {
                index: 7,
                details: "quokka logical test cgroup OOM: index=7 memory.max=1572864000 oom=0->1 oom_kill=0->1".to_owned(),
            },
            ResourceFailure::ActionTimeout {
                details: "quokka test action timeout: seconds=300".to_owned(),
            },
            ResourceFailure::ActionOom {
                details: "quokka test action cgroup OOM: memory.max=1572864000 oom=0->1 oom_kill=0->1".to_owned(),
            },
            ResourceFailure::Setup {
                details: "quokka cgroup setup failure: no delegation".to_owned(),
            },
        ]
    );
}

#[test]
fn malformed_logical_resource_markers_are_explicit_and_fail_closed() {
    let token = ResourceMarkerToken("malformed".to_owned());
    let stderr = b"quokka resource malformed logical test timeout: seconds=300
quokka resource malformed logical test cgroup OOM: index=not-a-number memory.max=1
quokka resource malformed logical test timeout: index=184467440737095516160 seconds=300
quokka resource malformed logical test timeout: index=1 seconds=300
";
    assert_eq!(
        parse_resource_failures(stderr, &token),
        vec![
            ResourceFailure::Malformed {
                details: "quokka logical test timeout: seconds=300".to_owned(),
            },
            ResourceFailure::Malformed {
                details: "quokka logical test cgroup OOM: index=not-a-number memory.max=1"
                    .to_owned(),
            },
            ResourceFailure::Malformed {
                details: "quokka logical test timeout: index=184467440737095516160 seconds=300"
                    .to_owned(),
            },
            ResourceFailure::LogicalTimeout {
                index: 1,
                details: "quokka logical test timeout: index=1 seconds=300".to_owned(),
            },
        ]
    );
}

#[test]
fn target_environment_cannot_change_the_supervisor_memory_limit() {
    let spec = spec_with_handle_command();
    let request = build_testing_request(TestingRequest {
        target: ConfiguredTargetHandle { id: spec.handle.0 },
        suite: spec.suite.clone(),
        testcases: vec!["m::t".into()],
        base_command: build_cmd(&spec, &[]),
        commands: logical(vec![]),
        env: build_env(
            &spec,
            &[(
                "NOBIE_RUST_TEST_CGROUP_MEMORY_MAX_BYTES".to_owned(),
                "max".to_owned(),
            )],
        ),
        variant: Variant::Default.identity(),
        repeat_count: None,
        profile: SchedulingProfile::default(),
        caching: TestExecutionCaching::Enabled,
        logical_timeout: Duration::from_secs(60),
        cgroup_granularity: CgroupGranularity::Action,
        cgroup_memory_max: CgroupMemoryMax::default(),
        resource_marker_token: ResourceMarkerToken("memory-test".to_owned()),
        supervisor: SUPERVISOR.to_owned(),
    });
    let script = request
        .test_executable
        .unwrap()
        .cmd
        .into_iter()
        .filter_map(|arg| arg.content?.value)
        .find_map(|value| match value {
            ArgContent::SpecValue(ExternalRunnerSpecValue {
                value: Some(SpecValue::Verbatim(value)),
            }) if value.contains("quokka_memory_max_value=") => Some(value),
            _ => None,
        })
        .unwrap();
    assert!(script.contains("quokka_memory_max_value='1572864000'"));
    assert!(!script.contains("NOBIE_RUST_TEST_CGROUP_MEMORY_MAX_BYTES"));
}

#[test]
fn stable_action_identity_preserves_the_complete_request() {
    let spec = spec_with_handle_command();
    let build = || {
        build_testing_request(TestingRequest {
            target: ConfiguredTargetHandle { id: spec.handle.0 },
            suite: spec.suite.clone(),
            testcases: vec!["m::t".into()],
            base_command: build_cmd(&spec, &[]),
            commands: logical(vec!["m::t".into(), "--exact".into()]),
            env: build_env(&spec, &[]),
            variant: Variant::Default.identity(),
            repeat_count: None,
            profile: SchedulingProfile::default(),
            caching: TestExecutionCaching::Enabled,
            logical_timeout: Duration::from_secs(60),
            cgroup_granularity: CgroupGranularity::Action,
            cgroup_memory_max: CgroupMemoryMax::default(),
            resource_marker_token: ResourceMarkerToken::from_stable_fields(
                "testing",
                &["root//x:foo", "m::t", "--exact"],
            ),
            supervisor: SUPERVISOR.to_owned(),
        })
    };

    assert_eq!(build(), build());
}

#[test]
fn action_timeout_leaves_transport_grace_after_logical_deadlines() {
    assert_eq!(
        supervised_action_timeout(Duration::from_secs(300), 32),
        Duration::from_secs(9_660)
    );
}

#[test]
fn shell_quote_preserves_arbitrary_verbatim_arguments() {
    assert_eq!(shell_quote("plain"), "'plain'");
    assert_eq!(
        shell_quote("space and 'quote'"),
        "'space and '\"'\"'quote'\"'\"''"
    );
}

fn request(profile: SchedulingProfile) -> TestingRequest {
    let spec = spec_with_handle_command();
    TestingRequest {
        target: ConfiguredTargetHandle { id: spec.handle.0 },
        suite: spec.suite.clone(),
        testcases: vec!["m::t".into()],
        base_command: build_cmd(&spec, &[]),
        commands: logical(vec!["it's".into()]),
        env: build_env(&spec, &[]),
        variant: None,
        repeat_count: None,
        profile,
        caching: TestExecutionCaching::Enabled,
        logical_timeout: Duration::from_secs(60),
        cgroup_granularity: CgroupGranularity::Action,
        cgroup_memory_max: CgroupMemoryMax::Unlimited,
        resource_marker_token: ResourceMarkerToken("tok".to_owned()),
        supervisor: SUPERVISOR.to_owned(),
    }
}

#[test]
fn requests_run_where_the_profile_says() {
    let mut profile = SchedulingProfile::default();
    profile.hardware.requires_gpu = true;
    profile.exclusivity = HostExclusivity::Exclusive;
    profile.local_resources = profile.local_resources.with("redis".to_owned());
    let request = build_testing_request(request(profile));
    assert_eq!(
        request.host_sharing_requirements.unwrap().requirements,
        Some(HostSharing::ExclusiveAccess)
    );
    assert_eq!(request.required_local_resources[0].name, "redis");
    assert!(request.executor_override.is_some());
    let timeout = request.timeout.unwrap();
    assert_eq!((timeout.seconds, timeout.nanos), (120, 0));
}

#[test]
fn appended_arguments_are_quoted_for_the_shell() {
    let request = build_testing_request(request(SchedulingProfile::default()));
    let script = request
        .test_executable
        .unwrap()
        .cmd
        .into_iter()
        .filter_map(|arg| arg.content?.value)
        .find_map(|value| match value {
            ArgContent::SpecValue(ExternalRunnerSpecValue {
                value: Some(SpecValue::Verbatim(value)),
            }) if value.contains(SUPERVISOR) => Some(value),
            _ => None,
        })
        .unwrap();
    assert!(script.contains("'it'\"'\"'s'"), "{script}");
    assert!(script.contains("quokka_memory_max_value='max'"), "{script}");
}

#[test]
fn tokens_tell_actions_apart() {
    let a = ResourceMarkerToken::from_stable_fields("testing", &["root//x:foo", "a"]);
    let b = ResourceMarkerToken::from_stable_fields("testing", &["root//x:foo", "b"]);
    let c = ResourceMarkerToken::from_stable_fields("testing", &["root//x:fooa", ""]);
    assert_ne!(a, b);
    assert_ne!(a, c);
    assert_eq!(a.0.len(), 16);
}

#[test]
fn memory_limits_are_read_exactly() {
    assert_eq!(CgroupMemoryMax::parse("max"), Some(CgroupMemoryMax::Unlimited));
    assert_eq!(
        CgroupMemoryMax::parse("12"),
        Some(CgroupMemoryMax::Bytes(NonZeroU64::new(12).unwrap()))
    );
    assert_eq!(CgroupMemoryMax::parse("0"), None);
    assert_eq!(CgroupMemoryMax::parse("12k"), None);
    let parsed = CgroupMemoryMaxOverride::parse("t|a|b|7");
    assert_eq!(parsed, None);
}

#[test]
fn foreign_markers_are_ignored() {
    let token = ResourceMarkerToken("mine".to_owned());
    let stderr = b"quokka resource yours test action timeout: seconds=1\n\xff\xfe\nplain\n";
    assert!(parse_resource_failures(stderr, &token).is_empty());
}

#[test]
fn requests_do_not_depend_on_the_order_of_the_environment() {
    let variable = |key: &str, text: &str| {
        (
            key.to_owned(),
            ExternalRunnerSpecValue { value: Some(SpecValue::Verbatim(text.to_owned())) },
        )
    };
    let read = |env: Vec<(String, ExternalRunnerSpecValue)>| {
        let mut spec = ExternalRunnerSpec::default();
        spec.target = Some(ConfiguredTarget {
            handle: Some(ConfiguredTargetHandle { id: 1 }),
            cell: "root".to_owned(),
            package: "p".to_owned(),
            target: "t".to_owned(),
            configuration: String::new(),
            package_project_relative_path: String::new(),
            test_config_unification_rollout: false,
            package_oncall: None,
        });
        spec.command.push(ExternalRunnerSpecValue { value: Some(SpecValue::ArgHandle(9)) });
        spec.env = env;
        assert!(values_are_present(&spec));
        TargetSpec::from_proto(spec).expect("a target")
    };
    let one = read(vec![variable("B", "2"), variable("A", "1"), variable("C", "3")]);
    let other = read(vec![variable("C", "3"), variable("B", "2"), variable("A", "1")]);
    assert_eq!(one.env, other.env);
    assert_eq!(one.env[0], ("A".to_owned(), CommandArg::Verbatim("1".to_owned())));
    // The command is handed back as it came, before what is appended.
    let cmd = build_cmd(&one, &["--list".to_owned()]);
    assert_eq!(
        cmd[0],
        ArgValue {
            content: Some(ArgValueContent {
                value: Some(ArgContent::SpecValue(ExternalRunnerSpecValue {
                    value: Some(SpecValue::ArgHandle(9)),
                })),
            }),
            format: None,
        }
    );
    assert_eq!(cmd.len(), 2);
}

#[test]
fn tokens_hash_lengths_as_the_machine_has_them() {
    let mut hash: u64 = 0xcbf2_9ce4_8422_2325;
    for field in ["testing", "root//x:foo", ""] {
        for byte in field.len().to_le_bytes().iter().chain(field.as_bytes()) {
            hash = (hash ^ u64::from(*byte)).wrapping_mul(0x100_0000_01b3);
        }
    }
    let token = ResourceMarkerToken::from_stable_fields("testing", &["root//x:foo", ""]);
    assert_eq!(token.as_str(), format!("{hash:016x}"));
}

#[test]
fn specs_without_a_target_are_refused_whatever_their_values() {
    let mut spec = ExternalRunnerSpec::default();
    spec.command.push(ExternalRunnerSpecValue { value: None });
    assert!(!values_are_present(&spec));
    assert!(can_be_read(&spec));
    assert!(matches!(TargetSpec::from_proto(spec), Err(SpecError::MissingTarget)));
}

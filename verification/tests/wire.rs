//! What travels between the runner and the build tool.

use quokka::executor_server::{envelope_of, DeliveryError, SpecEnvelope};
use quokka::ids::TargetHandle;
use quokka::num::NonZeroU32;
use quokka::proto::{
    ActionCommand, CancellationReason, Cancelled, CommandExecutionKind, ConfiguredTarget,
    ConfiguredTargetHandle, ExecuteResponse, ExecuteResponse2, ExecutionDetails, ExecutionResult2,
    ExecutionStatus, ExecutionStream, ExternalRunnerSpec, ExternalRunnerSpecValue, SpecValue,
    StreamItem, TestStatus, WireDuration, WireStatus,
};
use quokka::result::{
    build_test_result, decode_response, duration_to_proto, failure_class, route_log, ExecKind,
    Execute2Outcome, FailureClass, LogRouting, ProcessOutcome, RunIdentity, TestIdentity,
    TestVerdict,
};
use quokka::spec::{CommandArg, SpecError, TargetSpec};
use quokka::time::Duration;
use quokka::variant::{RepeatKind, Variant};

fn verbatim(s: &str) -> ExternalRunnerSpecValue {
    ExternalRunnerSpecValue { value: Some(SpecValue::Verbatim(s.to_owned())) }
}

fn sample_spec() -> ExternalRunnerSpec {
    ExternalRunnerSpec {
        target: Some(ConfiguredTarget {
            handle: Some(ConfiguredTargetHandle { id: 42 }),
            cell: "root".into(),
            package: "rust/foo".into(),
            target: "foo".into(),
            configuration: "cfg".into(),
            package_project_relative_path: "rust/foo".into(),
            test_config_unification_rollout: false,
            package_oncall: None,
        }),
        test_type: "rust".into(),
        command: vec![
            verbatim("./test-bin"),
            ExternalRunnerSpecValue { value: Some(SpecValue::ArgHandle(7)) },
        ],
        env: vec![("ZED".to_owned(), verbatim("1")), ("ABLE".to_owned(), verbatim("2"))],
        labels: vec!["rust:flaky".into(), "foo".into()],
        contacts: vec!["team@x".into()],
        oncall: Some("oncall-x".into()),
        working_dir_cell: "root".into(),
    }
}

#[test]
fn parses_target_and_sorts_env() {
    let parsed = TargetSpec::from_proto(sample_spec()).unwrap();
    assert_eq!(parsed.handle, TargetHandle(42));
    assert_eq!(parsed.suite, "root//rust/foo:foo");
    assert_eq!(parsed.display, "root//rust/foo:foo");
    assert_eq!(parsed.test_type, "rust");
    assert_eq!(parsed.command.len(), 2);
    assert_eq!(parsed.env[0].0, "ABLE");
    assert_eq!(parsed.env[1].0, "ZED");
    assert_eq!(parsed.labels.len(), 2);
    assert_eq!(parsed.labels[0], "rust:flaky");
}

#[test]
fn missing_target_is_error() {
    let spec = ExternalRunnerSpec { target: None, ..Default::default() };
    assert!(matches!(TargetSpec::from_proto(spec), Err(SpecError::MissingTarget)));
}

#[test]
fn missing_handle_is_error() {
    let mut spec = sample_spec();
    spec.target.as_mut().unwrap().handle = None;
    let error = TargetSpec::from_proto(spec).unwrap_err();
    assert_eq!(error, SpecError::MissingHandle);
    assert_eq!(error.message(), "ExternalRunnerSpec target missing handle");
    assert_eq!(SpecError::MissingTarget.message(), "ExternalRunnerSpec missing target");
}

#[test]
fn specs_keep_what_the_build_tool_says() {
    let parsed = TargetSpec::from_proto(sample_spec()).unwrap();
    assert_eq!(parsed.target_platform.as_deref(), Some("cfg"));
    assert_eq!(parsed.command[1], CommandArg::ArgHandle(7));
    assert_eq!(parsed.contacts, vec!["team@x".to_owned()]);
    assert_eq!(parsed.oncall.as_deref(), Some("oncall-x"));
    assert_eq!(parsed.handle_proto(), ConfiguredTargetHandle { id: 42 });
}

#[test]
fn deliveries_without_a_spec_are_refused() {
    assert!(matches!(envelope_of(Some(sample_spec())), Ok(SpecEnvelope::Spec(_))));
    let refused = match envelope_of(None) {
        Err(error) => error,
        Ok(_) => panic!("refusal expected"),
    };
    assert_eq!(refused.message(), "ExternalRunnerSpecRequest missing test_spec");
    assert_eq!(
        DeliveryError::IntakeClosed.message(),
        "test runner scheduler is no longer accepting specs"
    );
}

#[test]
fn test_to_db_key_contains_project_dir_and_separator() {
    let base_id =
        TestIdentity { target: "m".into(), name: "t".into(), variant: Variant::Default };
    let proj = "/work/project";
    let key = base_id.to_db_key(proj);
    assert!(!proj.is_empty(), "Project directory key should not be empty");
    assert!(key.starts_with(proj), "Key should start with project directory");
    assert!(key.contains('\u{2}'), "Key should contain the separator u2");
    assert!(key.contains('\u{1}'), "Key should contain the separator u1");
    let expected = format!("{}\u{2}m\u{1}t", proj);
    assert_eq!(key, expected);
}

#[test]
fn result_identity_is_unique_across_axes() {
    let base_id =
        TestIdentity { target: "m".into(), name: "t".into(), variant: Variant::Default };
    let asan_id = TestIdentity { target: "m".into(), name: "t".into(), variant: Variant::Asan };
    let five = RepeatKind::Stress(NonZeroU32::new(5).unwrap());

    let base =
        RunIdentity { test: base_id.clone(), repeat: RepeatKind::Once, repeat_index: 0 }.to_buck2_name();
    let asan =
        RunIdentity { test: asan_id.clone(), repeat: RepeatKind::Once, repeat_index: 0 }.to_buck2_name();
    let stress = RunIdentity { test: base_id, repeat: five, repeat_index: 3 }.to_buck2_name();
    let both = RunIdentity { test: asan_id, repeat: five, repeat_index: 3 }.to_buck2_name();

    assert_eq!(base, "t");
    assert_eq!(asan, "t#asan");
    assert_eq!(stress, "t#rep3");
    assert_eq!(both, "t#asan#rep3");

    let all = [base, asan, stress, both];
    let unique: std::collections::HashSet<_> = all.iter().collect();
    assert_eq!(unique.len(), 4);
}

#[test]
fn terminal_status_maps_to_countable_wire_values() {
    assert_eq!(TestVerdict::Pass.to_wire(), TestStatus::Pass);
    assert_eq!(TestVerdict::Timeout.to_wire(), TestStatus::Timeout);
    assert!(TestVerdict::Fail.is_failure());
    assert!(TestVerdict::InfraFailure.is_failure());
    assert!(!TestVerdict::Skip.is_failure());
    assert!(!TestVerdict::Omitted.is_failure());
}

#[test]
fn cancelled_reason_classification() {
    let queue = ExecuteResponse2 {
        response: Some(ExecuteResponse::Cancelled(Cancelled {
            reason: Some(CancellationReason::ReQueueTimeout),
        })),
    };
    assert!(matches!(decode_response(queue), Execute2Outcome::CancelledQueueTimeout));

    let none = ExecuteResponse2 {
        response: Some(ExecuteResponse::Cancelled(Cancelled { reason: None })),
    };
    assert!(matches!(decode_response(none), Execute2Outcome::CancelledUnspecified));
}

fn result(status: Option<WireStatus>, kind: Option<ActionCommand>) -> ExecutionResult2 {
    ExecutionResult2 {
        status: Some(ExecutionStatus { status }),
        stdout: Some(ExecutionStream { item: Some(StreamItem::Inline(vec![1, 2])) }),
        stderr: None,
        execution_time: Some(WireDuration { seconds: 2, nanos: 1_500_000_000 }),
        execution_details: Some(ExecutionDetails {
            execution_kind: Some(CommandExecutionKind { command: kind }),
        }),
        max_memory_used_bytes: Some(9),
    }
}

fn completed(result: ExecutionResult2) -> quokka::result::CompletedAction {
    match decode_response(ExecuteResponse2 { response: Some(ExecuteResponse::Result(result)) }) {
        Execute2Outcome::Completed(action) => action,
        _ => panic!("a completed action expected"),
    }
}

#[test]
fn completed_actions_are_decoded() {
    let action = completed(result(Some(WireStatus::Finished(7)), Some(ActionCommand::LocalCommand)));
    assert_eq!(action.status, ProcessOutcome::Finished { exit_code: 7 });
    assert_eq!(action.stdout, vec![1, 2]);
    assert!(action.stderr.is_empty());
    assert_eq!(action.execution_time, Duration::from_millis(3_500));
    assert_eq!(action.max_memory_used_bytes, Some(9));
    assert_eq!(action.exec_kind, ExecKind::Local);
    assert!(action.exec_kind.is_fresh_run());
}

#[test]
fn an_action_without_a_status_is_no_pass() {
    let action = completed(result(None, None));
    assert_eq!(action.status, ProcessOutcome::Finished { exit_code: -1 });
    assert_eq!(action.exec_kind, ExecKind::Unknown);
    let late = completed(result(
        Some(WireStatus::TimedOut(WireDuration { seconds: -4, nanos: 5 })),
        Some(ActionCommand::RemoteCommand { cache_hit: true }),
    ));
    assert_eq!(late.status, ProcessOutcome::TimedOut { after: Duration::new(0, 5).unwrap() });
    assert_eq!(late.exec_kind, ExecKind::RemoteCacheHit);
    assert!(!late.exec_kind.is_fresh_run());
}

#[test]
fn results_carry_the_run_identity() {
    let run = RunIdentity {
        test: TestIdentity { target: "m".into(), name: "t".into(), variant: Variant::Asan },
        repeat: RepeatKind::Once,
        repeat_index: 0,
    };
    let result = build_test_result(
        &run,
        ConfiguredTargetHandle { id: 3 },
        TestVerdict::Timeout,
        Some(Duration::from_millis(1_250)),
        "why".to_owned(),
        Some(8),
    );
    assert_eq!(result.name, "t#asan");
    assert_eq!(result.status, TestStatus::Timeout);
    assert_eq!(result.duration, Some(WireDuration { seconds: 1, nanos: 250_000_000 }));
    assert_eq!(result.duration, Some(duration_to_proto(Duration::from_millis(1_250))));
    assert_eq!(result.details, "why");
    assert_eq!(result.target, Some(ConfiguredTargetHandle { id: 3 }));
    assert_eq!(result.max_memory_used_bytes, Some(8));
}

#[test]
fn logs_go_inline_up_to_the_limit() {
    assert_eq!(route_log(10, 10), LogRouting::Inline);
    assert_eq!(route_log(11, 10), LogRouting::UploadToCas);
}

#[test]
fn only_failures_have_a_class() {
    assert_eq!(failure_class(TestVerdict::Fatal), Some(FailureClass::Fatal));
    assert_eq!(failure_class(TestVerdict::InfraFailure), Some(FailureClass::Infra));
    assert_eq!(failure_class(TestVerdict::Pass), None);
}

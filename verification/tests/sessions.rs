//! Whole sessions against a build tool that lives in memory.
//!
//! The driver below does, one action after the other, what the program around the
//! library does concurrently: it lists each target, runs its batches, hands every
//! answer back to the library and collects what is reported.

use std::collections::HashMap;

use quokka::batching::{BatchMode, TestSelection};
use quokka::cli::{
    self, DurationDbConfig, MemoryMaxEnv, RunnerConfig, SessionContext, ShardSpec, Surroundings,
};
use quokka::config::{FlakyRetryConfig, QuokkaConfig};
use quokka::duration_db::DurationDb;
use quokka::execution::CgroupGranularity;
use quokka::num::NonZeroU32;
use quokka::proto::{
    ActionCommand, ArgContent, Cancelled, CommandExecutionKind, ConfiguredTarget,
    ConfiguredTargetHandle, ExecuteRequest2, ExecuteResponse, ExecuteResponse2, ExecutionDetails,
    ExecutionResult2, ExecutionStatus, ExecutionStream, ExternalRunnerSpec,
    ExternalRunnerSpecValue, SpecValue, StageItem, StreamItem, TestResult, TestStatus,
    WireDuration, WireStatus,
};
use quokka::result::{decode_response, FailureClass, TestIdentity, TestVerdict};
use quokka::scheduler::action::{known_flakes, ActionState, ActionStep, FinishedPart};
use quokka::scheduler::batches::{build_batches, estimates_of, names_of};
use quokka::scheduler::ci_report::{ci_test, report_header, test_separator, CiTest, REPORT_FOOTER};
use quokka::scheduler::discover::{
    after_listing, discovered_ids, planned_actions, prepare_listing, settle_listing,
    whole_unit_tests, ListingStep, TargetStep,
};
use quokka::scheduler::finish::{make_finished, target_failure, FinishedTest};
use quokka::scheduler::group::{
    prepare_group, refused_group, settle_group, GroupOutcome, GroupStep,
};
use quokka::scheduler::plan::{valid_spec_target_display, TargetPlan};
use quokka::scheduler::report::{
    closing_exit_code, malformed_spec_reason, opening, record_attempts, Opening, Reporter,
};
use quokka::spec::{can_be_read, TargetSpec};
use quokka::translator::{ListFormat, Translator, TranslatorRegistry};
use quokka::variant::{RepeatKind, Variant};

const SUPERVISOR: &str = "quokka_run_logical() { :; }\n";

// What the build tool saw.
#[derive(Default)]
struct Recorded {
    report_attempts: Vec<TestResult>,
    results: Vec<TestResult>,
    rejected_report_name: Option<String>,
    discovered: Vec<(String, Vec<String>)>,
    end_exit_code: Option<i32>,
    listing_calls: Vec<Vec<String>>,
    testing_calls: Vec<Vec<String>>,
    testing_commands: Vec<Vec<Vec<String>>>,
    testing_seen: HashMap<String, u32>,
    disable_caching_calls: Vec<bool>,
    printed: Vec<String>,
    ci_tests: Vec<CiTest>,
}

#[derive(Clone, Copy, PartialEq, Eq)]
enum InjectedTestingResponse {
    Normal,
    EmptyCachedPass,
    NamedCachedPass,
    DifferentNamedCachedPass,
    EmptyCachedFailure,
    EmptyUnknownPass,
    FirstActionTimeout,
    CancelledUnspecified,
    QueueTimeouts(u32),
}

struct MockBuck2 {
    // The outcome of each test: "ok", "failed" or "ignored".
    test_events: Vec<(String, &'static str)>,
    recorded: Recorded,
    // A test whose output is missing when it runs with others.
    omit_in_batch: Option<String>,
    // A test that fails the first time and passes from then on.
    flaky_once: Option<String>,
    forced_stdout: Option<String>,
    // The error output of a run that exits nonzero without results.
    stderr_crash: Option<String>,
    injected: InjectedTestingResponse,
    // Answers to testing requests so far.
    answers: u32,
}

fn mock(events: &[(&str, &'static str)]) -> MockBuck2 {
    MockBuck2 {
        test_events: events.iter().map(|(n, e)| (n.to_string(), *e)).collect(),
        recorded: Recorded::default(),
        omit_in_batch: None,
        flaky_once: None,
        forced_stdout: None,
        stderr_crash: None,
        injected: InjectedTestingResponse::Normal,
        answers: 0,
    }
}

fn verbatim_args(req: &ExecuteRequest2) -> Vec<String> {
    let mut out = Vec::new();
    for arg in &req.test_executable.as_ref().expect("executable").cmd {
        if let Some(ArgContent::SpecValue(ExternalRunnerSpecValue {
            value: Some(SpecValue::Verbatim(v)),
        })) = arg.content.as_ref().and_then(|c| c.value.as_ref())
        {
            out.push(v.clone());
        }
    }
    out
}

fn command_appended_args(req: &ExecuteRequest2) -> Vec<Vec<String>> {
    let args = verbatim_args(req);
    if args.first().map(String::as_str) == Some("/bin/sh")
        && args.get(1).map(String::as_str) == Some("-c")
    {
        return args
            .get(2)
            .into_iter()
            .flat_map(|script| script.lines())
            .filter(|line| line.starts_with("quokka_run_logical "))
            .filter_map(|line| line.split_once("\"$@\""))
            .map(|(_, suffix)| {
                suffix
                    .strip_suffix(" || overall_status=$?")
                    .unwrap_or(suffix)
                    .split_whitespace()
                    .map(|arg| {
                        arg.strip_prefix('\'')
                            .and_then(|arg| arg.strip_suffix('\''))
                            .unwrap_or(arg)
                            .to_owned()
                    })
                    .collect::<Vec<_>>()
            })
            .collect();
    }
    vec![args]
}

fn command_verbatim_args(req: &ExecuteRequest2) -> Vec<String> {
    let mut args = command_appended_args(req).into_iter().next().unwrap_or_default();
    args.insert(0, "mock-test-binary".to_owned());
    args
}

fn resource_marker_token(req: &ExecuteRequest2) -> String {
    verbatim_args(req)
        .iter()
        .flat_map(|script| script.lines())
        .find_map(|line| {
            line.strip_prefix("quokka_resource_marker_token='")
                .and_then(|value| value.strip_suffix('\''))
                .map(str::to_owned)
        })
        .expect("supervised request has a resource marker token")
}

fn listed_tests(
    test_events: &[(String, &'static str)],
    cmd_args: &[String],
) -> Vec<(String, &'static str)> {
    let mut filters = Vec::new();
    let mut skips = Vec::new();
    let mut exact = false;
    let mut include_ignored = false;
    let mut ignored_only = false;
    let args = cmd_args.iter().skip(1).map(String::as_str).collect::<Vec<_>>();
    let mut i = 0;
    while i < args.len() {
        let arg = args[i];
        if let Some(skip) = arg.strip_prefix("--skip=") {
            skips.push(skip.to_owned());
            i += 1;
            continue;
        }
        match arg {
            "--list" => i += 1,
            "--exact" => {
                exact = true;
                i += 1;
            }
            "--include-ignored" => {
                include_ignored = true;
                i += 1;
            }
            "--ignored" => {
                ignored_only = true;
                i += 1;
            }
            "--skip" => {
                if let Some(value) = args.get(i + 1) {
                    skips.push((*value).to_owned());
                }
                i += 2;
            }
            "--format" | "--color" | "--test-threads" | "--logfile" | "--shuffle-seed" | "-Z" => {
                i += 2;
            }
            flag if flag.starts_with('-') => i += 1,
            filter => {
                filters.push(filter.to_owned());
                i += 1;
            }
        }
    }
    test_events
        .iter()
        .filter(|(name, event)| {
            let ignored = *event == "ignored";
            let ignored_selected =
                if ignored_only { ignored } else { include_ignored || !ignored };
            let filter_selected = filters.is_empty()
                || filters.iter().any(|filter| {
                    if exact {
                        name == filter
                    } else {
                        name.contains(filter.as_str())
                    }
                });
            let skipped = skips.iter().any(|skip| name.contains(skip.as_str()));
            ignored_selected && filter_selected && !skipped
        })
        .map(|(name, event)| (name.clone(), *event))
        .collect()
}

fn stream(text: String) -> ExecutionStream {
    ExecutionStream { item: Some(StreamItem::Inline(text.into_bytes())) }
}

fn inline_result_with_execution_kind(
    stdout: String,
    stderr: Option<String>,
    exit_code: i32,
    remote_cache_hit: bool,
) -> ExecuteResponse2 {
    ExecuteResponse2 {
        response: Some(ExecuteResponse::Result(ExecutionResult2 {
            status: Some(ExecutionStatus { status: Some(WireStatus::Finished(exit_code)) }),
            stdout: Some(stream(stdout)),
            stderr: stderr.map(stream),
            execution_time: Some(WireDuration { seconds: 0, nanos: 1_000_000 }),
            execution_details: Some(ExecutionDetails {
                execution_kind: Some(CommandExecutionKind {
                    command: Some(if remote_cache_hit {
                        ActionCommand::RemoteCommand { cache_hit: true }
                    } else {
                        ActionCommand::LocalCommand
                    }),
                }),
            }),
            max_memory_used_bytes: Some(1024),
        })),
    }
}

fn inline_result(stdout: String, exit_code: i32) -> ExecuteResponse2 {
    inline_result_with_execution_kind(stdout, None, exit_code, false)
}

fn empty_unknown_result(exit_code: i32) -> ExecuteResponse2 {
    ExecuteResponse2 {
        response: Some(ExecuteResponse::Result(ExecutionResult2 {
            status: Some(ExecutionStatus { status: Some(WireStatus::Finished(exit_code)) }),
            stdout: None,
            stderr: None,
            execution_time: None,
            execution_details: None,
            max_memory_used_bytes: None,
        })),
    }
}

fn passes(names: &[String]) -> String {
    names
        .iter()
        .map(|name| {
            format!("{{ \"type\": \"test\", \"name\": \"{name}\", \"event\": \"ok\" }}\n")
        })
        .collect()
}

impl MockBuck2 {
    fn execute2(&mut self, req: &ExecuteRequest2) -> ExecuteResponse2 {
        let stage = req
            .test_executable
            .as_ref()
            .and_then(|e| e.stage.as_ref())
            .and_then(|s| s.item.as_ref())
            .expect("stage");
        match stage {
            StageItem::Listing(_) => self.list(req),
            StageItem::Testing(_) => self.test(req),
        }
    }

    fn list(&mut self, req: &ExecuteRequest2) -> ExecuteResponse2 {
        let cmd_args = command_verbatim_args(req);
        self.recorded.listing_calls.push(cmd_args.clone());
        let mut out = String::from("{ \"type\": \"suite\", \"event\": \"discovery\" }\n");
        for (name, event) in listed_tests(&self.test_events, &cmd_args) {
            let ignored = event == "ignored";
            out.push_str(&format!(
                "{{ \"type\": \"test\", \"event\": \"discovered\", \"name\": \"{name}\", \"ignore\": {ignored} }}\n"
            ));
        }
        inline_result(out, 0)
    }

    fn test(&mut self, req: &ExecuteRequest2) -> ExecuteResponse2 {
        self.answers += 1;
        let appended = command_appended_args(req);
        let mut cases = appended
            .iter()
            .flatten()
            .filter(|arg| self.test_events.iter().any(|(name, _)| name == *arg))
            .cloned()
            .collect::<Vec<_>>();
        if cases.is_empty() {
            cases = self.test_events.iter().map(|(n, _)| n.clone()).collect();
        }
        self.recorded.testing_calls.push(cases.clone());
        self.recorded.disable_caching_calls.push(req.disable_test_execution_caching);
        self.recorded.testing_commands.push(appended);
        if let Some(response) = self.injected_answer(req, &cases) {
            return response;
        }
        if let Some(stdout) = &self.forced_stdout {
            return inline_result(stdout.clone(), 0);
        }
        if let Some(stderr) = &self.stderr_crash {
            let stderr = stderr.replace("{resource_marker_token}", &resource_marker_token(req));
            return inline_result_with_execution_kind(String::new(), Some(stderr), 137, false);
        }
        let batch = cases.len() > 1;
        let mut out = String::new();
        let mut failed = false;
        for name in &cases {
            if batch && self.omit_in_batch.as_deref() == Some(name.as_str()) {
                failed = true;
                continue;
            }
            let seen = self.recorded.testing_seen.entry(name.clone()).or_insert(0);
            *seen += 1;
            let canned = self
                .test_events
                .iter()
                .find(|(n, _)| n == name)
                .map(|(_, event)| *event)
                .unwrap_or("ok");
            let event = if self.flaky_once.as_deref() == Some(name.as_str()) && *seen == 1 {
                "failed"
            } else {
                canned
            };
            if event == "failed" {
                failed = true;
                out.push_str(&format!(
                    "{{ \"type\": \"test\", \"name\": \"{name}\", \"event\": \"failed\", \"stdout\": \"boom\" }}\n"
                ));
            } else {
                out.push_str(&format!(
                    "{{ \"type\": \"test\", \"name\": \"{name}\", \"event\": \"{event}\" }}\n"
                ));
            }
        }
        inline_result(out, if failed { 101 } else { 0 })
    }

    fn injected_answer(&self, req: &ExecuteRequest2, cases: &[String]) -> Option<ExecuteResponse2> {
        if let InjectedTestingResponse::QueueTimeouts(count) = self.injected {
            if self.answers <= count {
                return Some(ExecuteResponse2 {
                    response: Some(ExecuteResponse::Cancelled(Cancelled {
                        reason: Some(quokka::proto::CancellationReason::ReQueueTimeout),
                    })),
                });
            }
            return None;
        }
        if self.answers != 1 {
            return None;
        }
        let cached = |stdout, exit_code| {
            Some(inline_result_with_execution_kind(stdout, None, exit_code, true))
        };
        match self.injected {
            InjectedTestingResponse::Normal | InjectedTestingResponse::QueueTimeouts(_) => None,
            InjectedTestingResponse::EmptyCachedPass => cached(String::new(), 0),
            InjectedTestingResponse::NamedCachedPass => cached(passes(cases), 0),
            InjectedTestingResponse::DifferentNamedCachedPass => {
                cached(passes(&["other".to_owned()]), 0)
            }
            InjectedTestingResponse::EmptyCachedFailure => cached(String::new(), 1),
            InjectedTestingResponse::EmptyUnknownPass => Some(empty_unknown_result(0)),
            InjectedTestingResponse::FirstActionTimeout => Some(inline_result_with_execution_kind(
                String::new(),
                Some(format!(
                    "quokka resource {} test action timeout: seconds=300\n",
                    resource_marker_token(req)
                )),
                137,
                false,
            )),
            InjectedTestingResponse::CancelledUnspecified => Some(ExecuteResponse2 {
                response: Some(ExecuteResponse::Cancelled(Cancelled { reason: None })),
            }),
        }
    }

    // Takes a result; an error where the build tool rejects it.
    fn report(&mut self, result: &TestResult) -> Result<(), String> {
        self.recorded.report_attempts.push(result.clone());
        if self.recorded.rejected_report_name.as_deref() == Some(result.name.as_str()) {
            return Err("rejected result".to_owned());
        }
        self.recorded.results.push(result.clone());
        Ok(())
    }
}

struct Driver<'a> {
    build: &'a mut MockBuck2,
    config: &'a RunnerConfig,
    history: &'a DurationDb,
    written: DurationDb,
    reporter: Reporter,
    clock: u64,
}

impl Driver<'_> {
    fn finish(&mut self, finished: &FinishedTest) {
        self.reporter.note_finished(finished);
        self.build.recorded.ci_tests.push(ci_test(finished));
        if self.build.report(&finished.result).is_err() {
            self.reporter.note_unreported();
        }
        let times: Vec<u64> = finished
            .db_observations
            .iter()
            .map(|_| {
                self.clock += 1;
                self.clock
            })
            .collect();
        record_attempts(&mut self.written, finished, &times);
    }

    fn fail_target(&mut self, plan: &TargetPlan, status: TestVerdict, details: String) {
        let failed = target_failure(
            &plan.spec,
            self.config,
            plan.quarantined(),
            plan.repeat,
            status,
            details,
        );
        self.finish(&failed);
    }

    fn list(&mut self, plan: &TargetPlan) -> Result<Vec<quokka::listing::TestCase>, (TestVerdict, String)> {
        if let Some(tests) = whole_unit_tests(plan) {
            return Ok(tests);
        }
        let format = self.config.list_format;
        let mut attempt = 0;
        loop {
            let prepared = prepare_listing(plan, self.config, format, SUPERVISOR);
            let answer = self.build.execute2(&prepared.request);
            match settle_listing(
                plan,
                self.config.cgroup_granularity,
                format,
                &prepared.token,
                attempt,
                Ok(decode_response(answer)),
            ) {
                ListingStep::Retry { infra_attempt } => attempt = infra_attempt,
                ListingStep::Listed(tests) => return Ok(tests),
                ListingStep::Failed { status, details } => return Err((status, details)),
            }
        }
    }

    // Returns whether the target was lost.
    fn target(&mut self, spec: ExternalRunnerSpec) -> bool {
        if !can_be_read(&spec) {
            return true;
        }
        let display = valid_spec_target_display(&spec);
        let spec = match TargetSpec::from_proto(spec) {
            Ok(spec) => spec,
            Err(error) => {
                self.reporter.note_dropped(&malformed_spec_reason(display, error));
                return false;
            }
        };
        let again = spec.clone();
        let plan = match TargetPlan::derive(spec, self.config, &TranslatorRegistry::new()) {
            Ok(plan) => plan,
            Err(reason) => {
                let failed = target_failure(
                    &again,
                    self.config,
                    false,
                    RepeatKind::Once,
                    TestVerdict::Fatal,
                    reason,
                );
                self.finish(&failed);
                return false;
            }
        };
        self.plan(&plan);
        false
    }

    fn plan(&mut self, plan: &TargetPlan) {
        let tests = match self.list(plan) {
            Ok(tests) => tests,
            Err((status, details)) => {
                self.fail_target(plan, status, details);
                return;
            }
        };
        let step = after_listing(plan, self.config, &tests);
        let discovered = match &step {
            TargetStep::Refused(details) => {
                self.fail_target(plan, TestVerdict::Fatal, details.clone());
                return;
            }
            TargetStep::NothingToRun => Vec::new(),
            TargetStep::Shown { kept, .. } | TargetStep::Kept(kept) => {
                for id in discovered_ids(plan, self.config, &tests) {
                    self.written.record_discovered_name(&id);
                }
                names_of(kept)
            }
        };
        self.build.recorded.discovered.push((plan.spec.suite.clone(), discovered));
        let kept = match step {
            TargetStep::Kept(kept) => kept,
            TargetStep::Shown { text, .. } => {
                self.build.recorded.printed.push(text);
                return;
            }
            _ => return,
        };
        let batches = build_batches(
            &plan.spec.display,
            &kept,
            self.config,
            self.history,
            plan.translator.parser_capability(),
            plan.batch_mode,
        );
        for planned in planned_actions(&batches, &kept, plan.repeat.count()) {
            for part in self.action(plan, planned.state, planned.repeat_index) {
                let details = part.outcome.details.clone();
                let finished = make_finished(
                    plan,
                    self.config,
                    self.history,
                    part,
                    planned.repeat_index,
                    details,
                );
                self.finish(&finished);
            }
        }
    }

    fn group(
        &mut self,
        plan: &TargetPlan,
        selection: &TestSelection<String>,
        names: &[String],
        repeat_index: u32,
        first: u32,
    ) -> GroupOutcome {
        let mut attempt = 0;
        loop {
            let estimates = estimates_of(
                self.history,
                &plan.spec.display,
                names,
                &self.config.variant,
            );
            let prepared = match prepare_group(
                plan,
                self.config,
                selection,
                names,
                repeat_index,
                first,
                attempt,
                &estimates,
                SUPERVISOR,
            ) {
                Ok(prepared) => prepared,
                Err(details) => return refused_group(details),
            };
            let answer = self.build.execute2(&prepared.request);
            match settle_group(
                plan,
                self.config.cgroup_granularity,
                names,
                &prepared.token,
                attempt,
                Ok(decode_response(answer)),
            ) {
                GroupStep::Retry { infra_attempt } => attempt = infra_attempt,
                GroupStep::Done(outcome) => return outcome,
            }
        }
    }

    fn action(
        &mut self,
        plan: &TargetPlan,
        mut state: ActionState,
        repeat_index: u32,
    ) -> Vec<FinishedPart> {
        loop {
            let selection = state.current_selection();
            let pending = state.pending.clone();
            let first = state.attempt_index();
            let outcome = self.group(plan, &selection, &pending, repeat_index, first);
            let flaky = known_flakes(
                self.history,
                &plan.spec.display,
                &state.expected,
                &self.config.variant,
            );
            match state.advance(
                &outcome,
                plan.runs_as_a_whole(),
                &flaky,
                plan.retry,
                &self.config.quokka_config,
                self.config.batch_failure_policy,
            ) {
                ActionStep::RunAgain => {}
                ActionStep::Finish => return state.finish(),
                ActionStep::Isolate => {
                    let isolation = state.isolate();
                    let mut parts = isolation.done;
                    for single in isolation.singles {
                        parts.extend(self.action(plan, single, repeat_index));
                    }
                    return parts;
                }
            }
        }
    }
}

fn run_with(
    build: &mut MockBuck2,
    specs: Vec<ExternalRunnerSpec>,
    config: &RunnerConfig,
    history: &mut DurationDb,
) {
    match opening(config) {
        Opening::RunTargets => {}
        Opening::ShowHelp(text) | Opening::RefuseUsage(text) => {
            build.recorded.printed.push(text);
            build.recorded.end_exit_code = opening(config).exit_code();
            return;
        }
    }
    let mut driver = Driver {
        build,
        config,
        history,
        written: DurationDb::ephemeral(),
        reporter: Reporter::new(),
        clock: 0,
    };
    let mut lost = false;
    for spec in specs {
        lost |= driver.target(spec);
    }
    let code = closing_exit_code(Some(driver.reporter.verdict), lost);
    let written = driver.written;
    build.recorded.end_exit_code = Some(code);
    if config.duration_db.persistent_path().is_some() {
        history.combine(written);
    }
}

fn run(build: &mut MockBuck2, spec: ExternalRunnerSpec, config: &RunnerConfig) {
    run_with(build, vec![spec], config, &mut DurationDb::ephemeral());
}

fn libtest_spec(handle: i64) -> ExternalRunnerSpec {
    libtest_spec_labeled(handle, &[])
}

fn libtest_spec_labeled(handle: i64, labels: &[&str]) -> ExternalRunnerSpec {
    ExternalRunnerSpec {
        target: Some(ConfiguredTarget {
            handle: Some(ConfiguredTargetHandle { id: handle }),
            cell: "root".into(),
            package: "rust/foo".into(),
            target: "foo".into(),
            configuration: "cfg".into(),
            package_project_relative_path: "rust/foo".into(),
            test_config_unification_rollout: false,
            package_oncall: None,
        }),
        test_type: "rust".into(),
        command: vec![ExternalRunnerSpecValue {
            value: Some(SpecValue::Verbatim("./foo-test".to_owned())),
        }],
        env: Vec::new(),
        labels: labels.iter().map(|l| l.to_string()).collect(),
        contacts: vec![],
        oncall: None,
        working_dir_cell: "root".into(),
    }
}

fn test_context() -> SessionContext {
    SessionContext { host_platform: None, trace_id: None }
}

fn test_config() -> RunnerConfig {
    let argv: Vec<String> =
        ["runner", "--executor-fd", "1", "--orchestrator-fd", "2", "--", "ignored"]
            .iter()
            .map(|s| s.to_string())
            .collect();
    let around = Surroundings {
        memory_max: MemoryMaxEnv::NotPresent,
        quokka_config: QuokkaConfig::default(),
    };
    cli::parse(argv, &around).expect("config").config
}

fn target_config() -> RunnerConfig {
    let mut config = test_config();
    config.batch_mode = BatchMode::Target;
    config
}

fn names(list: &[&str]) -> Vec<String> {
    list.iter().map(|n| n.to_string()).collect()
}

fn calls(list: &[&[&str]]) -> Vec<Vec<String>> {
    list.iter().map(|call| names(call)).collect()
}

fn statuses(rec: &Recorded) -> Vec<(String, TestStatus)> {
    rec.results.iter().map(|result| (result.name.clone(), result.status)).collect()
}

fn status_list(list: &[(&str, TestStatus)]) -> Vec<(String, TestStatus)> {
    list.iter().map(|(n, s)| (n.to_string(), *s)).collect()
}

fn result_of(handle: i64, name: &str, status: TestStatus, details: &str) -> TestResult {
    TestResult {
        name: name.to_owned(),
        status,
        msg: None,
        target: Some(ConfiguredTargetHandle { id: handle }),
        duration: Some(WireDuration { seconds: 0, nanos: 1_000_000 }),
        details: details.to_owned(),
        max_memory_used_bytes: Some(1024),
    }
}

const HARNESS_FLAGS: &[&str] = &[
    "--exact",
    "--test-threads=1",
    "--color=never",
    "-Z",
    "unstable-options",
    "--format",
    "json",
];

#[test]
fn fans_out_and_reports_each_test_with_correct_verdict() {
    let mut build = mock(&[("alpha", "ok"), ("beta_fails", "failed"), ("gamma", "ok")]);
    run(&mut build, libtest_spec(7), &test_config());
    let rec = &build.recorded;
    assert_eq!(rec.results.len(), 3, "expected one result per test");
    let by_name: HashMap<&str, TestStatus> =
        rec.results.iter().map(|r| (r.name.as_str(), r.status)).collect();
    assert_eq!(by_name["alpha"], TestStatus::Pass);
    assert_eq!(by_name["beta_fails"], TestStatus::Fail);
    assert_eq!(by_name["gamma"], TestStatus::Pass);
    assert_eq!(rec.discovered.len(), 1);
    assert_eq!(rec.discovered[0].1.len(), 3);
    assert_eq!(rec.end_exit_code, Some(32));
}

#[test]
fn all_passing_yields_zero_exit() {
    let mut build = mock(&[("a", "ok"), ("b", "ok")]);
    run(&mut build, libtest_spec(1), &test_config());
    let rec = &build.recorded;
    assert_eq!(rec.results.len(), 2);
    assert!(rec.results.iter().all(|r| r.status == TestStatus::Pass));
    assert_eq!(rec.end_exit_code, Some(0));
}

#[test]
fn malformed_spec_is_target_scoped_and_never_executes() {
    let mut build = mock(&[("unused", "ok")]);
    let mut spec = libtest_spec(2);
    spec.command.push(ExternalRunnerSpecValue { value: None });
    let mut env_spec = libtest_spec(3);
    env_spec.env.push(("BROKEN".to_owned(), ExternalRunnerSpecValue { value: None }));
    run_with(
        &mut build,
        vec![spec, env_spec],
        &test_config(),
        &mut DurationDb::ephemeral(),
    );
    let rec = &build.recorded;
    assert!(rec.listing_calls.is_empty());
    assert!(rec.testing_calls.is_empty());
    assert!(rec.results.is_empty());
    assert_eq!(rec.end_exit_code, Some(32));
}

#[test]
fn a_spec_without_a_target_is_dropped() {
    let mut build = mock(&[("unused", "ok")]);
    let mut spec = libtest_spec(2);
    spec.target = None;
    run(&mut build, spec, &test_config());
    assert!(build.recorded.results.is_empty());
    assert_eq!(build.recorded.end_exit_code, Some(32));
}

#[test]
fn an_unknown_test_type_fails_its_target() {
    let mut build = mock(&[("unused", "ok")]);
    let mut spec = libtest_spec(2);
    spec.test_type = "cobol".to_owned();
    run(&mut build, spec, &test_config());
    let rec = &build.recorded;
    assert!(rec.testing_calls.is_empty());
    assert_eq!(
        statuses(rec),
        status_list(&[("root//rust/foo:foo", TestStatus::Fatal)])
    );
    assert_eq!(rec.end_exit_code, Some(32));
}

#[test]
fn report_rejection_fails_session_without_stopping_later_reports() {
    let mut build = mock(&[("a_rejected", "ok"), ("b_accepted", "ok")]);
    build.recorded.rejected_report_name = Some("a_rejected".to_owned());
    run(&mut build, libtest_spec(1), &target_config());
    let expected = |name| result_of(1, name, TestStatus::Pass, "");
    let rec = &build.recorded;
    assert_eq!(rec.report_attempts, vec![expected("a_rejected"), expected("b_accepted")]);
    assert_eq!(rec.results, vec![expected("b_accepted")]);
    assert_eq!(rec.end_exit_code, Some(32));
}

#[test]
fn missing_per_test_results_fail_closed_for_empty_and_non_json_stdout() {
    fn evidence(labels: &[&str], stdout: &str) -> (Vec<TestResult>, Option<i32>) {
        let mut build = mock(&[("alpha", "ok"), ("beta", "ok")]);
        build.forced_stdout = Some(stdout.to_owned());
        run(&mut build, libtest_spec_labeled(1, labels), &test_config());
        (build.recorded.results, build.recorded.end_exit_code)
    }
    fn expected_result(name: &str, stdout: Option<&str>) -> TestResult {
        let mut details =
            "harness exited 0 but emitted no parseable result for this test".to_owned();
        if let Some(stdout) = stdout {
            details.push_str("\n---- stdout ----\n");
            details.push_str(stdout);
        }
        details.push_str(
            "\nquokka attempt history:\n\
             attempt 1: Fatal duration_ms=1 details=harness exited 0 but emitted no parseable result for this test\n\
             attempt 2: Fatal duration_ms=1 details=harness exited 0 but emitted no parseable result for this test\n\
             [brtr: target=root//rust/foo:foo | target_platform=cfg]",
        );
        result_of(1, name, TestStatus::Fatal, &details)
    }
    fn expected(stdout: Option<&str>) -> (Vec<TestResult>, Option<i32>) {
        (
            vec![expected_result("alpha", stdout), expected_result("beta", stdout)],
            Some(32),
        )
    }
    let noise = "this is not json\nrandom harness noise";
    let noise_line = "this is not json\nrandom harness noise\n";
    assert_eq!(
        [
            evidence(&[], ""),
            evidence(&[], noise_line),
            evidence(&["rust:quarantined"], ""),
            evidence(&["rust:quarantined"], noise_line),
        ],
        [expected(None), expected(Some(noise)), expected(None), expected(Some(noise))]
    );
}

#[test]
fn singleton_crash_without_harness_result_reports_action_stderr() {
    let mut build = mock(&[("ooms", "ok")]);
    build.stderr_crash = Some(
        "nobie rust test cgroup OOM: memory.max=3145728000 oom=0->1 oom_kill=0->3\n".to_owned(),
    );
    run(&mut build, libtest_spec(1), &test_config());
    let rec = &build.recorded;
    assert_eq!(rec.results.len(), 1);
    assert_eq!(rec.results[0].name, "ooms");
    assert_eq!(rec.results[0].status, TestStatus::Fail);
    assert_eq!(
        rec.results[0].details,
        "test process exited nonzero with no harness-reported result\n---- stderr ----\nnobie rust test cgroup OOM: memory.max=3145728000 oom=0->1 oom_kill=0->3\n[brtr: target=root//rust/foo:foo | target_platform=cfg]"
    );
    assert_eq!(rec.end_exit_code, Some(32));
}

#[test]
fn fixed_chunk_uses_one_harness_command_for_all_selected_names() {
    let mut build = mock(&[("alpha", "ok"), ("beta", "ok")]);
    run(&mut build, libtest_spec(42), &test_config());
    let rec = &build.recorded;
    let mut command = names(&["alpha", "beta"]);
    command.extend(names(HARNESS_FLAGS));
    assert_eq!(
        statuses(rec),
        status_list(&[("alpha", TestStatus::Pass), ("beta", TestStatus::Pass)])
    );
    assert_eq!(rec.testing_calls, calls(&[&["alpha", "beta"]]));
    assert_eq!(rec.testing_commands, vec![vec![command]]);
    assert_eq!(rec.disable_caching_calls, vec![false]);
    assert_eq!(rec.end_exit_code, Some(0));
}

fn injected_once(name: &str, injected: InjectedTestingResponse) -> Recorded {
    let mut build = mock(&[]);
    build.test_events.push((name.to_owned(), "ok"));
    build.injected = injected;
    run(&mut build, libtest_spec(42), &test_config());
    build.recorded
}

fn assert_fails_closed(rec: &Recorded, name: &str, status: TestStatus) {
    assert_eq!(statuses(rec), status_list(&[(name, status)]));
    assert_eq!(rec.testing_calls, calls(&[&[name]]));
    assert_eq!(rec.disable_caching_calls, vec![false]);
    assert_eq!(rec.end_exit_code, Some(32));
}

#[test]
fn empty_cached_success_never_reports_missing_selected_member_as_pass() {
    let rec = injected_once("cached", InjectedTestingResponse::EmptyCachedPass);
    assert_fails_closed(&rec, "cached", TestStatus::Fatal);
}

#[test]
fn differently_named_cached_success_never_reports_missing_selected_member_as_pass() {
    let rec = injected_once("cached", InjectedTestingResponse::DifferentNamedCachedPass);
    assert_fails_closed(&rec, "cached", TestStatus::Fatal);
}

#[test]
fn empty_cached_failure_never_reports_pass() {
    let rec = injected_once("cached", InjectedTestingResponse::EmptyCachedFailure);
    assert_fails_closed(&rec, "cached", TestStatus::Fail);
}

#[test]
fn empty_unknown_response_never_reports_pass() {
    let rec = injected_once("unknown", InjectedTestingResponse::EmptyUnknownPass);
    assert_fails_closed(&rec, "unknown", TestStatus::Fatal);
}

#[test]
fn resource_failures_retry_quarantine_and_retain_every_attempt() {
    for (name, marker, status, class) in [
        (
            "oom",
            "quokka logical test cgroup OOM: index=0 memory.max=1572864000 oom=0->1 oom_kill=0->1",
            TestStatus::Fail,
            FailureClass::Fail,
        ),
        (
            "timeout",
            "quokka logical test timeout: index=0 seconds=300",
            TestStatus::Timeout,
            FailureClass::Timeout,
        ),
    ] {
        let mut build = mock(&[(name, "ok")]);
        let authenticated =
            marker.replacen("quokka ", "quokka resource {resource_marker_token} ", 1);
        build.stderr_crash = Some(format!("{authenticated}\n"));
        let mut config = test_config();
        config.duration_db = DurationDbConfig::Disabled;
        config.cgroup_granularity = CgroupGranularity::LogicalTest;
        run(
            &mut build,
            libtest_spec_labeled(41, &["rust:flaky", "rust:quarantined"]),
            &config,
        );
        let details = format!(
            "{marker}\nquokka attempt history:\nattempt 1: {class:?} duration_ms=1 details={marker}\nattempt 2: {class:?} duration_ms=1 details={marker}\nattempt 3: {class:?} duration_ms=1 details={marker}\n[brtr: target=root//rust/foo:foo | target_platform=cfg]"
        )
        .replace("FailureClass::", "");
        let expected = result_of(41, name, status, &details);
        let rec = &build.recorded;
        assert_eq!(rec.report_attempts, vec![expected.clone()]);
        assert_eq!(rec.results, vec![expected]);
        assert_eq!(rec.testing_calls, calls(&[&[name], &[name], &[name]]));
        assert_eq!(rec.disable_caching_calls, vec![false, true, true]);
        assert_eq!(rec.end_exit_code, Some(0));
    }
}

#[test]
fn logical_marker_with_bad_index_fails_closed_as_infra_failure() {
    let mut build = mock(&[("bad-index", "ok")]);
    build.stderr_crash = Some(
        "quokka resource {resource_marker_token} logical test timeout: index=1 seconds=300\n"
            .to_owned(),
    );
    let mut config = test_config();
    config.duration_db = DurationDbConfig::Disabled;
    config.cgroup_granularity = CgroupGranularity::LogicalTest;
    run(&mut build, libtest_spec(44), &config);
    let rec = &build.recorded;
    assert_eq!(statuses(rec), status_list(&[("bad-index", TestStatus::InfraFailure)]));
    assert_eq!(rec.testing_calls, calls(&[&["bad-index"]]));
    assert_eq!(rec.end_exit_code, Some(32));
}

#[test]
fn libtest_filter_limits_discovery_and_scheduling() {
    let mut build = mock(&[("alpha_one", "ok"), ("beta_two", "ok"), ("gamma_three", "ok")]);
    let mut config = test_config();
    config.extra_test_args = names(&["alpha"]);
    run(&mut build, libtest_spec(1), &config);
    let rec = &build.recorded;
    assert_eq!(
        rec.discovered,
        vec![("root//rust/foo:foo".to_string(), names(&["alpha_one"]))]
    );
    assert_eq!(rec.testing_calls, calls(&[&["alpha_one"]]));
    assert_eq!(rec.results.len(), 1);
    assert_eq!(rec.results[0].name, "alpha_one");
    assert_eq!(rec.results[0].status, TestStatus::Pass);
    assert_eq!(rec.end_exit_code, Some(0));
}

#[test]
fn libtest_help_prints_without_listing_or_running() {
    let mut build = mock(&[("alpha_one", "ok")]);
    let mut config = test_config();
    config.extra_test_args = names(&["--help"]);
    config.libtest_help_only = true;
    run(&mut build, libtest_spec(1), &config);
    let rec = &build.recorded;
    assert!(rec.listing_calls.is_empty());
    assert!(rec.testing_calls.is_empty());
    assert!(rec.results.is_empty());
    assert_eq!(rec.end_exit_code, Some(0));
}

#[test]
fn libtest_usage_error_fails_without_listing_or_running() {
    let mut build = mock(&[("alpha_one", "ok")]);
    let mut config = test_config();
    config.extra_test_args = names(&["--format=json"]);
    config.libtest_usage_error = Some(
        "The \"json\" format is only accepted on the nightly compiler with -Z unstable-options"
            .to_string(),
    );
    run(&mut build, libtest_spec(1), &config);
    let rec = &build.recorded;
    assert!(rec.listing_calls.is_empty());
    assert!(rec.testing_calls.is_empty());
    assert!(rec.results.is_empty());
    assert_eq!(rec.end_exit_code, Some(32));
}

#[test]
fn listing_only_runs_no_tests() {
    let mut build = mock(&[("alpha_one", "ok")]);
    let mut config = test_config();
    config.extra_test_args = names(&["--list"]);
    config.libtest_list_only = true;
    run(&mut build, libtest_spec(1), &config);
    let rec = &build.recorded;
    assert_eq!(rec.printed, vec!["alpha_one: test\n\n1 test, 0 benchmarks\n".to_owned()]);
    assert!(rec.testing_calls.is_empty());
    assert_eq!(rec.end_exit_code, Some(0));
}

#[test]
fn target_batching_runs_natively_and_reports_every_discovered_test() {
    let all: Vec<String> =
        (0..65).map(|index| format!("target_test_{index:03}_{}", "x".repeat(256))).collect();
    let mut build = mock(&[]);
    build.test_events = all.iter().cloned().map(|name| (name, "ok")).collect();
    run(&mut build, libtest_spec(3), &target_config());
    let expected: Vec<TestResult> =
        all.iter().map(|name| result_of(3, name, TestStatus::Pass, "")).collect();
    let rec = &build.recorded;
    assert_eq!(rec.report_attempts, expected);
    assert_eq!(rec.results, expected);
    assert_eq!(rec.testing_calls, vec![all]);
    assert_eq!(rec.testing_commands, vec![vec![names(HARNESS_FLAGS)]]);
    assert_eq!(rec.disable_caching_calls, vec![false]);
    assert_eq!(rec.end_exit_code, Some(0));
}

#[test]
fn target_batching_preserves_disjoint_shard_commands() {
    let all: Vec<String> = (0..65).map(|index| format!("sharded_target_test_{index:03}")).collect();
    let mut union = Vec::new();
    for index in 0..2u16 {
        let mut build = mock(&[]);
        build.test_events = all.iter().cloned().map(|name| (name, "ok")).collect();
        let mut config = target_config();
        config.shard = ShardSpec { index, count: 2 };
        run(&mut build, libtest_spec(i64::from(index)), &config);
        let rec = &build.recorded;
        let discovered = rec.discovered[0].1.clone();
        let mut command = discovered.clone();
        command.extend(names(HARNESS_FLAGS));
        let reported: Vec<String> = rec.results.iter().map(|r| r.name.clone()).collect();
        assert_eq!(reported, discovered);
        assert_eq!(rec.testing_calls, vec![discovered.clone()]);
        assert_eq!(rec.testing_commands, vec![vec![command]]);
        assert_eq!(rec.end_exit_code, Some(0));
        union.extend(discovered);
    }
    union.sort();
    let mut expected = all;
    expected.sort();
    assert_eq!(union, expected);
}

#[test]
fn ordinary_singleton_action_timeout_gets_a_fresh_retry_without_a_flaky_label() {
    let mut build = mock(&[("ordinary", "ok")]);
    build.injected = InjectedTestingResponse::FirstActionTimeout;
    run(&mut build, libtest_spec(42), &test_config());
    let rec = &build.recorded;
    assert_eq!(statuses(rec), status_list(&[("ordinary", TestStatus::Pass)]));
    assert_eq!(rec.testing_calls, calls(&[&["ordinary"], &["ordinary"]]));
    assert_eq!(rec.disable_caching_calls, vec![false, true]);
    assert_eq!(rec.end_exit_code, Some(0));
}

#[test]
fn action_timeout_does_not_consume_flaky_failure_retry() {
    let mut build = mock(&[("flaky", "ok")]);
    build.flaky_once = Some("flaky".to_owned());
    build.injected = InjectedTestingResponse::FirstActionTimeout;
    let mut config = test_config();
    config.flaky_attempts = 2;
    run(&mut build, libtest_spec_labeled(43, &["rust:flaky"]), &config);
    let rec = &build.recorded;
    assert_eq!(statuses(rec), status_list(&[("flaky", TestStatus::Pass)]));
    assert_eq!(rec.testing_calls, calls(&[&["flaky"], &["flaky"], &["flaky"]]));
    assert_eq!(rec.disable_caching_calls, vec![false, true, true]);
    assert_eq!(rec.end_exit_code, Some(0));
}

fn seconds(whole: u64, nanos: u32) -> serde_json::Value {
    serde_json::Value::from(whole as f64 + f64::from(nanos) / 1e9)
}

// The report that the collected tests make, read back as JSON.
fn report_of(rec: &Recorded) -> serde_json::Value {
    let mut text = report_header(&test_context());
    for (i, test) in rec.ci_tests.iter().enumerate() {
        text.push_str(test_separator(i == 0));
        let mut attempts = Vec::new();
        for attempt in &test.attempts {
            let mut members = vec![
                ("ordinal", serde_json::Value::from(attempt.ordinal)),
                ("execution_disposition", attempt.execution_disposition.into()),
                ("outcome", attempt.outcome.into()),
                ("executor_environment", attempt.executor_environment.into()),
            ];
            if let Some(d) = attempt.action_duration {
                members.push((
                    "action_or_batch_duration_seconds",
                    seconds(d.as_secs(), d.subsec_nanos()),
                ));
            }
            attempts.push(object(members));
        }
        let members = vec![
            ("target", test.target.as_str().into()),
            ("name", test.name.as_str().into()),
            ("variant", test.variant.as_str().into()),
            ("run_name", test.run_name.as_str().into()),
            ("repeat_index", test.repeat_index.into()),
            ("status", test.status.into()),
            ("integrity", test.integrity.into()),
            ("quarantined", test.quarantined.into()),
            ("labels", test.labels.clone().into()),
            (
                "action_or_batch_duration_seconds",
                match test.action_duration {
                    Some((whole, nanos)) => seconds(whole, nanos),
                    None => serde_json::Value::Null,
                },
            ),
            ("max_memory_used_bytes", test.max_memory_used_bytes.into()),
            ("attempts", attempts.into()),
        ];
        text.push_str(&object(members).to_string());
    }
    text.push_str(REPORT_FOOTER);
    serde_json::from_str(&text).expect("the report is JSON")
}

fn object(members: Vec<(&str, serde_json::Value)>) -> serde_json::Value {
    serde_json::Value::Object(members.into_iter().map(|(k, v)| (k.to_owned(), v)).collect())
}

fn json(text: &str) -> serde_json::Value {
    serde_json::from_str(text).expect("valid JSON")
}

#[test]
fn ci_report_retains_action_timeout_then_automatic_fresh_passes() {
    let mut build = mock(&[("x", "ok"), ("y", "ok")]);
    build.injected = InjectedTestingResponse::FirstActionTimeout;
    run(&mut build, libtest_spec(21), &target_config());
    let rec = &build.recorded;
    let expected_test = |name: &str| {
        format!(
            r#"{{
            "target": "root//rust/foo:foo",
            "name": "{name}",
            "variant": "default",
            "run_name": "{name}",
            "repeat_index": 0,
            "status": "pass",
            "integrity": "complete",
            "quarantined": false,
            "labels": [],
            "action_or_batch_duration_seconds": 0.001,
            "max_memory_used_bytes": 1024,
            "attempts": [
                {{
                    "ordinal": 0,
                    "execution_disposition": "physical",
                    "outcome": "timeout",
                    "action_or_batch_duration_seconds": 0.001,
                    "executor_environment": "local"
                }},
                {{
                    "ordinal": 1,
                    "execution_disposition": "physical",
                    "outcome": "pass",
                    "action_or_batch_duration_seconds": 0.001,
                    "executor_environment": "local"
                }}
            ]
        }}"#
        )
    };
    let expected = format!(
        r#"{{"schema": "quokka.ci-test-report.v1", "host_platform": null, "trace_id": null, "tests": [{}, {}]}}"#,
        expected_test("x"),
        expected_test("y"),
    );
    assert_eq!(report_of(rec), json(&expected));
    assert_eq!(rec.testing_calls, calls(&[&["x", "y"], &["x", "y"]]));
    assert_eq!(rec.disable_caching_calls, vec![false, true]);
    assert_eq!(rec.end_exit_code, Some(0));
}

#[test]
fn ci_report_identifies_cache_served_attempts() {
    let mut build = mock(&[("cached", "ok")]);
    build.injected = InjectedTestingResponse::NamedCachedPass;
    run(&mut build, libtest_spec(22), &target_config());
    let expected = r#"{
        "schema": "quokka.ci-test-report.v1",
        "host_platform": null,
        "trace_id": null,
        "tests": [{
            "target": "root//rust/foo:foo",
            "name": "cached",
            "variant": "default",
            "run_name": "cached",
            "repeat_index": 0,
            "status": "pass",
            "integrity": "complete",
            "quarantined": false,
            "labels": [],
            "action_or_batch_duration_seconds": 0.001,
            "max_memory_used_bytes": 1024,
            "attempts": [{
                "ordinal": 0,
                "execution_disposition": "cache_served",
                "outcome": "pass",
                "action_or_batch_duration_seconds": 0.001,
                "executor_environment": "remote"
            }]
        }]
    }"#;
    assert_eq!(report_of(&build.recorded), json(expected));
}

#[test]
fn ci_report_omits_unmeasured_cancelled_attempt_duration() {
    let mut build = mock(&[("cancelled", "ok")]);
    build.injected = InjectedTestingResponse::CancelledUnspecified;
    run(&mut build, libtest_spec(23), &target_config());
    let expected = r#"{
        "schema": "quokka.ci-test-report.v1",
        "host_platform": null,
        "trace_id": null,
        "tests": [{
            "target": "root//rust/foo:foo",
            "name": "cancelled",
            "variant": "default",
            "run_name": "cancelled",
            "repeat_index": 0,
            "status": "omitted",
            "integrity": "missing_terminal_result",
            "quarantined": false,
            "labels": [],
            "action_or_batch_duration_seconds": null,
            "max_memory_used_bytes": null,
            "attempts": [{
                "ordinal": 0,
                "execution_disposition": "unknown",
                "outcome": "omitted",
                "executor_environment": "unknown"
            }]
        }]
    }"#;
    assert_eq!(report_of(&build.recorded), json(expected));
}

#[test]
fn ci_report_retains_stable_stress_repeat_identity() {
    let mut build = mock(&[("repeated", "ok")]);
    let mut config = target_config();
    config.stress = RepeatKind::Stress(NonZeroU32::new(2).expect("nonzero"));
    run(&mut build, libtest_spec(24), &config);
    let report = report_of(&build.recorded);
    let identities = report["tests"]
        .as_array()
        .expect("test records")
        .iter()
        .map(|record| {
            (
                record["run_name"].as_str().unwrap().to_owned(),
                record["repeat_index"].as_u64().unwrap(),
            )
        })
        .collect::<Vec<_>>();
    assert_eq!(
        identities,
        vec![("repeated#rep0".to_owned(), 0), ("repeated#rep1".to_owned(), 1)]
    );
}

#[test]
fn batch_isolation_preserves_missing_result_after_singleton_pass() {
    let mut build = mock(&[("x", "ok"), ("y", "ok")]);
    build.omit_in_batch = Some("y".to_owned());
    run(&mut build, libtest_spec(11), &target_config());
    let rec = &build.recorded;
    assert_eq!(
        statuses(rec),
        status_list(&[("x", TestStatus::Pass), ("y", TestStatus::Fatal)])
    );
    assert_eq!(rec.testing_calls, calls(&[&["x", "y"], &["y"]]));
    assert_eq!(rec.end_exit_code, Some(32));
}

#[test]
fn action_timeout_budget_exhaustion_does_not_enter_flaky_retry() {
    let mut build = mock(&[("x", "ok"), ("y", "ok")]);
    build.stderr_crash = Some(
        "quokka resource {resource_marker_token} test action timeout: seconds=300\n".to_owned(),
    );
    run(&mut build, libtest_spec_labeled(19, &["rust:flaky"]), &target_config());
    let rec = &build.recorded;
    assert_eq!(
        statuses(rec),
        status_list(&[("x", TestStatus::Timeout), ("y", TestStatus::Timeout)])
    );
    assert_eq!(rec.testing_calls, calls(&[&["x", "y"], &["x", "y"], &["x", "y"]]));
    assert_eq!(rec.disable_caching_calls, vec![false, true, true]);
    assert_eq!(rec.end_exit_code, Some(32));
}

#[test]
fn batch_isolation_runs_members_alone_with_ordered_complete_results() {
    let mut build = mock(&[("a", "failed"), ("b", "failed"), ("c", "failed")]);
    run(&mut build, libtest_spec(17), &target_config());
    let rec = &build.recorded;
    let singles: Vec<Vec<String>> =
        rec.testing_calls.iter().filter(|call| call.len() == 1).cloned().collect();
    let expected = |name| {
        result_of(
            17,
            name,
            TestStatus::Fail,
            "boom\nquokka attempt history:\nattempt 1: Fail duration_ms=1 details=boom\nattempt 2: Fail duration_ms=1 details=boom\n[brtr: target=root//rust/foo:foo | target_platform=cfg]",
        )
    };
    assert_eq!(rec.results, vec![expected("a"), expected("b"), expected("c")]);
    assert_eq!(singles, calls(&[&["a"], &["b"], &["c"]]));
    assert_eq!(rec.end_exit_code, Some(32));
}

#[test]
fn flaky_member_passes_on_retry_without_failing_siblings() {
    let mut build = mock(&[("p", "ok"), ("f", "ok")]);
    build.flaky_once = Some("f".to_owned());
    run(&mut build, libtest_spec_labeled(13, &["rust:flaky"]), &target_config());
    let expected = vec![
        result_of(13, "p", TestStatus::Pass, ""),
        result_of(
            13,
            "f",
            TestStatus::Pass,
            "quokka attempt history:\nattempt 1: Fail duration_ms=1 details=boom\nattempt 2: Pass duration_ms=1",
        ),
    ];
    let rec = &build.recorded;
    assert_eq!(rec.report_attempts, expected);
    assert_eq!(rec.results, expected);
    assert_eq!(rec.testing_calls, calls(&[&["p", "f"], &["f"]]));
    assert_eq!(rec.disable_caching_calls, vec![false, true]);
    assert_eq!(rec.end_exit_code, Some(0));
}

#[test]
fn flaky_retries_and_failure_isolation_never_reenable_caching() {
    let mut build = mock(&[("p", "ok"), ("f", "failed")]);
    let mut config = target_config();
    config.flaky_attempts = 3;
    run(&mut build, libtest_spec_labeled(31, &["rust:flaky"]), &config);
    let expected = vec![
        result_of(31, "p", TestStatus::Pass, ""),
        result_of(
            31,
            "f",
            TestStatus::Fail,
            "boom\nquokka attempt history:\nattempt 1: Fail duration_ms=1 details=boom\nattempt 2: Fail duration_ms=1 details=boom\nattempt 3: Fail duration_ms=1 details=boom\nattempt 4: Fail duration_ms=1 details=boom\nattempt 5: Fail duration_ms=1 details=boom\nattempt 6: Fail duration_ms=1 details=boom\n[brtr: target=root//rust/foo:foo | target_platform=cfg]",
        ),
    ];
    let rec = &build.recorded;
    assert_eq!(rec.report_attempts, expected);
    assert_eq!(rec.results, expected);
    assert_eq!(
        rec.testing_calls,
        calls(&[&["p", "f"], &["f"], &["f"], &["f"], &["f"], &["f"]])
    );
    assert_eq!(rec.disable_caching_calls, vec![false, true, true, true, true, true]);
    assert_eq!(rec.end_exit_code, Some(32));
}

fn identity(name: &str) -> TestIdentity {
    TestIdentity {
        target: "root//rust/foo:foo".into(),
        name: name.into(),
        variant: Variant::Default,
    }
}

fn persistent(config: &mut RunnerConfig) {
    config.duration_db = DurationDbConfig::Persistent("/history".to_owned());
}

#[test]
fn flake_db_records_each_fresh_attempt_not_just_the_folded_best() {
    let mut build = mock(&[("steady", "ok"), ("flaky", "ok")]);
    build.flaky_once = Some("flaky".to_owned());
    let mut config = test_config();
    persistent(&mut config);
    let mut db = DurationDb::ephemeral();
    run_with(
        &mut build,
        vec![libtest_spec_labeled(21, &["rust:flaky"])],
        &config,
        &mut db,
    );
    let flaky = db.flake(None, &identity("flaky")).unwrap();
    assert_eq!(flaky.runs, 2, "flaky test should record 2 runs");
    assert_eq!(flaky.failures, 1, "flaky test should record 1 failure");
    let steady = db.flake(None, &identity("steady")).unwrap();
    assert_eq!(steady.runs, 1, "steady test should record 1 run");
    assert_eq!(steady.failures, 0, "steady test should record 0 failures");
}

#[test]
fn disabled_duration_db_path_does_not_cache_bust_unseen_tests() {
    let mut build = mock(&[("a", "ok")]);
    let mut config = test_config();
    config.duration_db = DurationDbConfig::Disabled;
    run(&mut build, libtest_spec(1), &config);
    assert_eq!(build.recorded.disable_caching_calls, vec![false]);
}

#[test]
fn unseen_then_seen_test_caching() {
    let mut db = DurationDb::ephemeral();
    let mut config = test_config();
    persistent(&mut config);
    let mut first = mock(&[("a", "ok")]);
    run_with(&mut first, vec![libtest_spec(1)], &config, &mut db);
    assert!(!first.recorded.disable_caching_calls.is_empty());
    assert!(
        first.recorded.disable_caching_calls[0],
        "expected caching disabled for unseen test"
    );
    let mut second = mock(&[("a", "ok")]);
    run_with(&mut second, vec![libtest_spec(1)], &config, &mut db);
    assert!(!second.recorded.disable_caching_calls.is_empty());
    assert!(
        !second.recorded.disable_caching_calls[0],
        "expected caching enabled for seen test"
    );
}

#[test]
fn flaky_retry_via_toml_config() {
    let mut db = DurationDb::ephemeral();
    let mut config = test_config();
    persistent(&mut config);
    config.quokka_config = QuokkaConfig { flaky_retry: Some(FlakyRetryConfig { attempts: 3 }) };
    let mut first = mock(&[("a", "failed")]);
    run_with(&mut first, vec![libtest_spec(1)], &config, &mut db);
    let mut second = mock(&[("a", "ok")]);
    second.flaky_once = Some("a".to_owned());
    run_with(&mut second, vec![libtest_spec(1)], &config, &mut db);
    let rec = &second.recorded;
    assert_eq!(rec.results.len(), 1);
    assert_eq!(rec.results[0].status, TestStatus::Pass, "should pass on retry");
    assert_eq!(rec.testing_seen.get("a"), Some(&2), "should have run twice");
    assert_eq!(rec.end_exit_code, Some(0), "verdict should be PASS");
}

#[test]
fn queue_timeouts_are_run_again_without_caching() {
    let mut build = mock(&[("a", "ok")]);
    build.injected = InjectedTestingResponse::QueueTimeouts(2);
    run(&mut build, libtest_spec(1), &test_config());
    let rec = &build.recorded;
    assert_eq!(statuses(rec), status_list(&[("a", TestStatus::Pass)]));
    assert_eq!(rec.disable_caching_calls, vec![false, true, true]);

    let mut build = mock(&[("a", "ok")]);
    build.injected = InjectedTestingResponse::QueueTimeouts(3);
    run(&mut build, libtest_spec(1), &test_config());
    assert_eq!(
        statuses(&build.recorded),
        status_list(&[("a", TestStatus::InfraFailure)])
    );
    assert_eq!(build.recorded.end_exit_code, Some(32));
}

#[test]
fn documentation_tests_are_judged_by_the_exit_code() {
    for (events, status, code) in [
        ([("one", "ok"), ("two", "ok")], TestStatus::Pass, 0),
        ([("one", "ok"), ("two", "failed")], TestStatus::Fail, 32),
    ] {
        let mut build = mock(&events);
        let mut spec = libtest_spec(5);
        spec.test_type = "rust_doctest_v1".to_owned();
        run(&mut build, spec, &test_config());
        let rec = &build.recorded;
        assert!(rec.listing_calls.is_empty());
        assert_eq!(statuses(rec), status_list(&[("<doctests>", status)]));
        assert_eq!(rec.end_exit_code, Some(code));
    }
}

#[test]
fn text_listings_are_asked_for_by_format() {
    let mut config = test_config();
    config.list_format = ListFormat::Text;
    let mut build = mock(&[("a", "ok")]);
    run(&mut build, libtest_spec(1), &config);
    assert_eq!(
        build.recorded.listing_calls,
        calls(&[&["mock-test-binary", "--list"]])
    );
}

#[test]
fn shards_without_tests_report_an_empty_discovery() {
    let mut build = mock(&[("only", "ok")]);
    let mut empty = 0;
    for index in 0..2u16 {
        let mut config = test_config();
        config.shard = ShardSpec { index, count: 2 };
        run(&mut build, libtest_spec(1), &config);
    }
    for (suite, names) in &build.recorded.discovered {
        assert_eq!(suite, "root//rust/foo:foo");
        if names.is_empty() {
            empty += 1;
        }
    }
    assert_eq!(empty, 1);
    assert_eq!(build.recorded.results.len(), 1);
}

#[test]
fn overrides_that_fit_no_test_fail_their_target() {
    let mut build = mock(&[("a", "ok")]);
    let mut config = test_config();
    config.cgroup_memory_max_overrides.push(quokka::execution::CgroupMemoryMaxOverride {
        target: "root//rust/foo:foo".to_owned(),
        test: "a".to_owned(),
        memory_max: quokka::execution::CgroupMemoryMax::default(),
    });
    run(&mut build, libtest_spec(1), &config);
    let rec = &build.recorded;
    assert!(rec.testing_calls.is_empty());
    assert_eq!(rec.results.len(), 1);
    assert_eq!(
        rec.results[0].details,
        "cgroup memory overrides require a rust:big singleton target: root//rust/foo:foo"
    );
    assert_eq!(rec.end_exit_code, Some(32));
}

#[test]
fn every_batch_is_planned_once_per_repeat() {
    let kept: Vec<quokka::listing::TestCase> = ["a", "b", "c"]
        .iter()
        .map(|n| {
            quokka::listing::TestCase::new(n.to_string(), quokka::listing::TestCaseKind::Test, false)
        })
        .collect();
    let batches = [TestSelection::All, TestSelection::Explicit(names(&["b"]))];
    let planned = planned_actions(&batches, &kept, 2);
    let shape: Vec<(u32, Vec<String>)> =
        planned.iter().map(|p| (p.repeat_index, p.state.expected.clone())).collect();
    assert_eq!(
        shape,
        vec![
            (0, names(&["a", "b", "c"])),
            (1, names(&["a", "b", "c"])),
            (0, names(&["b"])),
            (1, names(&["b"])),
        ]
    );
}

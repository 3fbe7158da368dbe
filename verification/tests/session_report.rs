//! The session report: what it says of a test, and how it is put into place.

use quokka::cli::SessionContext;
use quokka::duration_db::Environment;
use quokka::proto::ConfiguredTargetHandle;
use quokka::result::{build_test_result, RunIdentity, TestIdentity, TestVerdict};
use quokka::scheduler::ci_report::{
    ci_test, disabled_detail, finalize_failure, integrity_text, report_header, side_file_name,
    start_failure, status_text, test_separator, CiTest, REPORT_FOOTER,
};
use quokka::scheduler::finish::{console_test_name, FinishedTest};
use quokka::scheduler::install::{InstallStep, Installation, StepResult};
use quokka::scheduler::observe::{
    AttemptDuration, AttemptExecution, AttemptObservation, ResultIntegrity,
};
use quokka::time::Duration;
use quokka::variant::{RepeatKind, Variant};

fn identity(target: &str, name: &str) -> RunIdentity {
    RunIdentity {
        test: TestIdentity {
            target: target.to_owned(),
            name: name.to_owned(),
            variant: Variant::Default,
        },
        repeat: RepeatKind::Once,
        repeat_index: 0,
    }
}

fn finished_test(millis: u64, attempt_history: Vec<AttemptObservation>) -> FinishedTest {
    let run_id = identity("root//rust/example:tests", "module::case");
    FinishedTest {
        result: build_test_result(
            &run_id,
            ConfiguredTargetHandle { id: 1 },
            TestVerdict::Pass,
            Some(Duration::from_millis(millis)),
            String::new(),
            None,
        ),
        console_name: console_test_name(&run_id),
        test_id: run_id.test.duplicate(),
        run_id,
        status: TestVerdict::Pass,
        integrity: ResultIntegrity::Complete,
        quarantined: false,
        labels: Vec::new(),
        db_observations: Vec::new(),
        attempt_history,
    }
}

fn float(duration: Duration) -> f64 {
    duration.as_secs() as f64 + f64::from(duration.subsec_nanos()) / 1e9
}

// The member of a test's report with this name.
fn member(test: &CiTest, name: &str) -> f64 {
    match name {
        "action_or_batch_duration_seconds" => {
            let (seconds, nanos) = test.action_duration.expect("measured");
            seconds as f64 + f64::from(nanos) / 1e9
        }
        "framework_case_duration_seconds" => float(test.case_duration.expect("measured")),
        _ => panic!("no such member"),
    }
}

fn attempt_member(test: &CiTest, i: usize, name: &str) -> f64 {
    let attempt = &test.attempts[i];
    match name {
        "action_or_batch_duration_seconds" => float(attempt.action_duration.expect("measured")),
        "duration_seconds" => float(attempt.case_duration.expect("measured")),
        _ => panic!("no such member"),
    }
}

#[test]
fn ci_report_keeps_framework_case_time_separate_from_action_time() {
    let finished = finished_test(
        500,
        vec![AttemptObservation {
            status: TestVerdict::Pass,
            duration: AttemptDuration::Measured(Duration::from_millis(500)),
            framework_case_duration: Some(Duration::from_millis(125)),
            details: String::new(),
            execution: AttemptExecution::Physical(Environment::Remote),
        }],
    );
    let report = ci_test(&finished);
    assert_eq!(member(&report, "action_or_batch_duration_seconds"), 0.5);
    assert_eq!(member(&report, "framework_case_duration_seconds"), 0.125);
    assert_eq!(attempt_member(&report, 0, "action_or_batch_duration_seconds"), 0.5);
    assert_eq!(attempt_member(&report, 0, "duration_seconds"), 0.125);
}

const SENTINEL: &[u8] = b"previous report bytes";

// Three files in memory, and the steps that fail on them.
struct Files {
    destination: Option<Vec<u8>>,
    temporary: Option<Vec<u8>>,
    backup: Option<Vec<u8>>,
    failing: Vec<InstallStep>,
}

fn gone() -> StepResult {
    StepResult::NotFound("no such file".to_owned())
}

fn removed(file: &mut Option<Vec<u8>>) -> StepResult {
    match file.take() {
        Some(_) => StepResult::Succeeded,
        None => gone(),
    }
}

impl Files {
    fn started(previous: Option<&[u8]>, failing: &[InstallStep]) -> Files {
        Files {
            destination: previous.map(<[u8]>::to_vec),
            temporary: Some(b"new report".to_vec()),
            backup: None,
            failing: failing.to_vec(),
        }
    }

    fn perform(&mut self, step: InstallStep) -> StepResult {
        if self.failing.contains(&step) {
            return StepResult::Failed("injected CI report failure".to_owned());
        }
        match step {
            InstallStep::InspectDestination => match self.destination {
                Some(_) => StepResult::Succeeded,
                None => gone(),
            },
            InstallStep::CopyBackup => {
                self.backup = self.destination.clone();
                StepResult::Succeeded
            }
            InstallStep::Install => {
                self.destination = self.temporary.take();
                StepResult::Succeeded
            }
            InstallStep::RestoreBackup => {
                self.destination = self.backup.take();
                StepResult::Succeeded
            }
            InstallStep::RemoveInstalled => removed(&mut self.destination),
            InstallStep::RemoveTemporary => removed(&mut self.temporary),
            InstallStep::RemoveBackup | InstallStep::DropBackup => removed(&mut self.backup),
            _ => StepResult::Succeeded,
        }
    }

    fn install(&mut self) -> Installation {
        let mut installation = Installation::begin(
            "/r/report.json".to_owned(),
            "/r/.report.json.tmp".to_owned(),
            "/r/.report.json.bak".to_owned(),
        );
        self.drive(&mut installation);
        installation
    }

    fn drive(&mut self, installation: &mut Installation) {
        let mut steps = 0;
        while installation.step != InstallStep::Over {
            let result = self.perform(installation.step);
            installation.advance(result);
            steps += 1;
            assert!(steps <= 14);
        }
    }
}

#[test]
fn ci_report_write_failures_preserve_previous_destination() {
    for point in [
        InstallStep::WriteFooter,
        InstallStep::SyncReport,
        InstallStep::InspectDestination,
        InstallStep::CopyBackup,
        InstallStep::SyncBackup,
        InstallStep::Install,
        InstallStep::SyncDirectory,
        InstallStep::RemoveBackup,
    ] {
        let mut files = Files::started(Some(SENTINEL), &[point]);
        let error = files.install().failure().expect("injected finish failure");
        assert!(error.contains("injected CI report"), "{error}");
        assert_eq!(files.destination.as_deref(), Some(SENTINEL));
        assert_eq!(files.temporary, None, "report residue for {point:?}");
        assert_eq!(files.backup, None, "report residue for {point:?}");
    }
    // A report given up before all tests are written leaves nothing behind either.
    let mut files = Files::started(Some(SENTINEL), &[]);
    let mut given_up = Installation::discard("d".to_owned(), "t".to_owned(), "b".to_owned());
    files.drive(&mut given_up);
    assert_eq!(given_up.cleanup_error, None);
    assert_eq!(files.destination.as_deref(), Some(SENTINEL));
    assert_eq!((files.temporary, files.backup), (None, None));
}

#[test]
fn ci_report_rollback_failures_retain_recovery_artifact() {
    for point in [
        InstallStep::RemoveInstalled,
        InstallStep::RestoreBackup,
        InstallStep::SyncRollback,
    ] {
        let finished = finished_test(1_250, Vec::new());
        let verdict_before = finished.status;
        let recorded = ci_test(&finished);
        let mut files = Files::started(Some(SENTINEL), &[InstallStep::SyncDirectory, point]);
        let error = files.install().failure().expect("rollback failure");
        assert!(error.contains("rollback failed"), "{error}");
        assert!(error.contains("recovery retained at"), "{error}");
        if point == InstallStep::SyncRollback {
            assert_eq!(files.destination.as_deref(), Some(SENTINEL));
            assert!(error.contains("/r/report.json"), "{error}");
            assert_eq!(files.backup, None, "restored backup was not consumed");
        } else {
            assert_eq!(files.backup.as_deref(), Some(SENTINEL));
            assert!(error.contains("/r/.report.json.bak"), "{error}");
            assert!(files.backup.is_some(), "recovery backup was removed");
        }
        assert_eq!((finished.status, recorded.attempts.len()), (verdict_before, 0));
        assert_eq!(files.temporary, None, "temporary report was not removed");
    }
}

#[test]
fn installed_reports_replace_the_previous_one() {
    for previous in [None, Some(SENTINEL)] {
        let mut files = Files::started(previous, &[]);
        assert_eq!(files.install().failure(), None);
        assert_eq!(files.destination.as_deref(), Some(&b"new report"[..]));
        assert_eq!((files.temporary, files.backup), (None, None));
    }
}

#[test]
fn a_first_report_that_fails_is_taken_away() {
    let mut files = Files::started(None, &[InstallStep::SyncDirectory]);
    let error = files.install().failure().expect("a failure");
    assert_eq!(error, "sync report directory: injected CI report failure");
    assert_eq!(files.destination, None);
}

#[test]
fn leftovers_are_told() {
    let mut files = Files::started(
        None,
        &[InstallStep::WriteFooter, InstallStep::RemoveTemporary, InstallStep::DropBackup],
    );
    assert_eq!(
        files.install().failure().expect("a failure"),
        "write report footer: injected CI report failure; cleanup failed: failed to remove temporary report /r/.report.json.tmp: injected CI report failure; failed to remove temporary report /r/.report.json.bak: injected CI report failure"
    );
}

#[test]
fn other_things_at_the_destination_are_not_replaced() {
    let mut installation =
        Installation::begin("/r".to_owned(), "/r.tmp".to_owned(), "/r.bak".to_owned());
    installation.advance(StepResult::Succeeded);
    installation.advance(StepResult::Succeeded);
    assert_eq!(installation.step, InstallStep::InspectDestination);
    installation.advance(StepResult::NotAFile);
    assert_eq!(
        installation.error.as_deref(),
        Some("backup report destination /r is not a regular file")
    );
    assert_eq!(installation.step, InstallStep::RemoveTemporary);
}

#[test]
fn reports_frame_their_tests() {
    let context = SessionContext {
        host_platform: Some("a\"b".to_owned()),
        trace_id: Some("t".to_owned()),
    };
    let text = report_header(&context) + test_separator(true) + "1" + test_separator(false) + "2"
        + REPORT_FOOTER;
    let value: serde_json::Value = serde_json::from_str(&text).expect("valid JSON");
    assert_eq!(value["schema"], "quokka.ci-test-report.v1");
    assert_eq!(value["host_platform"], "a\"b");
    assert_eq!(value["trace_id"], "t");
    assert_eq!(value["tests"].as_array().expect("tests").len(), 2);
}

#[test]
fn report_failures_say_what_is_missing() {
    assert_eq!(
        side_file_name(Some("report.json"), 7, 3, "tmp"),
        ".report.json.7.3.tmp"
    );
    assert!(side_file_name(None, 7, 3, "bak").ends_with("bak"));
    let start = start_failure("/r", "full");
    assert!(start.contains("/r") && start.contains("full"), "{start}");
    assert!(disabled_detail("e", None).contains('e'));
    assert!(disabled_detail("e", Some("left")).contains("left"));
    assert!(finalize_failure("why").contains("why"));
}

#[test]
fn statuses_have_names() {
    assert_eq!(status_text(TestVerdict::InfraFailure), "infrastructure_error");
    assert_eq!(status_text(TestVerdict::Omitted), "omitted");
    assert_eq!(
        integrity_text(ResultIntegrity::MissingTerminalResult),
        "missing_terminal_result"
    );
}

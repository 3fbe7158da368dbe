//! What single attempts of a test show, and how attempts are folded into one
//! result.

use vstd::prelude::*;

use crate::duration_db::Environment;
use crate::names::NameMap;
use crate::result::{ExecKind, FailureClass, ProcessOutcome, TestVerdict};
use crate::text::{self, chars_of, lossy_text, string_of, trim_end_chars};
use crate::time::Duration;

verus! {

/// Exit code of a run with failures.
pub const NONZERO_EXIT: i32 = 32;

/// Bounded retry budget for transient executor failures, independent of a
/// target's test-failure retry policy.
pub const INFRA_MAX_ATTEMPTS: u32 = 3;

/// Whether the whole run passed.
#[derive(Debug, Clone, Copy, PartialEq, Eq, Structural)]
pub enum RunVerdict {
    Pass,
    Fail,
}

impl RunVerdict {
    /// The exit code that the build tool gets.
    pub fn exit_code(self) -> (r: i32)
        ensures
            r == (if self == RunVerdict::Pass {
                0
            } else {
                NONZERO_EXIT as int
            }),
    {
        match self {
            RunVerdict::Pass => 0,
            RunVerdict::Fail => NONZERO_EXIT,
        }
    }
}

/// Whether a test's result was seen to its end.
#[derive(Debug, Clone, Copy, PartialEq, Eq, Structural)]
pub enum ResultIntegrity {
    Complete,
    MissingTerminalResult,
}

/// What a result means for the run.
#[derive(Debug, Clone, Copy, PartialEq, Eq, Structural)]
pub enum ReportDisposition {
    Passed,
    Skipped,
    QuarantinedFailure,
    Failure,
}

/// What a result means for the run. A result that was not seen to its end is a
/// failure, whatever its status and whether or not the test is quarantined.
pub open spec fn disposition(
    status: TestVerdict,
    integrity: ResultIntegrity,
    quarantined: bool,
) -> ReportDisposition {
    if integrity == ResultIntegrity::MissingTerminalResult {
        ReportDisposition::Failure
    } else if status == TestVerdict::Pass {
        ReportDisposition::Passed
    } else if status == TestVerdict::Skip || status == TestVerdict::Omitted {
        ReportDisposition::Skipped
    } else if quarantined {
        ReportDisposition::QuarantinedFailure
    } else {
        ReportDisposition::Failure
    }
}

/// What a result means for the run.
pub fn report_disposition(
    status: TestVerdict,
    integrity: ResultIntegrity,
    quarantined: bool,
) -> (r: ReportDisposition)
    ensures
        r == disposition(status, integrity, quarantined),
{
    if integrity == ResultIntegrity::MissingTerminalResult {
        return ReportDisposition::Failure;
    }
    match status {
        TestVerdict::Pass => ReportDisposition::Passed,
        TestVerdict::Skip | TestVerdict::Omitted => ReportDisposition::Skipped,
        _ => {
            if quarantined {
                ReportDisposition::QuarantinedFailure
            } else {
                ReportDisposition::Failure
            }
        },
    }
}

/// One independent fresh execution of a test, recorded into the history. Each
/// *attempt* is its own observation: recording only the folded best result would
/// make a fail-then-pass flake indistinguishable from a clean pass.
#[derive(Debug, Clone, Copy, PartialEq, Eq)]
pub struct DbObservation {
    pub duration: Duration,
    pub failed: bool,
    pub failure_class: Option<FailureClass>,
    pub env: Environment,
}

/// How long an attempt took.
#[derive(Debug, Clone, Copy, PartialEq, Eq)]
pub enum AttemptDuration {
    Measured(Duration),
    Unmeasured,
}

/// Where an attempt ran.
#[derive(Debug, Clone, Copy, PartialEq, Eq)]
pub enum AttemptExecution {
    Physical(Environment),
    CacheServed,
    Unknown,
}

impl AttemptExecution {
    /// Where an action ran, by how it was executed.
    pub open spec fn of_kind(exec_kind: ExecKind) -> AttemptExecution {
        match exec_kind {
            ExecKind::Local | ExecKind::Worker => AttemptExecution::Physical(Environment::Local),
            ExecKind::RemoteExecuted => AttemptExecution::Physical(Environment::Remote),
            ExecKind::RemoteCacheHit => AttemptExecution::CacheServed,
            ExecKind::Omitted | ExecKind::Unknown => AttemptExecution::Unknown,
        }
    }

    /// The environment of a fresh run; a cached or unknown one has none.
    pub open spec fn fresh(self) -> Option<Environment> {
        match self {
            AttemptExecution::Physical(environment) => Some(environment),
            AttemptExecution::CacheServed | AttemptExecution::Unknown => None,
        }
    }

    /// Where an action ran, by how it was executed.
    pub fn from_exec_kind(exec_kind: ExecKind) -> (r: Self)
        ensures
            r == AttemptExecution::of_kind(exec_kind),
    {
        match exec_kind {
            ExecKind::Local | ExecKind::Worker => AttemptExecution::Physical(Environment::Local),
            ExecKind::RemoteExecuted => AttemptExecution::Physical(Environment::Remote),
            ExecKind::RemoteCacheHit => AttemptExecution::CacheServed,
            ExecKind::Omitted | ExecKind::Unknown => AttemptExecution::Unknown,
        }
    }

    /// The environment of a fresh run.
    pub fn fresh_environment(self) -> (r: Option<Environment>)
        ensures
            r == self.fresh(),
    {
        match self {
            AttemptExecution::Physical(environment) => Some(environment),
            AttemptExecution::CacheServed | AttemptExecution::Unknown => None,
        }
    }

    /// How the session report calls the way the attempt ran.
    pub fn ci_disposition(self) -> (r: &'static str)
        ensures
            r@ == (match self {
                AttemptExecution::Physical(_) => "physical"@,
                AttemptExecution::CacheServed => "cache_served"@,
                AttemptExecution::Unknown => "unknown"@,
            }),
    {
        match self {
            AttemptExecution::Physical(_) => "physical",
            AttemptExecution::CacheServed => "cache_served",
            AttemptExecution::Unknown => "unknown",
        }
    }

    /// How the session report calls the place where the attempt ran.
    pub fn ci_environment(self) -> (r: &'static str)
        ensures
            r@ == (match self {
                AttemptExecution::Physical(Environment::Local) => "local"@,
                AttemptExecution::Physical(Environment::Remote) => "remote"@,
                AttemptExecution::CacheServed => "remote"@,
                AttemptExecution::Unknown => "unknown"@,
            }),
    {
        match self {
            AttemptExecution::Physical(Environment::Local) => "local",
            AttemptExecution::Physical(Environment::Remote) | AttemptExecution::CacheServed => {
                "remote"
            },
            AttemptExecution::Unknown => "unknown",
        }
    }
}

/// A run that counts as a fresh observation is one that ran somewhere.
pub proof fn law_fresh_runs_have_an_environment(exec_kind: ExecKind)
    ensures
        exec_kind.spec_is_fresh_run() == (AttemptExecution::of_kind(exec_kind).fresh() is Some),
{
}

/// One attempt of a test.
#[derive(Debug, Clone, PartialEq, Eq)]
pub struct AttemptObservation {
    pub status: TestVerdict,
    pub duration: AttemptDuration,
    /// What the harness itself measured, where it does.
    pub framework_case_duration: Option<Duration>,
    pub details: String,
    pub execution: AttemptExecution,
}

/// One attempt as a mathematical value.
pub struct AttemptView {
    pub status: TestVerdict,
    pub duration: AttemptDuration,
    pub framework_case_duration: Option<Duration>,
    pub details: Seq<char>,
    pub execution: AttemptExecution,
}

impl View for AttemptObservation {
    type V = AttemptView;

    open spec fn view(&self) -> AttemptView {
        AttemptView {
            status: self.status,
            duration: self.duration,
            framework_case_duration: self.framework_case_duration,
            details: self.details@,
            execution: self.execution,
        }
    }
}

/// Attempts as mathematical values.
pub open spec fn attempt_views(v: Seq<AttemptObservation>) -> Seq<AttemptView> {
    Seq::new(v.len(), |i: int| v[i]@)
}

/// The observed outcome of one test within an action, before it becomes a result.
#[derive(Debug, Clone, PartialEq, Eq)]
pub struct TestOutcome {
    pub status: TestVerdict,
    pub integrity: ResultIntegrity,
    pub details: String,
    pub duration: AttemptDuration,
    pub max_memory: Option<u64>,
}

/// The best result of a test so far. Once a test passes in any attempt that pass
/// is kept, so a later flaky failure never overwrites it; once a result is missing
/// it stays missing.
#[derive(Debug, Clone, PartialEq, Eq)]
pub struct BestObs {
    pub status: TestVerdict,
    pub integrity: ResultIntegrity,
    pub details: String,
    pub duration: AttemptDuration,
    pub max_memory: Option<u64>,
}

/// A result as a mathematical value.
pub struct ResultView {
    pub status: TestVerdict,
    pub integrity: ResultIntegrity,
    pub details: Seq<char>,
    pub duration: AttemptDuration,
    pub max_memory: Option<u64>,
}

impl View for BestObs {
    type V = ResultView;

    open spec fn view(&self) -> ResultView {
        ResultView {
            status: self.status,
            integrity: self.integrity,
            details: self.details@,
            duration: self.duration,
            max_memory: self.max_memory,
        }
    }
}

impl View for TestOutcome {
    type V = ResultView;

    open spec fn view(&self) -> ResultView {
        ResultView {
            status: self.status,
            integrity: self.integrity,
            details: self.details@,
            duration: self.duration,
            max_memory: self.max_memory,
        }
    }
}

/// The result of a test of which nothing was seen.
pub open spec fn nothing_seen() -> ResultView {
    ResultView {
        status: TestVerdict::Fatal,
        integrity: ResultIntegrity::MissingTerminalResult,
        details: "test produced no result"@,
        duration: AttemptDuration::Unmeasured,
        max_memory: None,
    }
}

impl BestObs {
    /// The result of a test of which nothing was seen.
    pub fn missing() -> (r: Self)
        ensures
            r@ == nothing_seen(),
    {
        BestObs {
            status: TestVerdict::Fatal,
            integrity: ResultIntegrity::MissingTerminalResult,
            details: "test produced no result".to_owned(),
            duration: AttemptDuration::Unmeasured,
            max_memory: None,
        }
    }

    /// The result as an outcome.
    pub fn into_outcome(self) -> (r: TestOutcome)
        ensures
            r@ == self@,
    {
        TestOutcome {
            status: self.status,
            integrity: self.integrity,
            details: self.details,
            duration: self.duration,
            max_memory: self.max_memory,
        }
    }

    /// A copy of the result.
    pub fn duplicate(&self) -> (r: BestObs)
        ensures
            r == *self,
    {
        BestObs {
            status: self.status,
            integrity: self.integrity,
            details: self.details.clone(),
            duration: self.duration,
            max_memory: self.max_memory,
        }
    }
}

/// Results by name as mathematical values.
pub open spec fn best_views(m: Map<Seq<char>, BestObs>) -> Map<Seq<char>, ResultView> {
    m.map_values(|b: BestObs| b@)
}

/// What becomes of the result so far when another comes in: a missing result wins
/// for good, and a pass wins over what follows it.
pub open spec fn merged(best: Option<ResultView>, incoming: ResultView) -> ResultView {
    match best {
        Some(best) => if incoming.integrity == ResultIntegrity::MissingTerminalResult {
            incoming
        } else if best.integrity == ResultIntegrity::MissingTerminalResult
            || !best.status.spec_is_failure() {
            best
        } else {
            incoming
        },
        None => incoming,
    }
}

/// The entry of a map, if there is one.
pub open spec fn entry<V>(m: Map<Seq<char>, V>, name: Seq<char>) -> Option<V> {
    if m.contains_key(name) {
        Some(m[name])
    } else {
        None
    }
}

/// Folds a result into the best one of its test.
pub fn merge_best(best: &mut NameMap<BestObs>, name: &str, incoming: BestObs)
    ensures
        best_views(final(best)@) == best_views(old(best)@).insert(
            name@,
            merged(entry(best_views(old(best)@), name@), incoming@),
        ),
{
    let ghost before = best_views(best@);
    let keep: bool = if incoming.integrity == ResultIntegrity::MissingTerminalResult {
        false
    } else {
        match best.get(name) {
            Some(existing) => existing.integrity == ResultIntegrity::MissingTerminalResult
                || !existing.status.is_failure(),
            None => false,
        }
    };
    if keep {
        proof {
            assert(before =~= before.insert(name@, before[name@]));
        }
    } else {
        best.insert(name, incoming);
        proof {
            assert(best_views(best@) =~= before.insert(name@, incoming@));
        }
    }
}

/// The best of the first `n` of some results.
pub open spec fn best_of(results: Seq<ResultView>, n: nat) -> Option<ResultView>
    decreases n,
{
    if n == 0 {
        None
    } else {
        Some(merged(best_of(results, (n - 1) as nat), results[n - 1]))
    }
}

/// A missing result is absorbing: however often a test runs again, a result that
/// was once missing stays missing, and the test is reported as a failure even when
/// it is quarantined.
pub proof fn law_missing_results_absorb(
    results: Seq<ResultView>,
    n: nat,
    at: int,
    quarantined: bool,
)
    requires
        0 <= at < n <= results.len(),
        results[at].integrity == ResultIntegrity::MissingTerminalResult,
    ensures
        best_of(results, n) matches Some(best) && best.integrity
            == ResultIntegrity::MissingTerminalResult && disposition(
            best.status,
            best.integrity,
            quarantined,
        ) == ReportDisposition::Failure,
    decreases n,
{
    if at < n - 1 {
        law_missing_results_absorb(results, (n - 1) as nat, at, quarantined);
    }
}

/// While no result is missing, a test passes as soon as any of its attempts does,
/// and fails only when all of them do.
pub proof fn law_any_pass_passes(results: Seq<ResultView>, n: nat)
    requires
        0 < n <= results.len(),
        forall|i: int|
            0 <= i < n ==> (#[trigger] results[i]).integrity == ResultIntegrity::Complete,
    ensures
        best_of(results, n) matches Some(best) && best.integrity == ResultIntegrity::Complete && (
        best.status.spec_is_failure() <==> forall|i: int|
            0 <= i < n ==> (#[trigger] results[i]).status.spec_is_failure()),
    decreases n,
{
    assert(results[n - 1].integrity == ResultIntegrity::Complete);
    if n > 1 {
        law_any_pass_passes(results, (n - 1) as nat);
        let earlier = best_of(results, (n - 1) as nat)->0;
        if earlier.status.spec_is_failure() {
            assert forall|i: int| 0 <= i < n && results[n - 1].status.spec_is_failure() implies (
            #[trigger] results[i]).status.spec_is_failure() by {}
        }
    } else {
        assert(best_of(results, 0) is None);
        assert(best_of(results, 1) == Some(results[0]));
    }
}

// ---------------------------------------------------------------------------
// Tests without a result of their own.

/// A text with one of the output streams behind it, unless the stream is blank.
pub open spec fn with_stream(details: Seq<char>, label: Seq<char>, output: Seq<char>) -> Seq<char> {
    let output = text::trim_end(output);
    if output.len() == 0 {
        details
    } else {
        (if details.len() == 0 {
            details
        } else {
            details.push('\n')
        }) + "---- "@ + label + " ----\n"@ + output
    }
}

/// A text with both output streams behind it.
pub open spec fn with_streams(details: Seq<char>, stdout: Seq<u8>, stderr: Seq<u8>) -> Seq<char> {
    with_stream(
        with_stream(details, "stdout"@, text::utf8_lossy(stdout)),
        "stderr"@,
        text::utf8_lossy(stderr),
    )
}

fn push_stream(details: String, label: &str, output: &[u8]) -> (r: String)
    ensures
        r@ == with_stream(details@, label@, text::utf8_lossy(output@)),
{
    let output: String = lossy_text(output);
    let output: Vec<char> = trim_end_chars(chars_of(output.as_str()).as_slice());
    if output.len() == 0 {
        return details;
    }
    let mut out: String = details;
    if chars_of(out.as_str()).len() > 0 {
        out.push('\n');
    }
    out.push_str("---- ");
    out.push_str(label);
    out.push_str(" ----\n");
    out.push_str(string_of(output.as_slice()).as_str());
    out
}

/// A text with both output streams behind it.
pub fn details_with_streams(details: String, stdout: &[u8], stderr: &[u8]) -> (r: String)
    ensures
        r@ == with_streams(details@, stdout@, stderr@),
{
    push_stream(push_stream(details, "stdout", stdout), "stderr", stderr)
}

/// The verdict for a requested test name with no parsed result. The exit code is
/// the verdict of a whole unit, which has no line of its own. Otherwise a clean
/// exit cannot show that the test passed; a failing one is the failure of a test
/// that ran alone, and cannot be attributed within a batch.
pub open spec fn absent_verdict(
    raw: ProcessOutcome,
    whole_unit: bool,
    singleton: bool,
) -> TestVerdict {
    match raw {
        ProcessOutcome::Finished { exit_code } => if exit_code == 0 {
            if whole_unit {
                TestVerdict::Pass
            } else {
                TestVerdict::Fatal
            }
        } else if singleton {
            TestVerdict::Fail
        } else {
            TestVerdict::Fatal
        },
        ProcessOutcome::TimedOut { .. } => TestVerdict::Timeout,
    }
}

/// What is said of a requested test name with no parsed result.
pub open spec fn absent_details(
    raw: ProcessOutcome,
    whole_unit: bool,
    singleton: bool,
    stdout: Seq<u8>,
    stderr: Seq<u8>,
) -> Seq<char> {
    match raw {
        ProcessOutcome::Finished { exit_code } => if exit_code == 0 {
            if whole_unit {
                Seq::empty()
            } else {
                with_streams(
                    "harness exited 0 but emitted no parseable result for this test"@,
                    stdout,
                    stderr,
                )
            }
        } else if singleton {
            with_streams(
                "test process exited nonzero with no harness-reported result"@,
                stdout,
                stderr,
            )
        } else {
            "test produced no result in batch output"@
        },
        ProcessOutcome::TimedOut { .. } => with_streams("execution timed out"@, stdout, stderr),
    }
}

/// The verdict for a requested test name with no parsed result, and what is said
/// of it.
pub fn absent_name_verdict(
    raw: ProcessOutcome,
    whole_unit: bool,
    singleton: bool,
    stdout: &[u8],
    stderr: &[u8],
) -> (r: (TestVerdict, String))
    ensures
        r.0 == absent_verdict(raw, whole_unit, singleton),
        r.1@ == absent_details(raw, whole_unit, singleton, stdout@, stderr@),
{
    match raw {
        ProcessOutcome::Finished { exit_code } => {
            if exit_code == 0 {
                if whole_unit {
                    (TestVerdict::Pass, String::new())
                } else {
                    (
                        TestVerdict::Fatal,
                        details_with_streams(
                            "harness exited 0 but emitted no parseable result for this test".to_owned(),
                            stdout,
                            stderr,
                        ),
                    )
                }
            } else if singleton {
                (
                    TestVerdict::Fail,
                    details_with_streams(
                        "test process exited nonzero with no harness-reported result".to_owned(),
                        stdout,
                        stderr,
                    ),
                )
            } else {
                (TestVerdict::Fatal, "test produced no result in batch output".to_owned())
            }
        },
        ProcessOutcome::TimedOut { .. } => (
            TestVerdict::Timeout,
            details_with_streams("execution timed out".to_owned(), stdout, stderr),
        ),
    }
}

/// A test without a result of its own passes only as a whole unit whose process
/// exits with zero.
pub proof fn law_absent_results_never_pass(raw: ProcessOutcome, whole_unit: bool, singleton: bool)
    ensures
        absent_verdict(raw, whole_unit, singleton).spec_is_failure() <==> !(whole_unit
            && raw == ProcessOutcome::Finished { exit_code: 0 }),
{
}

} // verus!

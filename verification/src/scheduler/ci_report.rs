//! The session report: what it says of each test, its text around the tests, and
//! how it is put into place without losing the report that was there before.

use vstd::prelude::*;

use crate::cli::SessionContext;
use crate::json::{self, json_string};
use crate::proto::WireDuration;
use crate::result::TestVerdict;
use crate::scheduler::finish::FinishedTest;
use crate::scheduler::observe::{
    AttemptDuration, AttemptExecution, AttemptObservation, ResultIntegrity,
};
use crate::text::{self, copy_strings, decimal_text};
use crate::time::Duration;

verus! {

// ---------------------------------------------------------------------------
// Tests.

/// How the report calls a verdict.
pub open spec fn status_name(status: TestVerdict) -> Seq<char> {
    match status {
        TestVerdict::Pass => "pass"@,
        TestVerdict::Fail => "failure"@,
        TestVerdict::Skip => "skip"@,
        TestVerdict::Omitted => "omitted"@,
        TestVerdict::Fatal => "infrastructure_error"@,
        TestVerdict::InfraFailure => "infrastructure_error"@,
        TestVerdict::Timeout => "timeout"@,
    }
}

/// How the report calls a verdict.
pub fn status_text(status: TestVerdict) -> (r: &'static str)
    ensures
        r@ == status_name(status),
{
    match status {
        TestVerdict::Pass => "pass",
        TestVerdict::Fail => "failure",
        TestVerdict::Skip => "skip",
        TestVerdict::Omitted => "omitted",
        TestVerdict::Fatal | TestVerdict::InfraFailure => "infrastructure_error",
        TestVerdict::Timeout => "timeout",
    }
}

/// How the report calls whether a result was seen to its end.
pub fn integrity_text(integrity: ResultIntegrity) -> (r: &'static str)
    ensures
        r@ == (match integrity {
            ResultIntegrity::Complete => "complete"@,
            ResultIntegrity::MissingTerminalResult => "missing_terminal_result"@,
        }),
{
    match integrity {
        ResultIntegrity::Complete => "complete",
        ResultIntegrity::MissingTerminalResult => "missing_terminal_result",
    }
}

/// What the report says of one attempt.
#[derive(Debug, Clone, PartialEq, Eq)]
pub struct CiAttempt {
    pub ordinal: usize,
    pub execution_disposition: &'static str,
    pub outcome: &'static str,
    pub executor_environment: &'static str,
    /// How long the action took, where that was measured.
    pub action_duration: Option<Duration>,
    /// What the harness measured of the test.
    pub case_duration: Option<Duration>,
}

/// What the report says of one test.
#[derive(Debug, Clone, PartialEq, Eq)]
pub struct CiTest {
    pub target: String,
    pub name: String,
    pub variant: String,
    pub run_name: String,
    pub repeat_index: u32,
    pub status: &'static str,
    pub integrity: &'static str,
    pub quarantined: bool,
    pub labels: Vec<String>,
    /// Seconds and nanoseconds of the reported time; negative parts count as zero.
    pub action_duration: Option<(u64, u32)>,
    pub max_memory_used_bytes: Option<u64>,
    pub attempts: Vec<CiAttempt>,
    /// What the harness measured of the attempt that decided the result.
    pub case_duration: Option<Duration>,
}

/// Whether an entry says what is known of an attempt.
pub open spec fn is_ci_attempt(ordinal: int, attempt: AttemptObservation, r: CiAttempt) -> bool {
    &&& r.ordinal == ordinal
    &&& r.execution_disposition@ == (match attempt.execution {
        AttemptExecution::Physical(_) => "physical"@,
        AttemptExecution::CacheServed => "cache_served"@,
        AttemptExecution::Unknown => "unknown"@,
    })
    &&& r.outcome@ == status_name(attempt.status)
    &&& r.executor_environment@ == (match attempt.execution {
        AttemptExecution::Physical(crate::duration_db::Environment::Local) => "local"@,
        AttemptExecution::Physical(crate::duration_db::Environment::Remote) => "remote"@,
        AttemptExecution::CacheServed => "remote"@,
        AttemptExecution::Unknown => "unknown"@,
    })
    &&& r.action_duration == (match attempt.duration {
        AttemptDuration::Measured(duration) => Some(duration),
        AttemptDuration::Unmeasured => None,
    })
    &&& r.case_duration == attempt.framework_case_duration
}

/// What the harness measured of the last of the first `n` attempts with a status.
pub open spec fn deciding_case_duration(
    attempts: Seq<AttemptObservation>,
    status: TestVerdict,
    n: nat,
) -> Option<Duration>
    decreases n,
{
    if n == 0 {
        None
    } else if attempts[n - 1].status == status {
        attempts[n - 1].framework_case_duration
    } else {
        deciding_case_duration(attempts, status, (n - 1) as nat)
    }
}

/// The reported time of a test: seconds and nanoseconds, negative parts as zero.
pub open spec fn reported_time(d: Option<WireDuration>) -> Option<(u64, u32)> {
    match d {
        Some(d) => Some(
            (
                if d.seconds < 0 {
                    0
                } else {
                    d.seconds as u64
                },
                if d.nanos < 0 {
                    0
                } else {
                    d.nanos as u32
                },
            ),
        ),
        None => None,
    }
}

/// Whether an entry says what is known of a test.
pub open spec fn is_ci_test(f: FinishedTest, r: CiTest) -> bool {
    &&& r.target@ == f.test_id.target@
    &&& r.name@ == f.test_id.name@
    &&& r.variant@ == (match f.test_id.variant.spec_identity() {
        Some(identity) => identity,
        None => "default"@,
    })
    &&& r.run_name@ == f.run_id.spec_buck2_name()
    &&& r.repeat_index == f.run_id.repeat_index
    &&& r.status@ == status_name(f.status)
    &&& r.integrity@ == (match f.integrity {
        ResultIntegrity::Complete => "complete"@,
        ResultIntegrity::MissingTerminalResult => "missing_terminal_result"@,
    })
    &&& r.quarantined == f.quarantined
    &&& r.labels@ == f.labels@
    &&& r.action_duration == reported_time(f.result.duration)
    &&& r.max_memory_used_bytes == f.result.max_memory_used_bytes
    &&& r.attempts@.len() == f.attempt_history@.len()
    &&& forall|i: int|
        0 <= i < r.attempts@.len() ==> is_ci_attempt(
            i,
            f.attempt_history@[i],
            #[trigger] r.attempts@[i],
        )
    &&& r.case_duration == (if f.integrity == ResultIntegrity::Complete {
        deciding_case_duration(f.attempt_history@, f.status, f.attempt_history@.len())
    } else {
        None
    })
}

fn ci_attempts(history: &Vec<AttemptObservation>) -> (r: Vec<CiAttempt>)
    ensures
        r@.len() == history@.len(),
        forall|i: int| 0 <= i < r@.len() ==> is_ci_attempt(i, history@[i], #[trigger] r@[i]),
{
    let mut out: Vec<CiAttempt> = Vec::new();
    let mut i: usize = 0;
    while i < history.len()
        invariant
            i <= history.len(),
            out@.len() == i,
            forall|k: int| 0 <= k < i ==> is_ci_attempt(k, history@[k], #[trigger] out@[k]),
        decreases history.len() - i,
    {
        let attempt: &AttemptObservation = &history[i];
        out.push(
            CiAttempt {
                ordinal: i,
                execution_disposition: attempt.execution.ci_disposition(),
                outcome: status_text(attempt.status),
                executor_environment: attempt.execution.ci_environment(),
                action_duration: match attempt.duration {
                    AttemptDuration::Measured(duration) => Some(duration),
                    AttemptDuration::Unmeasured => None,
                },
                case_duration: attempt.framework_case_duration,
            },
        );
        i += 1;
    }
    out
}

fn case_duration_of(history: &Vec<AttemptObservation>, status: TestVerdict) -> (r: Option<Duration>)
    ensures
        r == deciding_case_duration(history@, status, history@.len()),
{
    let mut n: usize = history.len();
    while n > 0
        invariant
            n <= history.len(),
            deciding_case_duration(history@, status, history@.len()) == deciding_case_duration(
                history@,
                status,
                n as nat,
            ),
        decreases n,
    {
        if history[n - 1].status == status {
            return history[n - 1].framework_case_duration;
        }
        n -= 1;
    }
    None
}

/// What the report says of a finished test.
pub fn ci_test(finished: &FinishedTest) -> (r: CiTest)
    ensures
        is_ci_test(*finished, r),
{
    let variant: String = match finished.test_id.variant.identity() {
        Some(identity) => identity,
        None => "default".to_owned(),
    };
    let action_duration: Option<(u64, u32)> = match finished.result.duration {
        Some(d) => {
            let seconds: u64 = if d.seconds < 0 {
                0
            } else {
                d.seconds as u64
            };
            let nanos: u32 = if d.nanos < 0 {
                0
            } else {
                d.nanos as u32
            };
            Some((seconds, nanos))
        },
        None => None,
    };
    let case_duration: Option<Duration> = if finished.integrity == ResultIntegrity::Complete {
        case_duration_of(&finished.attempt_history, finished.status)
    } else {
        None
    };
    CiTest {
        target: finished.test_id.target.clone(),
        name: finished.test_id.name.clone(),
        variant,
        run_name: finished.run_id.to_buck2_name(),
        repeat_index: finished.run_id.repeat_index,
        status: status_text(finished.status),
        integrity: integrity_text(finished.integrity),
        quarantined: finished.quarantined,
        labels: copy_strings(finished.labels.as_slice()),
        action_duration,
        max_memory_used_bytes: finished.result.max_memory_used_bytes,
        attempts: ci_attempts(&finished.attempt_history),
        case_duration,
    }
}

// ---------------------------------------------------------------------------
// The text around the tests.

/// A text that may be absent, in JSON.
pub open spec fn json_or_null(s: Option<String>) -> Seq<char> {
    match s {
        Some(s) => json::json_quoted(s@),
        None => "null"@,
    }
}

fn json_or_null_text(s: &Option<String>) -> (r: String)
    ensures
        r@ == json_or_null(*s),
{
    match s {
        Some(s) => json_string(s.as_str()),
        None => "null".to_owned(),
    }
}

/// The text before the tests.
pub fn report_header(context: &SessionContext) -> (r: String)
    ensures
        r@ == "{\"schema\":\"quokka.ci-test-report.v1\",\"host_platform\":"@ + json_or_null(
            context.host_platform,
        ) + ",\"trace_id\":"@ + json_or_null(context.trace_id) + ",\"tests\":["@,
{
    let mut out: String = "{\"schema\":\"quokka.ci-test-report.v1\",\"host_platform\":".to_owned();
    out.push_str(json_or_null_text(&context.host_platform).as_str());
    out.push_str(",\"trace_id\":");
    out.push_str(json_or_null_text(&context.trace_id).as_str());
    out.push_str(",\"tests\":[");
    out
}

/// The text before a test.
pub fn test_separator(first: bool) -> (r: &'static str)
    ensures
        r@ == (if first {
            ""@
        } else {
            ","@
        }),
{
    if first {
        ""
    } else {
        ","
    }
}

/// The text after the tests.
pub const REPORT_FOOTER: &'static str = "]}\n";

/// The name of a file beside the report, while it is written.
pub fn side_file_name(destination_name: Option<&str>, process_id: u32, sequence: u64, ending: &str) -> (r:
    String)
    ensures
        r@ == "."@ + (match destination_name {
            Some(name) => name@,
            None => "quokka-ci-test-report"@,
        }) + "."@ + text::decimal(process_id as nat) + "."@ + text::decimal(sequence as nat) + "."@
            + ending@,
{
    let mut out: String = ".".to_owned();
    match destination_name {
        Some(name) => {
            out.push_str(name);
        },
        None => {
            out.push_str("quokka-ci-test-report");
        },
    }
    out.push_str(".");
    out.push_str(decimal_text(process_id as u64).as_str());
    out.push_str(".");
    out.push_str(decimal_text(sequence).as_str());
    out.push_str(".");
    out.push_str(ending);
    out
}

fn with_more(base: &str, more: &str, rest: &str) -> (r: String)
    ensures
        r@ == base@ + more@ + rest@,
{
    let mut out: String = base.to_owned();
    out.push_str(more);
    out.push_str(rest);
    out
}

/// What is said of a report that could not be started.
pub fn start_failure(path: &str, error: &str) -> (r: String)
    ensures
        r@ == "failed to start "@ + path@ + ": "@ + error@,
{
    let mut out: String = "failed to start ".to_owned();
    out.push_str(path);
    out.push_str(": ");
    out.push_str(error);
    out
}

/// What is said of a report that is given up after an error. `leftover` is what is
/// said of files that could not be removed.
pub fn disabled_detail(error: &str, leftover: Option<&str>) -> (r: String)
    ensures
        r@ == "CI test report disabled: "@ + error@ + (match leftover {
            Some(leftover) => "; failed to remove temporary report: "@ + leftover@,
            None => Seq::empty(),
        }),
{
    let mut out: String = "CI test report disabled: ".to_owned();
    out.push_str(error);
    let tail: String = match leftover {
        Some(leftover) => with_more("; failed to remove temporary report: ", leftover, ""),
        None => String::new(),
    };
    proof {
        if leftover is Some {
            reveal_strlit("");
            assert(tail@ =~= "; failed to remove temporary report: "@ + leftover->0@);
        }
    }
    out.push_str(tail.as_str());
    out
}

/// What is said of a report that could not be put into place.
pub fn finalize_failure(error: &str) -> (r: String)
    ensures
        r@ == "failed to finalize CI test report: "@ + error@,
{
    let mut out: String = "failed to finalize CI test report: ".to_owned();
    out.push_str(error);
    out
}

} // verus!

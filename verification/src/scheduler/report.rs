//! The run as a whole: what is done before any target, what every report adds to
//! the verdict, the tally and the history, and how the run is summed up.

use vstd::prelude::*;

use crate::cli::{RunnerConfig, SessionContext};
use crate::duration_db::{self, DbView, DurationDb};
use crate::result::{IdentityView, TestIdentity};
use crate::scheduler::finish::FinishedTest;
use crate::scheduler::observe::{
    self, report_disposition, DbObservation, ReportDisposition, RunVerdict, NONZERO_EXIT,
};
use crate::spec::SpecError;
use crate::text::{self, decimal_text};
use crate::translator::{self, libtest_help_output};

verus! {

// ---------------------------------------------------------------------------
// Before and after the targets.

/// What a run starts with.
#[derive(Debug, PartialEq, Eq)]
pub enum Opening {
    /// Show the help of the harness, and run nothing.
    ShowHelp(String),
    /// Refuse the arguments of the harness, and run nothing.
    RefuseUsage(String),
    RunTargets,
}

/// What a run starts with: help goes before a complaint, and either goes before
/// the targets.
pub fn opening(config: &RunnerConfig) -> (r: Opening)
    ensures
        config.libtest_help_only ==> (r matches Opening::ShowHelp(help) && help@ == "Usage: "@
            + "quokka"@ + translator::HELP_BODY@),
        !config.libtest_help_only ==> match config.libtest_usage_error {
            Some(error) => r matches Opening::RefuseUsage(line) && line@ == "error: "@ + error@,
            None => r is RunTargets,
        },
{
    if config.libtest_help_only {
        return Opening::ShowHelp(libtest_help_output("quokka"));
    }
    match &config.libtest_usage_error {
        Some(error) => {
            let mut line: String = "error: ".to_owned();
            line.push_str(error.as_str());
            Opening::RefuseUsage(line)
        },
        None => Opening::RunTargets,
    }
}

impl Opening {
    /// The exit code of a run that is over at once.
    pub fn exit_code(&self) -> (r: Option<i32>)
        ensures
            r == (match *self {
                Opening::ShowHelp(_) => Some(0i32),
                Opening::RefuseUsage(_) => Some(NONZERO_EXIT),
                Opening::RunTargets => None,
            }),
    {
        match self {
            Opening::ShowHelp(_) => Some(0),
            Opening::RefuseUsage(_) => Some(NONZERO_EXIT),
            Opening::RunTargets => None,
        }
    }
}

/// The exit code of the run. Work that was lost never reported its results, so it
/// fails the run: a lost reporter has no verdict, and a lost target task is told
/// of by `target_lost`.
pub fn closing_exit_code(reported: Option<RunVerdict>, target_lost: bool) -> (r: i32)
    ensures
        r == (if reported == Some(RunVerdict::Pass) && !target_lost {
            0
        } else {
            NONZERO_EXIT as int
        }),
{
    match reported {
        Some(RunVerdict::Pass) => {
            if target_lost {
                RunVerdict::Fail.exit_code()
            } else {
                RunVerdict::Pass.exit_code()
            }
        },
        _ => RunVerdict::Fail.exit_code(),
    }
}

/// The exit code that is reported when the scheduler itself is lost.
pub const SCHEDULER_PANIC_EXIT: i32 = 70;

/// The exit code that ends the results: that of the scheduler, or a code of its own
/// where the scheduler was lost.
pub fn final_exit_code(scheduler: Option<i32>) -> (r: i32)
    ensures
        r == (match scheduler {
            Some(code) => code,
            None => SCHEDULER_PANIC_EXIT,
        }),
{
    match scheduler {
        Some(code) => code,
        None => SCHEDULER_PANIC_EXIT,
    }
}

/// Why a target of a memory override fails the run when it was not received.
pub fn missing_override_reason(target: &str) -> (r: String)
    ensures
        r@ == "cgroup memory override target was not received: "@ + target@,
{
    let mut out: String = "cgroup memory override target was not received: ".to_owned();
    out.push_str(target);
    out
}

/// Why a target whose spec cannot be used is dropped.
pub fn malformed_spec_reason(display: Option<String>, error: SpecError) -> (r: String)
    ensures
        r@ == "dropping malformed spec for "@ + (match display {
            Some(display) => display@,
            None => "<unknown target>"@,
        }) + ": "@ + error.spec_message(),
{
    let mut out: String = "dropping malformed spec for ".to_owned();
    match &display {
        Some(display) => {
            out.push_str(display.as_str());
        },
        None => {
            out.push_str("<unknown target>");
        },
    }
    out.push_str(": ");
    out.push_str(error.message().as_str());
    out
}

/// Why a target whose task was lost fails. `message` is what the task left, where
/// it left a text.
pub fn lost_target_reason(display: &str, message: Option<&str>) -> (r: String)
    ensures
        r@ == "target "@ + display@ + " panicked: "@ + (match message {
            Some(message) => message@,
            None => "non-string panic payload"@,
        }),
{
    let mut out: String = "target ".to_owned();
    out.push_str(display);
    out.push_str(" panicked: ");
    match message {
        Some(message) => {
            out.push_str(message);
        },
        None => {
            out.push_str("non-string panic payload");
        },
    }
    out
}

/// Why a target one of whose actions was lost fails.
pub fn lost_action_reason() -> (r: String)
    ensures
        r@ == "a test action task panicked"@,
{
    "a test action task panicked".to_owned()
}

// ---------------------------------------------------------------------------
// The tally.

/// Running counts for the summary.
#[derive(Debug, Clone, Copy, PartialEq, Eq)]
pub struct Tally {
    pub total: u64,
    pub passed: u64,
    pub failed: u64,
    pub quarantined_failed: u64,
    pub skipped: u64,
}

impl Default for Tally {
    fn default() -> (r: Self)
        ensures
            r == no_tally(),
    {
        Tally { total: 0, passed: 0, failed: 0, quarantined_failed: 0, skipped: 0 }
    }
}

/// Nothing counted.
pub open spec fn no_tally() -> Tally {
    Tally { total: 0, passed: 0, failed: 0, quarantined_failed: 0, skipped: 0 }
}

/// Whether every counted test is counted under exactly one heading.
pub open spec fn adds_up(t: Tally) -> bool {
    t.total == t.passed + t.failed + t.quarantined_failed + t.skipped
}

/// The tally with one more result.
pub open spec fn counted(t: Tally, d: ReportDisposition) -> Tally {
    let t = Tally { total: (t.total + 1) as u64, ..t };
    match d {
        ReportDisposition::Passed => Tally { passed: (t.passed + 1) as u64, ..t },
        ReportDisposition::Skipped => Tally { skipped: (t.skipped + 1) as u64, ..t },
        ReportDisposition::QuarantinedFailure => Tally {
            quarantined_failed: (t.quarantined_failed + 1) as u64,
            ..t
        },
        ReportDisposition::Failure => Tally { failed: (t.failed + 1) as u64, ..t },
    }
}

impl Tally {
    fn count(&mut self, d: ReportDisposition)
        requires
            adds_up(*old(self)),
            old(self).total < u64::MAX,
        ensures
            *final(self) == counted(*old(self), d),
            adds_up(*final(self)),
    {
        self.total += 1;
        match d {
            ReportDisposition::Passed => {
                self.passed += 1;
            },
            ReportDisposition::Skipped => {
                self.skipped += 1;
            },
            ReportDisposition::QuarantinedFailure => {
                self.quarantined_failed += 1;
            },
            ReportDisposition::Failure => {
                self.failed += 1;
            },
        }
    }
}

/// The summary of a run.
pub open spec fn summary(t: Tally, context: SessionContext) -> Seq<char> {
    "test run complete: "@ + text::decimal(t.total as nat) + " tests, "@ + text::decimal(
        t.passed as nat,
    ) + " passed, "@ + text::decimal(t.failed as nat) + " failed, "@ + text::decimal(
        t.skipped as nat,
    ) + " skipped"@ + (if t.quarantined_failed > 0 {
        " ("@ + text::decimal(t.quarantined_failed as nat)
            + " quarantined failure(s), not counted)"@
    } else {
        Seq::empty()
    }) + (match context.host_platform {
        Some(host) => " [host="@ + host@ + "]"@,
        None => Seq::empty(),
    }) + (match context.trace_id {
        Some(trace) => " [trace="@ + trace@ + "]"@,
        None => Seq::empty(),
    })
}

fn bracketed(label: &str, value: &Option<String>) -> (r: String)
    ensures
        r@ == (match *value {
            Some(value) => label@ + value@ + "]"@,
            None => Seq::empty(),
        }),
{
    match value {
        Some(value) => {
            let mut out: String = label.to_owned();
            out.push_str(value.as_str());
            out.push_str("]");
            out
        },
        None => String::new(),
    }
}

/// The summary of a run.
pub fn session_summary(tally: &Tally, context: &SessionContext) -> (r: String)
    ensures
        r@ == summary(*tally, *context),
{
    let mut out: String = "test run complete: ".to_owned();
    out.push_str(decimal_text(tally.total).as_str());
    out.push_str(" tests, ");
    out.push_str(decimal_text(tally.passed).as_str());
    out.push_str(" passed, ");
    out.push_str(decimal_text(tally.failed).as_str());
    out.push_str(" failed, ");
    out.push_str(decimal_text(tally.skipped).as_str());
    out.push_str(" skipped");
    let mut quarantined: String = String::new();
    if tally.quarantined_failed > 0 {
        quarantined = " (".to_owned();
        quarantined.push_str(decimal_text(tally.quarantined_failed).as_str());
        quarantined.push_str(" quarantined failure(s), not counted)");
    }
    out.push_str(quarantined.as_str());
    out.push_str(bracketed(" [host=", &context.host_platform).as_str());
    out.push_str(bracketed(" [trace=", &context.trace_id).as_str());
    out
}

// ---------------------------------------------------------------------------
// The reporter.

/// How loud a line on the console is.
#[derive(Debug, Clone, Copy, PartialEq, Eq, Structural)]
pub enum Level {
    Info,
    Warn,
    Error,
}

/// A line for the console.
#[derive(Debug, Clone, PartialEq, Eq)]
pub struct ConsoleLine {
    pub level: Level,
    pub text: String,
}

/// The line on a failed test: its name and, where there are any, its complete
/// details.
pub open spec fn fail_line(name: Seq<char>, details: Seq<char>) -> Seq<char> {
    if details.len() == 0 {
        "FAIL "@ + name
    } else {
        "FAIL "@ + name + "\n"@ + details
    }
}

/// The line on a failed test.
pub fn fail_console_line(name: &str, details: &str) -> (r: String)
    ensures
        r@ == fail_line(name@, details@),
{
    let mut out: String = "FAIL ".to_owned();
    out.push_str(name);
    if !details.is_empty() {
        out.push_str("\n");
        out.push_str(details);
    }
    out
}

/// What the reporter is told of.
pub enum ReportEvent {
    /// A target that was dropped before it could run.
    Dropped,
    /// A finished test, by what it means for the run.
    Finished(ReportDisposition),
    /// A result that could not be passed on.
    NotReported,
}

/// The state of the reporter as a mathematical value.
pub struct ReporterView {
    pub tally: Tally,
    pub verdict: RunVerdict,
}

/// The state of a reporter that was told of nothing.
pub open spec fn nothing_reported() -> ReporterView {
    ReporterView { tally: no_tally(), verdict: RunVerdict::Pass }
}

/// What one event makes of the state.
pub open spec fn told(s: ReporterView, event: ReportEvent) -> ReporterView {
    match event {
        ReportEvent::Dropped => ReporterView {
            tally: counted(s.tally, ReportDisposition::Failure),
            verdict: RunVerdict::Fail,
        },
        ReportEvent::Finished(d) => ReporterView {
            tally: counted(s.tally, d),
            verdict: if d == ReportDisposition::Failure {
                RunVerdict::Fail
            } else {
                s.verdict
            },
        },
        ReportEvent::NotReported => ReporterView { verdict: RunVerdict::Fail, ..s },
    }
}

/// The state after the first `n` events.
pub open spec fn told_of(events: Seq<ReportEvent>, n: nat) -> ReporterView
    decreases n,
{
    if n == 0 {
        nothing_reported()
    } else {
        told(told_of(events, (n - 1) as nat), events[n - 1])
    }
}

/// Whether an event leaves a run that passes so far passing.
pub open spec fn harmless(event: ReportEvent) -> bool {
    event matches ReportEvent::Finished(d) && d != ReportDisposition::Failure
}

/// A run passes exactly when every target ran, every result was passed on, and no
/// result was a failure that counts.
pub proof fn law_runs_pass_only_without_failures(events: Seq<ReportEvent>, n: nat)
    requires
        n <= events.len(),
    ensures
        told_of(events, n).verdict == RunVerdict::Pass <==> (forall|i: int|
            0 <= i < n ==> harmless(#[trigger] events[i])),
    decreases n,
{
    if n > 0 {
        law_runs_pass_only_without_failures(events, (n - 1) as nat);
        assert(events[n - 1] == events[n - 1]);
        if told_of(events, n).verdict == RunVerdict::Pass {
            assert forall|i: int| 0 <= i < n implies harmless(#[trigger] events[i]) by {
                if i < n - 1 {
                    assert(harmless(events[i]));
                }
            }
        }
    }
}

/// Every result is counted under exactly one heading, and no run with a counted
/// failure passes.
pub proof fn law_tallies_add_up(events: Seq<ReportEvent>, n: nat)
    requires
        n <= events.len(),
        n < u64::MAX,
    ensures
        adds_up(told_of(events, n).tally),
        told_of(events, n).tally.total <= n,
        told_of(events, n).tally.failed > 0 ==> told_of(events, n).verdict == RunVerdict::Fail,
    decreases n,
{
    if n > 0 {
        law_tallies_add_up(events, (n - 1) as nat);
    }
}

/// The sole owner of the verdict and of the tally.
#[derive(Debug)]
pub struct Reporter {
    pub tally: Tally,
    pub verdict: RunVerdict,
    /// Whether a failure of the session report was shown.
    pub report_failure_shown: bool,
}

impl View for Reporter {
    type V = ReporterView;

    open spec fn view(&self) -> ReporterView {
        ReporterView { tally: self.tally, verdict: self.verdict }
    }
}

impl Reporter {
    /// Whether the reporter can count one more result.
    pub open spec fn has_room(self) -> bool {
        adds_up(self.tally) && self.tally.total < u64::MAX
    }

    /// A reporter that was told of nothing.
    pub fn new() -> (r: Self)
        ensures
            r@ == nothing_reported(),
            !r.report_failure_shown,
            r.has_room(),
    {
        Reporter {
            tally: Tally::default(),
            verdict: RunVerdict::Pass,
            report_failure_shown: false,
        }
    }

    /// Takes note of a target that was dropped. Gives the line that says so.
    pub fn note_dropped(&mut self, reason: &str) -> (r: ConsoleLine)
        requires
            old(self).has_room(),
        ensures
            final(self)@ == told(old(self)@, ReportEvent::Dropped),
            final(self).report_failure_shown == old(self).report_failure_shown,
            adds_up(final(self).tally),
            r.level == Level::Error,
            r.text@ == "quokka: "@ + reason@,
    {
        self.tally.count(ReportDisposition::Failure);
        self.verdict = RunVerdict::Fail;
        let mut text: String = "quokka: ".to_owned();
        text.push_str(reason);
        ConsoleLine { level: Level::Error, text }
    }

    /// Takes note of a finished test. A failure that counts is shown in full.
    pub fn note_finished(&mut self, finished: &FinishedTest) -> (r: Option<ConsoleLine>)
        requires
            old(self).has_room(),
        ensures
            final(self)@ == told(
                old(self)@,
                ReportEvent::Finished(
                    observe::disposition(
                        finished.status,
                        finished.integrity,
                        finished.quarantined,
                    ),
                ),
            ),
            final(self).report_failure_shown == old(self).report_failure_shown,
            adds_up(final(self).tally),
            r is Some <==> observe::disposition(
                finished.status,
                finished.integrity,
                finished.quarantined,
            ) == ReportDisposition::Failure,
            r matches Some(line) ==> line.level == Level::Warn && line.text@ == fail_line(
                finished.console_name@,
                finished.result.details@,
            ),
    {
        let d: ReportDisposition = report_disposition(
            finished.status,
            finished.integrity,
            finished.quarantined,
        );
        self.tally.count(d);
        if d == ReportDisposition::Failure {
            self.verdict = RunVerdict::Fail;
            let text: String = fail_console_line(
                finished.console_name.as_str(),
                finished.result.details.as_str(),
            );
            Some(ConsoleLine { level: Level::Warn, text })
        } else {
            None
        }
    }

    /// Takes note of a result that could not be passed on.
    pub fn note_unreported(&mut self)
        ensures
            final(self)@ == told(old(self)@, ReportEvent::NotReported),
            final(self).report_failure_shown == old(self).report_failure_shown,
    {
        self.verdict = RunVerdict::Fail;
    }

    /// Takes note of a failure of the session report. Only the first one is shown,
    /// and none of them changes the verdict.
    pub fn note_report_failure(&mut self, detail: &str) -> (r: Option<ConsoleLine>)
        ensures
            final(self)@ == old(self)@,
            final(self).report_failure_shown,
            r is Some <==> !old(self).report_failure_shown,
            r matches Some(line) ==> line.level == Level::Error && line.text@ == "quokka: "@
                + detail@,
    {
        if self.report_failure_shown {
            return None;
        }
        self.report_failure_shown = true;
        let mut text: String = "quokka: ".to_owned();
        text.push_str(detail);
        Some(ConsoleLine { level: Level::Error, text })
    }

    /// The last line: the summary, as a warning where something failed.
    pub fn closing_line(&self, context: &SessionContext) -> (r: ConsoleLine)
        ensures
            r.level == (if self.tally.failed > 0 {
                Level::Warn
            } else {
                Level::Info
            }),
            r.text@ == summary(self.tally, *context),
    {
        let level: Level = if self.tally.failed > 0 {
            Level::Warn
        } else {
            Level::Info
        };
        ConsoleLine { level, text: session_summary(&self.tally, context) }
    }
}

// ---------------------------------------------------------------------------
// The history.

/// The history after the first `n` attempts of a test, each a run of its own.
pub open spec fn with_attempts_recorded(
    db: DbView,
    key: u64,
    id: IdentityView,
    attempts: Seq<DbObservation>,
    times: Seq<u64>,
    n: nat,
) -> DbView
    decreases n,
{
    if n == 0 {
        db
    } else {
        let attempt = attempts[n - 1];
        with_attempts_recorded(db, key, id, attempts, times, (n - 1) as nat).with_recorded(
            attempt.env,
            key,
            id,
            duration_db::millis_u64(attempt.duration),
            attempt.failed,
            attempt.failure_class,
            times[n - 1],
        )
    }
}

/// Records every fresh attempt of a test under its key, each at its time.
pub fn record_attempts(db: &mut DurationDb, finished: &FinishedTest, times: &[u64])
    requires
        times@.len() == finished.db_observations@.len(),
    ensures
        exists|key: u64|
            old(db).keyed(finished.test_id, key) && final(db)@ == #[trigger] with_attempts_recorded(
                old(db)@,
                key,
                finished.test_id@,
                finished.db_observations@,
                times@,
                times@.len(),
            ),
        final(db).spec_project() == old(db).spec_project(),
{
    let key: u64 = db.key_of(&finished.test_id);
    let ghost before = *db;
    let mut i: usize = 0;
    while i < finished.db_observations.len()
        invariant
            i <= finished.db_observations.len(),
            times@.len() == finished.db_observations@.len(),
            db.spec_project() == before.spec_project(),
            db@ == with_attempts_recorded(
                before@,
                key,
                finished.test_id@,
                finished.db_observations@,
                times@,
                i as nat,
            ),
        decreases finished.db_observations.len() - i,
    {
        let attempt: DbObservation = finished.db_observations[i];
        db.record_by_key(
            attempt.env,
            key,
            &finished.test_id,
            attempt.duration,
            attempt.failed,
            attempt.failure_class,
            times[i],
        );
        i += 1;
    }
}

/// How many of the first `n` attempts failed.
pub open spec fn failed_attempts(attempts: Seq<DbObservation>, n: nat) -> nat
    decreases n,
{
    if n == 0 {
        0
    } else {
        failed_attempts(attempts, (n - 1) as nat) + if attempts[n - 1].failed {
            1nat
        } else {
            0nat
        }
    }
}

/// How many runs the history holds under a key.
pub open spec fn runs_under(db: DbView, key: u64) -> int {
    duration_db::flakes_at(db.local.flake, key).runs + duration_db::flakes_at(
        db.remote.flake,
        key,
    ).runs
}

/// How many failed runs the history holds under a key.
pub open spec fn failures_under(db: DbView, key: u64) -> int {
    duration_db::flakes_at(db.local.flake, key).failures + duration_db::flakes_at(
        db.remote.flake,
        key,
    ).failures
}

/// Every attempt counts: a test that fails and then passes adds two runs and one
/// failure to the history, not one clean pass. Counters that are about to reach
/// their limit are left out.
pub proof fn law_every_attempt_counts(
    db: DbView,
    key: u64,
    id: IdentityView,
    attempts: Seq<DbObservation>,
    times: Seq<u64>,
    n: nat,
)
    requires
        n <= attempts.len(),
        runs_under(db, key) + n <= u64::MAX,
        failures_under(db, key) + n <= u64::MAX,
    ensures
        runs_under(with_attempts_recorded(db, key, id, attempts, times, n), key) == runs_under(
            db,
            key,
        ) + n,
        failures_under(with_attempts_recorded(db, key, id, attempts, times, n), key)
            == failures_under(db, key) + failed_attempts(attempts, n),
        failed_attempts(attempts, n) <= n,
    decreases n,
{
    if n > 0 {
        law_every_attempt_counts(db, key, id, attempts, times, (n - 1) as nat);
    }
}

} // verus!

//! What a response, an exit code and several attempts mean for a test and for the run.

use vstd::prelude::*;

use crate::duration_db::Environment;
use crate::names::NameMap;
use crate::proto::{
    ActionCommand, CancellationReason, ConfiguredTargetHandle, ExecuteResponse, ExecuteResponse2,
    ExecutionResult2, StreamItem, TestResult, TestStatus, WireDuration, WireStatus,
};
use crate::result::{
    build_test_result, decode_response, duration_to_proto, failure_class, route_log,
    CompletedAction, ExecKind, Execute2Outcome, FailureClass, LogRouting, ProcessOutcome,
    RunIdentity, TestIdentity, TestVerdict,
};
use crate::scheduler::observe::{
    absent_name_verdict, details_with_streams, merge_best, report_disposition, AttemptExecution,
    BestObs, ReportDisposition, ResultIntegrity, RunVerdict,
};
use crate::text;
use crate::time::Duration;
use crate::variant::{RepeatKind, Variant};

verus! {

/// Every verdict travels as the status of its own name.
pub proof fn law_verdicts_keep_their_names(verdict: TestVerdict, r: TestStatus)
    requires
        call_ensures(TestVerdict::to_wire, (verdict,), r),
    ensures
        verdict is Pass <==> r is Pass,
        verdict is Fail <==> r is Fail,
        verdict is Skip <==> r is Skip,
        verdict is Omitted <==> r is Omitted,
        verdict is Fatal <==> r is Fatal,
        verdict is Timeout <==> r is Timeout,
        verdict is InfraFailure <==> r is InfraFailure,
{
}

/// A test that passed, was skipped or left out has not failed; any other has, and the
/// history says how.
pub proof fn law_only_passes_and_skips_are_no_failures(
    verdict: TestVerdict,
    failed: bool,
    class: Option<FailureClass>,
)
    requires
        call_ensures(TestVerdict::is_failure, (verdict,), failed),
        call_ensures(failure_class, (verdict,), class),
    ensures
        !failed <==> verdict is Pass || verdict is Skip || verdict is Omitted,
        class is Some <==> failed,
        class == Some(FailureClass::Fail) <==> verdict is Fail,
        class == Some(FailureClass::Fatal) <==> verdict is Fatal,
        class == Some(FailureClass::Timeout) <==> verdict is Timeout,
        class == Some(FailureClass::Infra) <==> verdict is InfraFailure,
{
}

/// A run counts as fresh where a process ran for it: here, on a worker of this machine,
/// or remotely; what a cache served or nothing ran has no environment.
pub proof fn law_fresh_runs_ran_somewhere(
    kind: ExecKind,
    fresh: bool,
    execution: AttemptExecution,
    environment: Option<Environment>,
)
    requires
        call_ensures(ExecKind::is_fresh_run, (kind,), fresh),
        call_ensures(AttemptExecution::from_exec_kind, (kind,), execution),
        call_ensures(AttemptExecution::fresh_environment, (execution,), environment),
    ensures
        fresh <==> kind is Local || kind is Worker || kind is RemoteExecuted,
        environment is Some <==> fresh,
        environment == Some(Environment::Local) <==> kind is Local || kind is Worker,
        environment == Some(Environment::Remote) <==> kind is RemoteExecuted,
        execution is CacheServed <==> kind is RemoteCacheHit,
{
}

/// How the session report speaks of an attempt.
pub proof fn law_attempts_are_told_apart(
    execution: AttemptExecution,
    way: &'static str,
    place: &'static str,
)
    requires
        call_ensures(AttemptExecution::ci_disposition, (execution,), way),
        call_ensures(AttemptExecution::ci_environment, (execution,), place),
    ensures
        execution is Physical ==> way@ == "physical"@,
        execution is CacheServed ==> way@ == "cache_served"@ && place@ == "remote"@,
        execution is Unknown ==> way@ == "unknown"@ && place@ == "unknown"@,
        execution == AttemptExecution::Physical(Environment::Local) ==> place@ == "local"@,
        execution == AttemptExecution::Physical(Environment::Remote) ==> place@ == "remote"@,
{
}

// ---------------------------------------------------------------------------
// Responses.

/// A response is a completed action, a wait in a queue that took too long, or a
/// cancellation for good: the wait only where the reason says so.
pub proof fn law_only_queue_timeouts_are_transient(response: ExecuteResponse2, r: Execute2Outcome)
    requires
        call_ensures(decode_response, (response,), r),
    ensures
        r is Completed <==> (response.response matches Some(payload) && payload is Result),
        r is CancelledQueueTimeout <==> (response.response matches Some(
            ExecuteResponse::Cancelled(cancelled),
        ) && cancelled.reason == Some(CancellationReason::ReQueueTimeout)),
{
}

/// Whether a wire duration is of so many seconds and nanoseconds, neither of them
/// negative.
pub open spec fn is_span(d: WireDuration, span: Duration) -> bool {
    d.seconds >= 0 && 0 <= d.nanos < 1_000_000_000 ==> span.total_nanos() == d.seconds
        * 1_000_000_000 + d.nanos
}

/// A completed action has the exit code, or the timeout, that the response says; a
/// response that says neither never reads as a clean exit.
pub proof fn law_results_keep_their_exit_code(result: ExecutionResult2, r: CompletedAction)
    requires
        exists|response: ExecuteResponse2|
            response.response == Some(ExecuteResponse::Result(result)) && #[trigger] call_ensures(
                decode_response,
                (response,),
                Execute2Outcome::Completed(r),
            ),
    ensures
        ({
            let told = match result.status {
                Some(status) => status.status,
                None => None,
            };
            &&& told matches Some(WireStatus::Finished(code)) ==> r.status
                == (ProcessOutcome::Finished { exit_code: code })
            &&& told matches Some(WireStatus::TimedOut(d)) ==> (r.status matches ProcessOutcome::TimedOut {
                after,
            } && is_span(d, after))
            &&& told is None ==> (r.status matches ProcessOutcome::Finished { exit_code }
                && exit_code == -1)
        }),
        result.execution_time matches Some(d) ==> is_span(d, r.execution_time),
        result.execution_time is None ==> r.execution_time.total_nanos() == 0,
        r.max_memory_used_bytes == result.max_memory_used_bytes,
{
    let response = choose|response: ExecuteResponse2|
        response.response == Some(ExecuteResponse::Result(result)) && #[trigger] call_ensures(
            decode_response,
            (response,),
            Execute2Outcome::Completed(r),
        );
    assert(response.response == Some(ExecuteResponse::Result(result)));
}

/// A completed action has the streams of the response, each its own, and ran the way
/// the response says; a cache hit is no remote run.
pub proof fn law_results_keep_their_streams(result: ExecutionResult2, r: CompletedAction)
    requires
        exists|response: ExecuteResponse2|
            response.response == Some(ExecuteResponse::Result(result)) && #[trigger] call_ensures(
                decode_response,
                (response,),
                Execute2Outcome::Completed(r),
            ),
    ensures
        (result.stdout matches Some(s) && s.item matches Some(StreamItem::Inline(bytes))
            && r.stdout@ == bytes@) || (r.stdout@.len() == 0 && !(result.stdout matches Some(s)
            && s.item is Some)),
        (result.stderr matches Some(s) && s.item matches Some(StreamItem::Inline(bytes))
            && r.stderr@ == bytes@) || (r.stderr@.len() == 0 && !(result.stderr matches Some(s)
            && s.item is Some)),
        ({
            let command = match result.execution_details {
                Some(details) => match details.execution_kind {
                    Some(kind) => kind.command,
                    None => None,
                },
                None => None,
            };
            &&& r.exec_kind is Unknown <==> command is None
            &&& r.exec_kind is Local <==> command == Some(ActionCommand::LocalCommand)
            &&& r.exec_kind is Omitted <==> command == Some(ActionCommand::OmittedLocalCommand)
            &&& r.exec_kind is RemoteCacheHit <==> command == Some(
                ActionCommand::RemoteCommand { cache_hit: true },
            )
            &&& r.exec_kind is RemoteExecuted <==> command == Some(
                ActionCommand::RemoteCommand { cache_hit: false },
            )
            &&& r.exec_kind is Worker <==> command == Some(ActionCommand::WorkerCommand) || command
                == Some(ActionCommand::WorkerInitCommand)
        }),
{
    let response = choose|response: ExecuteResponse2|
        response.response == Some(ExecuteResponse::Result(result)) && #[trigger] call_ensures(
            decode_response,
            (response,),
            Execute2Outcome::Completed(r),
        );
    assert(response.response == Some(ExecuteResponse::Result(result)));
}

/// A span travels as whole seconds and the rest in nanoseconds.
pub proof fn law_spans_travel_exactly(d: Duration, r: WireDuration)
    requires
        call_ensures(duration_to_proto, (d,), r),
        d.total_nanos() < 0x7fff_ffff_ffff_ffff,
    ensures
        r.seconds * 1_000_000_000 + r.nanos == d.total_nanos(),
        0 <= r.nanos < 1_000_000_000,
{
    let n = d.total_nanos();
    assert(n == (n / 1_000_000_000) * 1_000_000_000 + n % 1_000_000_000);
}

// ---------------------------------------------------------------------------
// What a result means for the run.

/// A result counts as passed only where it was seen to its end and passed. One that was
/// not seen to its end fails the run, quarantined or not; a failure of a quarantined
/// target does not.
pub proof fn law_quarantine_covers_only_complete_failures(
    status: TestVerdict,
    integrity: ResultIntegrity,
    quarantined: bool,
    r: ReportDisposition,
)
    requires
        call_ensures(report_disposition, (status, integrity, quarantined), r),
    ensures
        r is Passed <==> integrity is Complete && status is Pass,
        r is Skipped <==> integrity is Complete && (status is Skip || status is Omitted),
        r is QuarantinedFailure <==> integrity is Complete && quarantined && (status is Fail
            || status is Fatal || status is Timeout || status is InfraFailure),
        r is Failure <==> integrity is MissingTerminalResult || (!quarantined && (status is Fail
            || status is Fatal || status is Timeout || status is InfraFailure)),
{
}

/// The exit code of a run that passed is zero, of one that failed 32.
pub proof fn law_failed_runs_exit_with_32(verdict: RunVerdict, r: i32)
    requires
        call_ensures(RunVerdict::exit_code, (verdict,), r),
    ensures
        verdict is Pass ==> r == 0,
        verdict is Fail ==> r == 32,
{
}

/// Folding in a result leaves the results of other tests alone. A result that is missing
/// stays so and replaces any other; a test that did not fail keeps its result; a test
/// that failed gets the new one.
pub proof fn law_a_pass_is_kept_and_a_missing_result_stays(
    best: &mut NameMap<BestObs>,
    name: &str,
    incoming: BestObs,
)
    requires
        call_ensures(merge_best, (best, name, incoming), ()),
    ensures
        final(best)@.contains_key(name@),
        forall|other: Seq<char>|
            other != name@ ==> #[trigger] final(best)@.contains_key(other) == old(best)@.contains_key(other) && (old(best)@.contains_key(other) ==> final(best)@[other]@
                == old(best)@[other]@),
        !old(best)@.contains_key(name@) ==> final(best)@[name@]@ == incoming@,
        incoming.integrity is MissingTerminalResult ==> final(best)@[name@]@ == incoming@,
        old(best)@.contains_key(name@) && incoming.integrity is Complete ==> {
            let was = old(best)@[name@];
            &&& was.integrity is MissingTerminalResult ==> final(best)@[name@]@ == was@
            &&& was.status is Pass || was.status is Skip || was.status is Omitted ==> final(best)@[name@]@ == was@
            &&& was.integrity is Complete && (was.status is Fail || was.status is Fatal
                || was.status is Timeout || was.status is InfraFailure) ==> final(best)@[name@]@
                == incoming@
        },
{
    let before = crate::scheduler::observe::best_views(old(best)@);
    let after = crate::scheduler::observe::best_views(final(best)@);
    assert(after.contains_key(name@));
    assert(after[name@] == final(best)@[name@]@);
    assert forall|other: Seq<char>|
        other != name@ implies #[trigger] final(best)@.contains_key(other) == old(best)@.contains_key(other) && (old(best)@.contains_key(other) ==> final(best)@[other]@ == old(best)@[other]@) by {
        assert(after.contains_key(other) == before.contains_key(other));
        if old(best)@.contains_key(other) {
            assert(after[other] == before[other]);
        }
    }
    if old(best)@.contains_key(name@) {
        assert(before.contains_key(name@));
        assert(before[name@] == old(best)@[name@]@);
    }
}

/// A test of which nothing was seen is fatal and its result missing.
pub proof fn law_unseen_tests_are_missing(r: BestObs)
    requires
        call_ensures(BestObs::missing, (), r),
    ensures
        r.status is Fatal,
        r.integrity is MissingTerminalResult,
        r.details@ == "test produced no result"@,
        r.duration is Unmeasured,
        r.max_memory is None,
{
}

// ---------------------------------------------------------------------------
// Tests without a line of their own.

/// A requested test without a result of its own: a timeout is a timeout; a clean exit
/// passes a whole unit and is fatal for any other; a failing exit is the failure of a
/// test that ran alone and is fatal in a batch.
pub proof fn law_absent_tests_fail_closed(
    raw: ProcessOutcome,
    whole_unit: bool,
    singleton: bool,
    stdout: &[u8],
    stderr: &[u8],
    r: (TestVerdict, String),
)
    requires
        call_ensures(absent_name_verdict, (raw, whole_unit, singleton, stdout, stderr), r),
    ensures
        raw is TimedOut ==> r.0 is Timeout,
        raw matches ProcessOutcome::Finished { exit_code } ==> {
            &&& exit_code == 0 && whole_unit ==> r.0 is Pass && r.1@.len() == 0
            &&& exit_code == 0 && !whole_unit ==> r.0 is Fatal
            &&& exit_code != 0 && singleton ==> r.0 is Fail
            &&& exit_code != 0 && !singleton ==> r.0 is Fatal
        },
        raw is TimedOut ==> "execution timed out"@.is_prefix_of(r.1@),
        raw matches ProcessOutcome::Finished { exit_code } ==> {
            &&& exit_code == 0 && !whole_unit
                ==> "harness exited 0 but emitted no parseable result for this test"@.is_prefix_of(
                r.1@,
            )
            &&& exit_code != 0 && singleton
                ==> "test process exited nonzero with no harness-reported result"@.is_prefix_of(
                r.1@,
            )
            &&& exit_code != 0 && !singleton ==> r.1@ == "test produced no result in batch output"@
        },
{
    if raw is TimedOut {
        lemma_streams_follow("execution timed out"@, stdout@, stderr@);
    }
    if let ProcessOutcome::Finished { exit_code } = raw {
        if exit_code == 0 && !whole_unit {
            lemma_streams_follow(
                "harness exited 0 but emitted no parseable result for this test"@,
                stdout@,
                stderr@,
            );
        }
        if exit_code != 0 && singleton {
            lemma_streams_follow(
                "test process exited nonzero with no harness-reported result"@,
                stdout@,
                stderr@,
            );
        }
    }
}

proof fn lemma_streams_follow(details: Seq<char>, stdout: Seq<u8>, stderr: Seq<u8>)
    ensures
        details.is_prefix_of(
            crate::scheduler::observe::with_streams(details, stdout, stderr),
        ),
{
    let one = crate::scheduler::observe::with_stream(
        details,
        "stdout"@,
        text::utf8_lossy(stdout),
    );
    let both = crate::scheduler::observe::with_streams(details, stdout, stderr);
    assert(details.is_prefix_of(one));
    assert(one.is_prefix_of(both));
}

/// Details come first, then the output and then the error output, each under its header
/// and without the blanks at its end; a stream of blanks is left out.
pub proof fn law_streams_stand_under_their_headers(
    details: String,
    stdout: &[u8],
    stderr: &[u8],
    r: String,
)
    requires
        call_ensures(details_with_streams, (details, stdout, stderr), r),
        details@.len() > 0,
    ensures
        ({
            let out = text::trim_end(text::utf8_lossy(stdout@));
            let err = text::trim_end(text::utf8_lossy(stderr@));
            &&& out.len() == 0 && err.len() == 0 ==> r@ == details@
            &&& out.len() > 0 && err.len() == 0 ==> r@ == details@ + "\n---- stdout ----\n"@ + out
            &&& out.len() == 0 && err.len() > 0 ==> r@ == details@ + "\n---- stderr ----\n"@ + err
            &&& out.len() > 0 && err.len() > 0 ==> r@ == details@ + "\n---- stdout ----\n"@ + out
                + "\n---- stderr ----\n"@ + err
        }),
{
    reveal_strlit("\n---- stdout ----\n");
    reveal_strlit("\n---- stderr ----\n");
    reveal_strlit("---- ");
    reveal_strlit(" ----\n");
    reveal_strlit("stdout");
    reveal_strlit("stderr");
    let out = text::trim_end(text::utf8_lossy(stdout@));
    let err = text::trim_end(text::utf8_lossy(stderr@));
    let a = details@.push('\n') + "---- "@ + "stdout"@ + " ----\n"@ + out;
    assert(a =~= details@ + "\n---- stdout ----\n"@ + out);
    let b = details@.push('\n') + "---- "@ + "stderr"@ + " ----\n"@ + err;
    assert(b =~= details@ + "\n---- stderr ----\n"@ + err);
    let c = a.push('\n') + "---- "@ + "stderr"@ + " ----\n"@ + err;
    assert(c =~= details@ + "\n---- stdout ----\n"@ + out + "\n---- stderr ----\n"@ + err);
}

// ---------------------------------------------------------------------------
// Names.

/// A variant is called what it is read from, and the default one has no identity.
pub proof fn law_variants_read_back(
    text: &str,
    variant: Variant,
    label: String,
    identity: Option<String>,
)
    requires
        call_ensures(Variant::parse, (text,), variant),
        call_ensures(Variant::label, (&variant,), label),
        call_ensures(Variant::identity, (&variant,), identity),
    ensures
        label@ == text@,
        text@ == "default"@ <==> identity is None,
        identity matches Some(name) ==> name@ == text@,
        text@ == "asan"@ <==> variant is Asan,
        text@ == "tsan"@ <==> variant is Tsan,
        text@ == "miri"@ <==> variant is Miri,
        text@ == "loom"@ <==> variant is Loom,
        text@ == "coverage"@ <==> variant is Coverage,
{
    crate::variant::lemma_builtin_names_differ();
}

/// The built-in variants have identities of their own.
pub proof fn law_builtin_variants_have_their_names(variant: Variant, identity: Option<String>)
    requires
        call_ensures(Variant::identity, (&variant,), identity),
    ensures
        variant is Default <==> identity is None,
        variant is Asan ==> identity->0@ == "asan"@,
        variant is Tsan ==> identity->0@ == "tsan"@,
        variant is Miri ==> identity->0@ == "miri"@,
        variant is Loom ==> identity->0@ == "loom"@,
        variant is Coverage ==> identity->0@ == "coverage"@,
        variant matches Variant::Named(name) ==> identity->0@ == name@,
{
}

/// A run is reported under the name of its test; behind a `#` follows the variant that is
/// not the default one, and behind `#rep` the number of a repetition.
pub proof fn law_reported_names_tell_runs_apart(
    run: RunIdentity,
    identity: Option<String>,
    r: String,
)
    requires
        call_ensures(RunIdentity::to_buck2_name, (&run,), r),
        call_ensures(Variant::identity, (&run.test.variant,), identity),
    ensures
        identity is None && run.repeat is Once ==> r@ == run.test.name@,
        identity is Some && run.repeat is Once ==> r@ == run.test.name@ + "#"@ + identity->0@,
        identity is None && run.repeat is Stress ==> r@ == run.test.name@ + "#rep"@ + text::decimal(
            run.repeat_index as nat,
        ),
        identity is Some && run.repeat is Stress ==> r@ == run.test.name@ + "#"@ + identity->0@
            + "#rep"@ + text::decimal(run.repeat_index as nat),
{
    reveal_strlit("#");
    assert("#"@ =~= seq!['#']);
    let tag = crate::result::variant_tag(run.test.variant.spec_identity());
    let rep = crate::result::repeat_tag(run.repeat, run.repeat_index);
    assert(r@ == run.test.name@ + tag + rep);
    match identity {
        Some(name) => {
            assert(tag == seq!['#'] + name@);
            if run.repeat is Once {
                assert(r@ =~= run.test.name@ + "#"@ + name@);
            } else {
                assert(r@ =~= run.test.name@ + "#"@ + name@ + "#rep"@ + text::decimal(
                    run.repeat_index as nat,
                ));
            }
        },
        None => {
            if run.repeat is Once {
                assert(r@ =~= run.test.name@);
            } else {
                assert(r@ =~= run.test.name@ + "#rep"@ + text::decimal(run.repeat_index as nat));
            }
        },
    }
}

/// The key text of a test is the project, U+0002, the target, U+0001 and the name; behind
/// a `#` follows the variant that is not the default one.
pub proof fn law_key_texts_hold_the_identity(
    id: TestIdentity,
    project: &str,
    identity: Option<String>,
    r: String,
)
    requires
        call_ensures(TestIdentity::to_db_key, (&id, project), r),
        call_ensures(Variant::identity, (&id.variant,), identity),
    ensures
        identity is None ==> r@ == project@ + seq!['\u{2}'] + id.target@ + seq!['\u{1}'] + id.name@,
        identity is Some ==> r@ == project@ + seq!['\u{2}'] + id.target@ + seq!['\u{1}'] + id.name@
            + seq!['#'] + identity->0@,
{
    let head = project@ + seq!['\u{2}'] + id.target@ + seq!['\u{1}'] + id.name@;
    match identity {
        Some(name) => {
            assert(r@ =~= head + seq!['#'] + name@);
        },
        None => {
            assert(r@ =~= head);
        },
    }
}

/// A test runs once, or as often as a stress run says.
pub proof fn law_stress_runs_repeat(repeat: RepeatKind, r: u32)
    requires
        call_ensures(RepeatKind::count, (&repeat,), r),
    ensures
        repeat is Once ==> r == 1,
        repeat matches RepeatKind::Stress(n) ==> r == n.spec_get(),
{
}

/// A result is reported with all that is known of it: its own name, status, target, span,
/// details and memory.
pub proof fn law_results_are_reported_whole(
    run: &RunIdentity,
    target: ConfiguredTargetHandle,
    status: TestVerdict,
    duration: Option<Duration>,
    details: String,
    memory: Option<u64>,
    name: String,
    wire: TestStatus,
    r: TestResult,
)
    requires
        call_ensures(build_test_result, (run, target, status, duration, details, memory), r),
        call_ensures(RunIdentity::to_buck2_name, (run,), name),
        call_ensures(TestVerdict::to_wire, (status,), wire),
    ensures
        r.name@ == name@,
        r.status == wire,
        r.msg is None,
        r.target == Some(target),
        r.details@ == details@,
        r.max_memory_used_bytes == memory,
        r.duration is Some <==> duration is Some,
        duration matches Some(d) ==> (d.total_nanos() < 0x7fff_ffff_ffff_ffff ==> r.duration->0.seconds
            * 1_000_000_000 + r.duration->0.nanos == d.total_nanos()),
{
    if let Some(d) = duration {
        let n = d.total_nanos();
        assert(n == (n / 1_000_000_000) * 1_000_000_000 + n % 1_000_000_000);
    }
}

/// A log goes inline where it fits.
pub proof fn law_logs_that_fit_go_inline(len: usize, limit: usize, r: LogRouting)
    requires
        call_ensures(route_log, (len, limit), r),
    ensures
        len <= limit ==> r is Inline,
        len > limit ==> r is UploadToCas,
{
}

} // verus!

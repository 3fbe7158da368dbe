//! What the run as a whole comes to, and what is reported of each test.

use vstd::prelude::*;
use vstd::utf8::*;

use crate::cli::{RunnerConfig, SessionContext};
use crate::duration_db::{self, DurationDb, FlakeRecord};
use crate::policy::Owner;
use crate::result::{FailureClass, RunIdentity, TestVerdict};
use crate::scheduler::action::FinishedPart;
use crate::scheduler::finish::{
    self, append_attempt_history, console_test_name, details_after_upload, failure_annotation,
    finished_with_record, inline_body, make_finished, needs_upload, target_failure,
    target_failure_name, truncate, DetailKind, FinishedTest, UploadOutcome,
};
use crate::scheduler::observe::{self, AttemptDuration, AttemptObservation, AttemptView, RunVerdict};
use crate::scheduler::plan::TargetPlan;
use crate::scheduler::report::{
    closing_exit_code, final_exit_code, opening, record_attempts, session_summary, ConsoleLine,
    Opening, Reporter, Tally,
};
use crate::spec::TargetSpec;
use crate::text;
use crate::variant::RepeatKind;

verus! {

// ---------------------------------------------------------------------------
// The run.

/// A run that asks for help shows it and succeeds, one with arguments that the harness
/// refuses says so and fails with 32, and any other runs its targets.
pub proof fn law_help_and_usage_end_a_run_at_once(
    config: &RunnerConfig,
    r: Opening,
    code: Option<i32>,
)
    requires
        call_ensures(opening, (config,), r),
        call_ensures(Opening::exit_code, (&r,), code),
    ensures
        r is ShowHelp <==> config.libtest_help_only,
        r is RefuseUsage <==> !config.libtest_help_only && config.libtest_usage_error is Some,
        r matches Opening::RefuseUsage(line) ==> line@ == "error: "@
            + config.libtest_usage_error->0@,
        r is ShowHelp ==> code == Some(0i32),
        r is RefuseUsage ==> code == Some(32i32),
        r is RunTargets ==> code is None,
{
}

/// A run succeeds only where its reporter saw it pass and no target was lost; a lost
/// scheduler has a code of its own.
pub proof fn law_lost_work_fails_the_run(
    reported: Option<RunVerdict>,
    target_lost: bool,
    code: i32,
    scheduler: Option<i32>,
    last: i32,
)
    requires
        call_ensures(closing_exit_code, (reported, target_lost), code),
        call_ensures(final_exit_code, (scheduler,), last),
    ensures
        code == 0 <==> reported is Some && reported->0 is Pass && !target_lost,
        code != 0 ==> code == 32,
        scheduler matches Some(given) ==> last == given,
        scheduler is None ==> last == 70,
{
}

/// A reporter starts with nothing counted and a passing run.
pub proof fn law_reporters_start_at_nothing(r: Reporter)
    requires
        call_ensures(Reporter::new, (), r),
    ensures
        r.tally.total == 0,
        r.tally.passed == 0,
        r.tally.failed == 0,
        r.tally.quarantined_failed == 0,
        r.tally.skipped == 0,
        r.verdict is Pass,
        !r.report_failure_shown,
{
}

/// Whether a verdict is a failure.
pub open spec fn is_bad(verdict: TestVerdict) -> bool {
    verdict is Fail || verdict is Fatal || verdict is Timeout || verdict is InfraFailure
}

/// A finished test is counted once, under one heading. It fails the run where its result is
/// missing, or a failure that no quarantine covers, and is shown then.
pub proof fn law_finished_tests_are_counted_once(
    reporter: &mut Reporter,
    finished: &FinishedTest,
    r: Option<ConsoleLine>,
)
    requires
        call_ensures(Reporter::note_finished, (reporter, finished), r),
        old(reporter).has_room(),
    ensures
        ({
            let (was, is) = (old(reporter).tally, final(reporter).tally);
            let missing = finished.integrity is MissingTerminalResult;
            let bad = is_bad(finished.status);
            let fails = missing || (bad && !finished.quarantined);
            &&& is.total == was.total + 1
            &&& is.failed == was.failed + if fails {
                1int
            } else {
                0int
            }
            &&& is.quarantined_failed == was.quarantined_failed + if !missing && bad
                && finished.quarantined {
                1int
            } else {
                0int
            }
            &&& is.passed == was.passed + if !missing && finished.status is Pass {
                1int
            } else {
                0int
            }
            &&& is.skipped == was.skipped + if !missing && (finished.status is Skip
                || finished.status is Omitted) {
                1int
            } else {
                0int
            }
            &&& fails ==> final(reporter).verdict is Fail
            &&& !fails ==> final(reporter).verdict == old(reporter).verdict
            &&& r is Some <==> fails
            &&& r matches Some(line) ==> line.level is Warn && line.text@ == if finished.result.details@.len()
                == 0 {
                "FAIL "@ + finished.console_name@
            } else {
                "FAIL "@ + finished.console_name@ + "\n"@ + finished.result.details@
            }
        }),
{
}

/// A target that was dropped counts as a failure and fails the run, and so does a result
/// that could not be passed on, which is not counted; a failure of the session report does
/// neither and is shown once.
pub proof fn law_lost_reports_fail_the_run(
    dropped: &mut Reporter,
    reason: &str,
    line: ConsoleLine,
    unreported: &mut Reporter,
    broken: &mut Reporter,
    detail: &str,
    shown: Option<ConsoleLine>,
)
    requires
        call_ensures(Reporter::note_dropped, (dropped, reason), line),
        old(dropped).has_room(),
        call_ensures(Reporter::note_unreported, (unreported,), ()),
        call_ensures(Reporter::note_report_failure, (broken, detail), shown),
    ensures
        final(dropped).verdict is Fail,
        final(dropped).tally.total == old(dropped).tally.total + 1,
        final(dropped).tally.failed == old(dropped).tally.failed + 1,
        final(dropped).tally.passed == old(dropped).tally.passed,
        final(dropped).tally.skipped == old(dropped).tally.skipped,
        final(dropped).tally.quarantined_failed == old(dropped).tally.quarantined_failed,
        line.level is Error,
        line.text@ == "quokka: "@ + reason@,
        final(unreported).verdict is Fail,
        final(unreported).tally == old(unreported).tally,
        final(broken).verdict == old(broken).verdict,
        final(broken).tally == old(broken).tally,
        final(broken).report_failure_shown,
        shown is Some <==> !old(broken).report_failure_shown,
        shown matches Some(line) ==> line.level is Error && line.text@ == "quokka: "@ + detail@,
{
}

/// The summary names every count once, quarantined failures only where there are any, and
/// the host and the trace of the session.
pub proof fn law_the_summary_names_every_count(tally: &Tally, context: &SessionContext, r: String)
    requires
        call_ensures(session_summary, (tally, context), r),
    ensures
        ({
            let counts = "test run complete: "@ + text::decimal(tally.total as nat) + " tests, "@
                + text::decimal(tally.passed as nat) + " passed, "@ + text::decimal(
                tally.failed as nat,
            ) + " failed, "@ + text::decimal(tally.skipped as nat) + " skipped"@;
            let quarantined = " ("@ + text::decimal(tally.quarantined_failed as nat)
                + " quarantined failure(s), not counted)"@;
            &&& counts.is_prefix_of(r@)
            &&& context.host_platform is None && context.trace_id is None
                && tally.quarantined_failed == 0 ==> r@ == counts
            &&& context.host_platform is None && context.trace_id is None
                && tally.quarantined_failed > 0 ==> r@ == counts + quarantined
            &&& context.host_platform is Some && context.trace_id is None
                && tally.quarantined_failed == 0 ==> r@ == counts + (" [host="@
                + context.host_platform->0@ + "]"@)
            &&& context.host_platform is None && context.trace_id is Some
                && tally.quarantined_failed == 0 ==> r@ == counts + (" [trace="@
                + context.trace_id->0@ + "]"@)
        }),
{
    let counts = "test run complete: "@ + text::decimal(tally.total as nat) + " tests, "@
        + text::decimal(tally.passed as nat) + " passed, "@ + text::decimal(tally.failed as nat)
        + " failed, "@ + text::decimal(tally.skipped as nat) + " skipped"@;
    let empty = Seq::<char>::empty();
    assert(counts + empty + empty + empty =~= counts);
    let quarantined = " ("@ + text::decimal(tally.quarantined_failed as nat)
        + " quarantined failure(s), not counted)"@;
    assert(counts + quarantined + empty + empty =~= counts + quarantined);
    if context.host_platform is Some {
        let host = " [host="@ + context.host_platform->0@ + "]"@;
        assert(counts + empty + host + empty =~= counts + host);
    }
    if context.trace_id is Some {
        let trace = " [trace="@ + context.trace_id->0@ + "]"@;
        assert(counts + empty + empty + trace =~= counts + trace);
    }
    assert(counts.is_prefix_of(r@));
}

/// The last line is a warning exactly where a test failed.
pub proof fn law_failed_runs_close_with_a_warning(
    reporter: &Reporter,
    context: &SessionContext,
    r: ConsoleLine,
)
    requires
        call_ensures(Reporter::closing_line, (reporter, context), r),
    ensures
        r.level is Warn <==> reporter.tally.failed > 0,
        r.level is Info <==> reporter.tally.failed == 0,
{
}

// ---------------------------------------------------------------------------
// Details.

/// A text that fills no more than 4096 bytes stays as it is. Of a longer one stays the
/// longest part at its start that does, with a remark.
pub proof fn law_previews_keep_the_start(details: &str, r: String)
    requires
        call_ensures(truncate, (details,), r),
    ensures
        encode_utf8(details@).len() <= 4096 ==> r@ == details@,
        encode_utf8(details@).len() > 4096 ==> exists|k: int|
            #![trigger details@.take(k)]
            {
                &&& 0 <= k < details@.len()
                &&& r@ == details@.take(k) + "\n\u{2026}[truncated, full log in CAS]"@
                &&& encode_utf8(details@.take(k)).len() <= 4096
                &&& encode_utf8(details@.take(k + 1)).len() > 4096
            },
{
    if encode_utf8(details@).len() > 4096 {
        assert(details@.take(details@.len() as int) =~= details@);
        lemma_head(details@, details@.len());
        let k = finish::head_len(details@, details@.len()) as int;
        assert(r@ == details@.take(k) + "\n\u{2026}[truncated, full log in CAS]"@);
    }
}

proof fn lemma_head(details: Seq<char>, n: nat)
    requires
        n <= details.len(),
        encode_utf8(details.take(n as int)).len() > 4096,
    ensures
        ({
            let k = finish::head_len(details, n) as int;
            &&& k < n
            &&& encode_utf8(details.take(k)).len() <= 4096
            &&& encode_utf8(details.take(k + 1)).len() > 4096
        }),
    decreases n,
{
    if n == 0 {
        assert(details.take(0) =~= Seq::<char>::empty());
    } else {
        let m = (n - 1) as nat;
        if encode_utf8(details.take(m as int)).len() > 4096 {
            lemma_head(details, m);
        }
    }
}

/// The details of a failure stay whole, those of any other test are cut to a preview.
pub proof fn law_failures_are_never_cut(
    status: TestVerdict,
    kind: DetailKind,
    details: &str,
    r: String,
    cut: String,
)
    requires
        call_ensures(DetailKind::of, (status,), kind),
        call_ensures(inline_body, (kind, details), r),
        call_ensures(truncate, (details,), cut),
    ensures
        is_bad(status) ==> r@ == details@,
        !is_bad(status) ==> r@ == cut@,
{
}

/// Details are uploaded exactly where they fill more bytes than may stay inline.
pub proof fn law_only_long_details_are_uploaded(details: &str, config: &RunnerConfig, r: bool)
    requires
        call_ensures(needs_upload, (details, config), r),
    ensures
        r <==> encode_utf8(details@).len() > config.cas_inline_limit,
{
}

/// Details that were uploaded start with a line on the upload: how many bytes, and where
/// they are or why not; what stays inline follows.
pub proof fn law_uploads_are_told(
    kind: DetailKind,
    details: &str,
    outcome: &UploadOutcome,
    body: String,
    r: String,
)
    requires
        call_ensures(details_after_upload, (kind, details, outcome), r),
        call_ensures(inline_body, (kind, details), body),
    ensures
        ({
            let size = text::decimal(encode_utf8(details@).len());
            match *outcome {
                UploadOutcome::NotWritten(error) => r@ == "[log "@ + size
                    + " bytes; CAS upload skipped: "@ + error@ + "]"@ + "\n"@ + body@,
                UploadOutcome::Failed(error) => r@ == "[log "@ + size
                    + " bytes; CAS upload failed: "@ + error@ + "]"@ + "\n"@ + body@,
                UploadOutcome::Uploaded { hash, size_bytes } => size_bytes >= 0 ==> r@ == "[log "@
                    + size + " bytes uploaded to CAS: "@ + hash@ + "/"@ + text::decimal(
                    size_bytes as nat,
                ) + "]"@ + "\n"@ + body@,
            }
        }),
{
}

/// The line on an attempt: its number, its verdict, how long it took, and the first line of
/// its details, cut to 500 characters.
pub open spec fn attempt_told(index: int, attempt: AttemptView) -> Seq<char> {
    let verdict = if attempt.status is Pass {
        "Pass"@
    } else if attempt.status is Fail {
        "Fail"@
    } else if attempt.status is Skip {
        "Skip"@
    } else if attempt.status is Omitted {
        "Omitted"@
    } else if attempt.status is Fatal {
        "Fatal"@
    } else if attempt.status is Timeout {
        "Timeout"@
    } else {
        "InfraFailure"@
    };
    let time = match attempt.duration {
        AttemptDuration::Measured(d) => " duration_ms="@ + text::decimal(d.total_millis()),
        AttemptDuration::Unmeasured => " duration=unmeasured"@,
    };
    let lines = text::lines(attempt.details);
    let first = if lines.len() == 0 {
        Seq::empty()
    } else if lines[0].len() <= 500 {
        lines[0]
    } else {
        lines[0].take(500)
    };
    "\nattempt "@ + text::decimal((index + 1) as nat) + ": "@ + verdict + time + (if first.len()
        == 0 {
        Seq::empty()
    } else {
        " details="@ + first
    })
}

/// The lines on the attempts of a test, in order.
pub open spec fn attempts_told(attempts: Seq<AttemptView>) -> Seq<char>
    decreases attempts.len(),
{
    if attempts.len() == 0 {
        Seq::empty()
    } else {
        attempts_told(attempts.drop_last()) + attempt_told(attempts.len() - 1, attempts.last())
    }
}

/// A test with several attempts lists them all behind its details; one with a single
/// attempt needs no list.
pub proof fn law_several_attempts_are_listed(details: &mut String, attempts: &[AttemptObservation])
    requires
        call_ensures(append_attempt_history, (details, attempts), ()),
    ensures
        attempts@.len() < 2 ==> final(details)@ == old(details)@,
        attempts@.len() >= 2 && old(details)@.len() > 0 ==> final(details)@ == old(details)@ + "\n"@
            + "quokka attempt history:"@ + attempts_told(
            Seq::new(attempts@.len(), |i: int| attempts@[i]@),
        ),
        attempts@.len() >= 2 && old(details)@.len() == 0 ==> final(details)@
            == "quokka attempt history:"@ + attempts_told(
            Seq::new(attempts@.len(), |i: int| attempts@[i]@),
        ),
{
    let views = Seq::new(attempts@.len(), |i: int| attempts@[i]@);
    assert(views =~= observe::attempt_views(attempts@));
    lemma_attempts_told(views, views.len());
    assert(views.take(views.len() as int) =~= views);
    if old(details)@.len() == 0 {
        assert(old(details)@ + "quokka attempt history:"@ =~= "quokka attempt history:"@);
    }
}

proof fn lemma_attempts_told(attempts: Seq<AttemptView>, n: nat)
    requires
        n <= attempts.len(),
    ensures
        attempts_told(attempts.take(n as int)) == finish::attempt_lines(attempts, n),
    decreases n,
{
    if n > 0 {
        lemma_attempts_told(attempts, (n - 1) as nat);
        assert(attempts.take(n as int).drop_last() =~= attempts.take(n - 1));
        let attempt = attempts[n - 1];
        assert(attempts.take(n as int).last() == attempt);
        assert(attempt_told(n - 1, attempt) == finish::attempt_line((n - 1) as nat, attempt));
    }
}

/// The note on a failing test, piece by piece.
pub open spec fn annotated(
    spec: TargetSpec,
    owner: Owner,
    flake: Option<FlakeRecord>,
) -> Seq<char> {
    let platform = if spec.target_platform is Some {
        " | target_platform="@ + spec.target_platform->0@
    } else {
        Seq::empty()
    };
    let team = if owner is Team {
        " | owner="@ + owner->Team_0@
    } else {
        Seq::empty()
    };
    let contacts = if spec.contacts@.len() > 0 {
        " | contacts=["@ + (text::joined(text::views(spec.contacts@), ","@) + "]"@)
    } else {
        Seq::empty()
    };
    let oncall = if spec.oncall is Some {
        " | oncall="@ + spec.oncall->0@
    } else {
        Seq::empty()
    };
    let last = if flake is Some && (flake->0).last_failure_class is Some {
        ", last="@ + (match (flake->0).last_failure_class->0 {
            FailureClass::Fail => "Fail"@,
            FailureClass::Fatal => "Fatal"@,
            FailureClass::Timeout => "Timeout"@,
            FailureClass::Infra => "Infra"@,
        })
    } else {
        Seq::empty()
    };
    let history = if flake is Some && (flake->0).runs > 0 {
        " | flaky_history: failed "@ + text::decimal((flake->0).failures as nat) + "/"@
            + text::decimal((flake->0).runs as nat) + " recent runs"@ + last
    } else {
        Seq::empty()
    };
    "[brtr: target="@ + spec.display@ + platform + team + contacts + oncall + history + "]"@
}

/// The note on a failing test tells its target, the platform, the owner, the contacts and
/// the oncall where there are any, and how many of its runs failed where it has run.
pub proof fn law_failing_tests_tell_who_looks_after_them(
    plan: &TargetPlan,
    flake: Option<FlakeRecord>,
    r: String,
)
    requires
        call_ensures(failure_annotation, (plan, flake), r),
    ensures
        r@ == annotated(plan.spec, plan.owner, flake),
{
}

// ---------------------------------------------------------------------------
// Finished tests.

/// A run is called by its target and its reported name.
pub proof fn law_console_names_hold_the_target(run: &RunIdentity, name: String, r: String)
    requires
        call_ensures(console_test_name, (run,), r),
        call_ensures(RunIdentity::to_buck2_name, (run,), name),
    ensures
        r@ == run.test.target@ + "::"@ + name@,
{
}

/// A test is reported as it came out: its own name under its target, its verdict and
/// integrity, its attempts and observations, and the quarantine and labels of its target.
/// Its details come first; where it failed, the note on it comes last.
pub proof fn law_tests_are_reported_as_they_came_out(
    plan: &TargetPlan,
    config: &RunnerConfig,
    flake: Option<FlakeRecord>,
    part: FinishedPart,
    repeat_index: u32,
    routed: String,
    r: FinishedTest,
)
    requires
        call_ensures(finished_with_record, (plan, config, flake, part, repeat_index, routed), r),
    ensures
        reported_as_it_came_out(*plan, *config, flake, part, repeat_index, routed@, r),
{
    lemma_reported(*plan, *config, flake, part, repeat_index, routed@, r);
}

/// Whether a finished test reports a part as it came out.
pub open spec fn reported_as_it_came_out(
    plan: TargetPlan,
    config: RunnerConfig,
    flake: Option<FlakeRecord>,
    part: FinishedPart,
    repeat_index: u32,
    routed: Seq<char>,
    r: FinishedTest,
) -> bool {
    let several = part.history@.len() >= 2;
    &&& r.test_id.target@ == plan.spec.display@
    &&& r.test_id.name@ == part.name@
    &&& r.test_id.variant == config.variant
    &&& r.run_id.test == r.test_id
    &&& r.run_id.repeat == plan.repeat
    &&& r.run_id.repeat_index == repeat_index
    &&& r.status == part.outcome.status
    &&& r.integrity == part.outcome.integrity
    &&& r.quarantined <==> plan.quarantine is Quarantined
    &&& r.labels@ == plan.spec.labels@
    &&& r.db_observations@ == part.observations@
    &&& r.attempt_history@ == part.history@
    &&& r.result.max_memory_used_bytes == part.outcome.max_memory
    &&& r.result.target matches Some(target) && target.id == plan.spec.handle.0
    &&& r.result.duration is Some <==> part.outcome.duration is Measured
    &&& routed.is_prefix_of(r.result.details@)
    &&& !is_bad(r.status) && !several ==> r.result.details@ == routed
    &&& is_bad(r.status) && !several ==> r.result.details@ == routed + "\n"@ + annotated(
        plan.spec,
        plan.owner,
        flake,
    )
    &&& is_bad(r.status) ==> annotated(plan.spec, plan.owner, flake).is_suffix_of(
        r.result.details@,
    )
}

proof fn lemma_reported(
    plan: TargetPlan,
    config: RunnerConfig,
    flake: Option<FlakeRecord>,
    part: FinishedPart,
    repeat_index: u32,
    routed: Seq<char>,
    r: FinishedTest,
)
    requires
        finish::is_finished(plan, config, flake, part, repeat_index, routed, r),
    ensures
        reported_as_it_came_out(plan, config, flake, part, repeat_index, routed, r),
{
    let attempts = observe::attempt_views(part.history@);
    finish::law_reports_start_with_the_details(
        plan,
        flake,
        part.outcome.status,
        routed,
        attempts,
    );
    let note = annotated(plan.spec, plan.owner, flake);
    assert(note == finish::annotation(plan.spec, plan.owner, flake));
    if is_bad(r.status) {
        let details = r.result.details@;
        assert(details.subrange(details.len() - note.len(), details.len() as int) =~= note);
    }
}

/// The note on a failing test goes by the record under the key of its own identity: the
/// target, its name and the variant, in the project of the store.
pub proof fn law_failure_records_are_of_the_test_itself(
    plan: &TargetPlan,
    config: &RunnerConfig,
    db: &DurationDb,
    part: FinishedPart,
    repeat_index: u32,
    routed: String,
    r: FinishedTest,
)
    requires
        call_ensures(make_finished, (plan, config, db, part, repeat_index, routed), r),
    ensures
        exists|key: u64|
            {
                &&& #[trigger] duration_db::is_key(
                    db.spec_project(),
                    plan.spec.display@,
                    part.name@,
                    config.variant,
                    key,
                )
                &&& reported_as_it_came_out(
                    *plan,
                    *config,
                    db@.flakes(None, key),
                    part,
                    repeat_index,
                    routed@,
                    r,
                )
            },
{
    let key = choose|key: u64|
        duration_db::is_key(
            db.spec_project(),
            plan.spec.display@,
            part.name@,
            config.variant,
            key,
        ) && finish::is_finished(
            *plan,
            *config,
            #[trigger] db@.flakes(None, key),
            part,
            repeat_index,
            routed@,
            r,
        );
    lemma_reported(*plan, *config, db@.flakes(None, key), part, repeat_index, routed@, r);
}

/// A target that fails as a whole is reported under its own name, with its result missing
/// and nothing for the history.
pub proof fn law_failed_targets_have_no_result(
    spec: &TargetSpec,
    config: &RunnerConfig,
    quarantined: bool,
    repeat: RepeatKind,
    status: TestVerdict,
    routed: String,
    r: FinishedTest,
    name: String,
)
    requires
        call_ensures(target_failure, (spec, config, quarantined, repeat, status, routed), r),
        call_ensures(target_failure_name, (spec,), name),
    ensures
        r.test_id.target@ == spec.display@,
        r.test_id.name@ == spec.display@,
        r.test_id.variant == config.variant,
        r.status == status,
        r.integrity is MissingTerminalResult,
        r.quarantined == quarantined,
        r.labels@ == spec.labels@,
        r.db_observations@.len() == 0,
        r.attempt_history@.len() == 0,
        r.result.details@ == routed@,
        r.result.duration is None,
        name@ == spec.suite@ + " (listing)"@,
{
}

/// How many of some attempts ran in an environment.
pub open spec fn runs_in(
    attempts: Seq<observe::DbObservation>,
    local: bool,
    only_failed: bool,
) -> nat
    decreases attempts.len(),
{
    if attempts.len() == 0 {
        0
    } else {
        let last = attempts.last();
        runs_in(attempts.drop_last(), local, only_failed) + if (last.env is Local) == local && (
        only_failed ==> last.failed) {
            1nat
        } else {
            0nat
        }
    }
}

/// The runs and failures on record for a key in an environment.
pub open spec fn counts_at(db: DurationDb, local: bool, key: u64) -> (nat, nat) {
    let flake = if local {
        db@.local.flake
    } else {
        db@.remote.flake
    };
    if flake.contains_key(key) {
        (flake[key].runs as nat, flake[key].failures as nat)
    } else {
        (0, 0)
    }
}

/// Every fresh attempt of a test is recorded where it ran, under the key of the test: so many
/// runs and so many failures more. Nothing is recorded under any other key.
pub proof fn law_every_attempt_is_recorded_where_it_ran(
    db: &mut DurationDb,
    finished: &FinishedTest,
    times: &[u64],
    local: bool,
)
    requires
        call_ensures(record_attempts, (db, finished, times), ()),
        times@.len() == finished.db_observations@.len(),
    ensures
        exists|key: u64|
            {
                let before = counts_at(*old(db), local, key);
                let runs = runs_in(finished.db_observations@, local, false);
                let failures = runs_in(finished.db_observations@, local, true);
                &&& #[trigger] duration_db::is_key(
                    old(db).spec_project(),
                    finished.test_id.target@,
                    finished.test_id.name@,
                    finished.test_id.variant,
                    key,
                )
                &&& before.0 + runs <= u64::MAX && before.1 + failures <= u64::MAX ==> counts_at(
                    *final(db),
                    local,
                    key,
                ) == (before.0 + runs, before.1 + failures)
                &&& forall|other: u64|
                    other != key ==> #[trigger] counts_at(*final(db), local, other) == counts_at(
                        *old(db),
                        local,
                        other,
                    )
            },
{
    let key = choose|key: u64|
        old(db).keyed(finished.test_id, key) && final(db)@
            == #[trigger] crate::scheduler::report::with_attempts_recorded(
            old(db)@,
            key,
            finished.test_id@,
            finished.db_observations@,
            times@,
            times@.len(),
        );
    let all = finished.db_observations@;
    assert(old(db).keyed(finished.test_id, key));
    assert(all.take(all.len() as int) =~= all);
    lemma_recorded(
        old(db)@,
        key,
        finished.test_id@,
        all,
        times@,
        times@.len(),
        local,
        key,
    );
    assert forall|other: u64|
        other != key implies #[trigger] counts_at(*final(db), local, other) == counts_at(
        *old(db),
        local,
        other,
    ) by {
        lemma_recorded(
            old(db)@,
            key,
            finished.test_id@,
            all,
            times@,
            times@.len(),
            local,
            other,
        );
    }
}

spec fn counts_in(db: duration_db::DbView, local: bool, key: u64) -> (nat, nat) {
    let flake = if local {
        db.local.flake
    } else {
        db.remote.flake
    };
    if flake.contains_key(key) {
        (flake[key].runs as nat, flake[key].failures as nat)
    } else {
        (0, 0)
    }
}

proof fn lemma_recorded(
    db: duration_db::DbView,
    key: u64,
    id: crate::result::IdentityView,
    attempts: Seq<observe::DbObservation>,
    times: Seq<u64>,
    n: nat,
    local: bool,
    at: u64,
)
    requires
        n <= attempts.len(),
    ensures
        ({
            let after = crate::scheduler::report::with_attempts_recorded(
                db,
                key,
                id,
                attempts,
                times,
                n,
            );
            let before = counts_in(db, local, at);
            let runs = runs_in(attempts.take(n as int), local, false);
            let failures = runs_in(attempts.take(n as int), local, true);
            &&& at != key ==> counts_in(after, local, at) == before
            &&& at == key && before.0 + runs <= u64::MAX && before.1 + failures <= u64::MAX
                ==> counts_in(after, local, at) == (before.0 + runs, before.1 + failures)
        }),
    decreases n,
{
    if n > 0 {
        let m = (n - 1) as nat;
        lemma_recorded(db, key, id, attempts, times, m, local, at);
        let last = attempts[n - 1];
        assert(attempts.take(n as int).drop_last() =~= attempts.take(n - 1));
        assert(attempts.take(n as int).last() == last);
        let before = crate::scheduler::report::with_attempts_recorded(
            db,
            key,
            id,
            attempts,
            times,
            m,
        );
        let after = before.with_recorded(
            last.env,
            key,
            id,
            duration_db::millis_u64(last.duration),
            last.failed,
            last.failure_class,
            times[n - 1],
        );
        assert(after == crate::scheduler::report::with_attempts_recorded(
            db,
            key,
            id,
            attempts,
            times,
            n,
        ));
    }
}

} // verus!

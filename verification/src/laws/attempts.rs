//! How often a test runs, what its attempts leave behind, and when its action is done.

use vstd::prelude::*;

use crate::batching::{BatchFailurePolicy, TestSelection};
use crate::config::QuokkaConfig;
use crate::policy::RetryPolicy;
use crate::result::TestVerdict;
use crate::scheduler::action::{
    self, allowed_attempts, ran_out, ActionState, ActionStep, FinishedPart, Isolation, NoteView,
    RecordView,
};
use crate::scheduler::group::{GroupOutcome, ObservedGroup};
use crate::scheduler::observe::{
    self, AttemptDuration, AttemptExecution, ResultIntegrity, ResultView,
};

verus! {

/// Whether a verdict is a failure.
pub open spec fn is_bad(verdict: TestVerdict) -> bool {
    verdict is Fail || verdict is Fatal || verdict is Timeout || verdict is InfraFailure
}

/// A failing test gets the attempts of its target, or those that the user grants to
/// tests that have failed before, whichever are more.
pub proof fn law_flaky_tests_get_the_granted_attempts(
    retry: RetryPolicy,
    config: &QuokkaConfig,
    flaky: bool,
    r: u32,
)
    requires
        call_ensures(allowed_attempts, (retry, config, flaky), r),
    ensures
        r >= retry.spec_max_attempts(),
        !flaky || config.flaky_retry is None ==> r == retry.spec_max_attempts(),
        flaky && config.flaky_retry is Some ==> r >= config.flaky_retry->0.attempts && (r
            == retry.spec_max_attempts() || r == config.flaky_retry->0.attempts),
{
}

/// An action runs out of time only where it failed with the timeout of the whole action.
pub proof fn law_only_action_timeouts_run_out(outcome: &GroupOutcome, r: bool)
    requires
        call_ensures(ran_out, (outcome,), r),
    ensures
        r <==> (*outcome matches GroupOutcome::Failed(f) && f.disposition is CompleteActionTimeout),
{
}

/// An action starts with every test pending, nothing seen and no attempt made.
pub proof fn law_actions_start_fresh(
    selection: TestSelection<String>,
    expected: Vec<String>,
    r: ActionState,
)
    requires
        call_ensures(ActionState::new, (selection, expected), r),
    ensures
        r.selection == selection,
        r.expected@ == expected@,
        r.pending@ == expected@,
        forall|name: Seq<char>| !#[trigger] r.record@.best.contains_key(name),
        forall|name: Seq<char>| !#[trigger] r.record@.attempts.contains_key(name),
        forall|name: Seq<char>| !#[trigger] r.record@.history.contains_key(name),
        r.failure_attempt == 0,
        r.action_timeouts == 0,
        r.execution_attempt == 0,
        r.first_attempt_index == 0,
{
}

/// The first group of an action runs the selection as it is; a group that runs because
/// tests failed names them.
pub proof fn law_reruns_name_their_tests(s: &ActionState, r: TestSelection<String>)
    requires
        call_ensures(ActionState::current_selection, (s,), r),
    ensures
        s.failure_attempt == 0 && s.selection is All ==> r is All,
        s.failure_attempt == 0 && s.selection is Explicit ==> r is Explicit && r->Explicit_0@
            == s.selection->Explicit_0@,
        s.failure_attempt > 0 ==> r is Explicit && r->Explicit_0@ == s.pending@,
{
}

/// The number of an attempt counts what ran before the action and in it.
pub proof fn law_attempts_are_counted(s: &ActionState, r: u32)
    requires
        call_ensures(ActionState::attempt_index, (s,), r),
    ensures
        s.first_attempt_index + s.execution_attempt <= u32::MAX ==> r == s.first_attempt_index
            + s.execution_attempt,
        s.first_attempt_index + s.execution_attempt > u32::MAX ==> r == u32::MAX,
{
}

// ---------------------------------------------------------------------------
// Which tests run again.

/// Whether a test of an action still fails: its best result is a failure, or there is
/// none.
pub open spec fn still_fails(s: ActionState, name: Seq<char>) -> bool {
    s.record@.best.contains_key(name) ==> is_bad(s.record@.best[name].status)
}

/// Whether `picked` are the texts at exactly those positions that `wanted` picks, in
/// order.
pub open spec fn picks(texts: Seq<String>, wanted: spec_fn(int) -> bool, picked: Seq<String>) -> bool {
    exists|at: Seq<int>| #[trigger] picks_at(texts, wanted, picked, at)
}

/// Whether `at` are the positions that `wanted` picks, in order, and `picked` the texts
/// there.
pub open spec fn picks_at(
    texts: Seq<String>,
    wanted: spec_fn(int) -> bool,
    picked: Seq<String>,
    at: Seq<int>,
) -> bool {
    &&& at.len() == picked.len()
    &&& forall|k: int|
        0 <= k < at.len() ==> 0 <= #[trigger] at[k] < texts.len() && wanted(at[k]) && picked[k]
            == texts[at[k]]
    &&& forall|j: int, k: int| 0 <= j < k < at.len() ==> #[trigger] at[j] < #[trigger] at[k]
    &&& forall|i: int| 0 <= i < texts.len() && #[trigger] wanted(i) ==> at.contains(i)
}

proof fn lemma_failing_picked(s: ActionState, n: nat) -> (at: Seq<int>)
    requires
        n <= s.expected@.len(),
    ensures
        picks_at(
            s.expected@.take(n as int),
            |i: int| still_fails(s, s.expected@[i]@),
            action::failing_names(s.record@, s.expected@, n),
            at,
        ),
    decreases n,
{
    let wanted = |i: int| still_fails(s, s.expected@[i]@);
    let texts = s.expected@.take(n as int);
    if n == 0 {
        Seq::empty()
    } else {
        let before = lemma_failing_picked(s, (n - 1) as nat);
        let shorter = s.expected@.take(n - 1);
        assert(texts =~= shorter.push(s.expected@[n - 1]));
        let at = if wanted(n - 1) {
            before.push(n - 1)
        } else {
            before
        };
        lemma_picks_grow(
            shorter,
            texts,
            wanted,
            action::failing_names(s.record@, s.expected@, (n - 1) as nat),
            before,
            s.expected@[n - 1],
        );
        at
    }
}

proof fn lemma_picks_grow(
    shorter: Seq<String>,
    texts: Seq<String>,
    wanted: spec_fn(int) -> bool,
    picked: Seq<String>,
    at: Seq<int>,
    last: String,
)
    requires
        picks_at(shorter, wanted, picked, at),
        texts == shorter.push(last),
    ensures
        wanted(shorter.len() as int) ==> picks_at(
            texts,
            wanted,
            picked.push(last),
            at.push(shorter.len() as int),
        ),
        !wanted(shorter.len() as int) ==> picks_at(texts, wanted, picked, at),
{
    let n = shorter.len() as int;
    if wanted(n) {
        let more = at.push(n);
        assert forall|i: int| 0 <= i < texts.len() && #[trigger] wanted(i) implies more.contains(
            i,
        ) by {
            if i < n {
                assert(at.contains(i));
                let k = choose|k: int| 0 <= k < at.len() && at[k] == i;
                assert(more[k] == i);
            } else {
                assert(more[at.len() as int] == i);
            }
        }
        assert forall|k: int| 0 <= k < more.len() implies 0 <= #[trigger] more[k] < texts.len()
            && wanted(more[k]) && picked.push(last)[k] == texts[more[k]] by {
            if k < at.len() {
                assert(more[k] == at[k]);
            }
        }
        assert forall|j: int, k: int| 0 <= j < k < more.len() implies #[trigger] more[j]
            < #[trigger] more[k] by {
            assert(more[j] == at[j]);
            if k < at.len() {
                assert(more[k] == at[k]);
            }
        }
    } else {
        assert forall|k: int| 0 <= k < at.len() implies 0 <= #[trigger] at[k] < texts.len()
            && wanted(at[k]) && picked[k] == texts[at[k]] by {}
    }
}

/// The tests that still fail are exactly those whose best result is a failure or that
/// have none, in the order of the action.
pub proof fn law_failing_tests_are_told(s: &ActionState, r: Vec<String>)
    requires
        call_ensures(ActionState::still_failing, (s,), r),
    ensures
        picks(s.expected@, |i: int| still_fails(*s, s.expected@[i]@), r@),
{
    let at = lemma_failing_picked(*s, s.expected@.len());
    assert(s.expected@.take(s.expected@.len() as int) =~= s.expected@);
    assert(picks_at(s.expected@, |i: int| still_fails(*s, s.expected@[i]@), r@, at));
}

/// How many attempts test `i` of an action gets.
pub open spec fn budget(
    retry: RetryPolicy,
    config: QuokkaConfig,
    flaky: bool,
) -> u32 {
    if flaky && config.flaky_retry is Some && config.flaky_retry->0.attempts
        > retry.spec_max_attempts() {
        config.flaky_retry->0.attempts
    } else {
        retry.spec_max_attempts()
    }
}

proof fn lemma_retried_picked(
    s: ActionState,
    flaky: Seq<bool>,
    retry: RetryPolicy,
    config: QuokkaConfig,
    n: nat,
) -> (at: Seq<int>)
    requires
        n <= s.expected@.len(),
    ensures
        picks_at(
            s.expected@.take(n as int),
            |i: int|
                still_fails(s, s.expected@[i]@) && s.failure_attempt + 1 < budget(
                    retry,
                    config,
                    flaky[i],
                ),
            action::retried_names(
                s.record@,
                s.expected@,
                flaky,
                retry,
                config,
                s.failure_attempt,
                n,
            ),
            at,
        ),
    decreases n,
{
    let wanted = |i: int|
        still_fails(s, s.expected@[i]@) && s.failure_attempt + 1 < budget(retry, config, flaky[i]);
    let texts = s.expected@.take(n as int);
    if n == 0 {
        Seq::empty()
    } else {
        let before = lemma_retried_picked(s, flaky, retry, config, (n - 1) as nat);
        let shorter = s.expected@.take(n - 1);
        assert(texts =~= shorter.push(s.expected@[n - 1]));
        let at = if wanted(n - 1) {
            before.push(n - 1)
        } else {
            before
        };
        lemma_picks_grow(
            shorter,
            texts,
            wanted,
            action::retried_names(
                s.record@,
                s.expected@,
                flaky,
                retry,
                config,
                s.failure_attempt,
                (n - 1) as nat,
            ),
            before,
            s.expected@[n - 1],
        );
        at
    }
}

/// What follows a group. Where no test fails any more, the action is done. An action out
/// of time runs its failing tests again, three times at most. Tests that fail otherwise
/// run again while their own attempts last, and only they do. A batch whose failures are
/// used up is taken apart where that is the policy.
pub proof fn law_what_follows_a_group(
    s: &mut ActionState,
    out_of_time: bool,
    flaky: &[bool],
    retry: RetryPolicy,
    config: &QuokkaConfig,
    policy: BatchFailurePolicy,
    r: ActionStep,
)
    requires
        call_ensures(ActionState::decide, (s, out_of_time, flaky, retry, config, policy), r),
        flaky@.len() == old(s).expected@.len(),
    ensures
        follows(*old(s), out_of_time, flaky@, retry, *config, policy, r, *final(s)),
{
    lemma_follows(*old(s), out_of_time, flaky@, retry, *config, policy, r, *final(s));
}

/// Whether a step and a new state follow a group.
pub open spec fn follows(
    s: ActionState,
    out_of_time: bool,
    flaky: Seq<bool>,
    retry: RetryPolicy,
    config: QuokkaConfig,
    policy: BatchFailurePolicy,
    step: ActionStep,
    t: ActionState,
) -> bool {
    let fails = |i: int| still_fails(s, s.expected@[i]@);
    let again = |i: int|
        still_fails(s, s.expected@[i]@) && s.failure_attempt + 1 < budget(retry, config, flaky[i]);
    let any_fails = exists|i: int| 0 <= i < s.expected@.len() && #[trigger] fails(i);
    let any_again = exists|i: int| 0 <= i < s.expected@.len() && #[trigger] again(i);
    &&& t.selection == s.selection
    &&& t.expected == s.expected
    &&& t.record == s.record
    &&& t.first_attempt_index == s.first_attempt_index
    &&& !any_fails ==> step is Finish
    &&& any_fails && out_of_time && s.action_timeouts >= 2 ==> step is Finish
    &&& any_fails && out_of_time && s.action_timeouts < 2 ==> {
        &&& step is RunAgain
        &&& t.action_timeouts == s.action_timeouts + 1
        &&& t.failure_attempt == s.failure_attempt
        &&& s.execution_attempt < u32::MAX ==> t.execution_attempt == s.execution_attempt + 1
        &&& picks(s.expected@, fails, t.pending@)
    }
    &&& any_fails && !out_of_time && any_again ==> {
        &&& step is RunAgain
        &&& t.action_timeouts == s.action_timeouts
        &&& t.failure_attempt == s.failure_attempt + 1
        &&& s.execution_attempt < u32::MAX ==> t.execution_attempt == s.execution_attempt + 1
        &&& picks(s.expected@, again, t.pending@)
    }
    &&& any_fails && !out_of_time && !any_again ==> if s.expected@.len() > 1
        && policy is RerunPerTestToIsolate {
        step is Isolate && t.execution_attempt == s.execution_attempt
    } else {
        step is Finish
    }
}

proof fn lemma_follows(
    s: ActionState,
    out_of_time: bool,
    flaky: Seq<bool>,
    retry: RetryPolicy,
    config: QuokkaConfig,
    policy: BatchFailurePolicy,
    step: ActionStep,
    t: ActionState,
)
    requires
        action::decided(s, out_of_time, flaky, retry, config, policy, step, t),
        flaky.len() == s.expected@.len(),
    ensures
        follows(s, out_of_time, flaky, retry, config, policy, step, t),
{
    let n = s.expected@.len();
    let fails = |i: int| still_fails(s, s.expected@[i]@);
    let again = |i: int|
        still_fails(s, s.expected@[i]@) && s.failure_attempt + 1 < budget(retry, config, flaky[i]);
    let at = lemma_failing_picked(s, n);
    let back = lemma_retried_picked(s, flaky, retry, config, n);
    assert(s.expected@.take(n as int) =~= s.expected@);
    let failing = action::failing_names(s.record@, s.expected@, n);
    let retried = action::retried_names(
        s.record@,
        s.expected@,
        flaky,
        retry,
        config,
        s.failure_attempt,
        n,
    );
    assert(picks_at(s.expected@, fails, failing, at));
    assert(picks_at(s.expected@, again, retried, back));
    if failing.len() > 0 {
        assert(fails(at[0]));
    } else {
        assert forall|i: int| 0 <= i < n implies !#[trigger] fails(i) by {
            if fails(i) {
                assert(at.contains(i));
            }
        }
    }
    if retried.len() > 0 {
        assert(again(back[0]));
        assert(fails(back[0]));
    } else {
        assert forall|i: int| 0 <= i < n implies !#[trigger] again(i) by {
            if again(i) {
                assert(back.contains(i));
            }
        }
    }
}

// ---------------------------------------------------------------------------
// What a group leaves behind.

/// The result that a test had, if any.
pub open spec fn result_of(s: ActionState, name: Seq<char>) -> Option<ResultView> {
    if s.record@.best.contains_key(name) {
        Some(s.record@.best[name])
    } else {
        None
    }
}

/// Whether a result is what is kept of an earlier one and a new one: a missing result
/// stays missing and replaces any other, a test that did not fail keeps its result, and
/// a test that failed gets the new one.
pub open spec fn is_kept(was: Option<ResultView>, new: ResultView, kept: ResultView) -> bool {
    &&& was is None ==> kept == new
    &&& new.integrity is MissingTerminalResult ==> kept == new
    &&& new.integrity is Complete && was is Some ==> if was->0.integrity is MissingTerminalResult
        || !is_bad(was->0.status) {
        kept == was->0
    } else {
        kept == new
    }
}

/// Whether one attempt of a test, seen as `note`, was added to what was seen of it: to its
/// history in any case, to its best result by [`is_kept`], and to the observations for the
/// timing history where the harness itself reported it and it ran fresh.
pub open spec fn attempt_added(
    s: ActionState,
    t: ActionState,
    name: Seq<char>,
    note: NoteView,
    execution: AttemptExecution,
    duration: AttemptDuration,
    memory: Option<u64>,
) -> bool {
    let (old_seen, new_seen) = (
        action::list_of(s.record@.history, name),
        action::list_of(t.record@.history, name),
    );
    let (old_runs, new_runs) = (
        action::list_of(s.record@.attempts, name),
        action::list_of(t.record@.attempts, name),
    );
    &&& t.record@.best.contains_key(name)
    &&& is_kept(
        result_of(s, name),
        ResultView {
            status: note.status,
            integrity: note.integrity,
            details: note.details,
            duration,
            max_memory: memory,
        },
        t.record@.best[name],
    )
    &&& new_seen.len() == old_seen.len() + 1
    &&& new_seen.drop_last() == old_seen
    &&& new_seen.last().status == note.status
    &&& new_seen.last().details == note.details
    &&& new_seen.last().execution == execution
    &&& new_seen.last().duration == duration
    &&& if note.from_harness && duration is Measured && execution is Physical {
        &&& new_runs.len() == old_runs.len() + 1
        &&& new_runs.drop_last() == old_runs
        &&& new_runs.last().duration == duration->Measured_0
        &&& new_runs.last().env == execution->Physical_0
        &&& new_runs.last().failed == is_bad(note.status)
        &&& new_runs.last().failure_class is Some == is_bad(note.status)
    } else {
        new_runs == old_runs
    }
}

/// Whether nothing was added to what was seen of a test.
pub open spec fn untouched(s: ActionState, t: ActionState, name: Seq<char>) -> bool {
    &&& result_of(s, name) == result_of(t, name)
    &&& action::list_of(s.record@.history, name) == action::list_of(t.record@.history, name)
    &&& action::list_of(s.record@.attempts, name) == action::list_of(t.record@.attempts, name)
}

spec fn named(names: Seq<String>, n: int, name: Seq<char>) -> bool {
    exists|i: int| 0 <= i < n && (#[trigger] names[i])@ == name
}

spec fn same_at(a: RecordView, b: RecordView, name: Seq<char>) -> bool {
    &&& a.best.contains_key(name) == b.best.contains_key(name)
    &&& a.best.contains_key(name) ==> a.best[name] == b.best[name]
    &&& action::list_of(a.history, name) == action::list_of(b.history, name)
    &&& action::list_of(a.attempts, name) == action::list_of(b.attempts, name)
}

/// What is noted of a test depends on what was seen of it alone, and changes nothing else.
proof fn lemma_noted(
    a: RecordView,
    b: RecordView,
    name: Seq<char>,
    note: NoteView,
    execution: AttemptExecution,
    duration: AttemptDuration,
    memory: Option<u64>,
    other: Seq<char>,
)
    ensures
        other != name ==> same_at(
            a,
            action::noted(a, name, note, execution, duration, memory),
            other,
        ),
        same_at(a, b, name) ==> same_at(
            action::noted(a, name, note, execution, duration, memory),
            action::noted(b, name, note, execution, duration, memory),
            name,
        ),
{
}

proof fn lemma_observed_upto(
    r: RecordView,
    names: Seq<String>,
    o: ObservedGroup,
    whole_unit: bool,
    singleton: bool,
    n: nat,
    name: Seq<char>,
)
    requires
        n <= names.len(),
        forall|i: int, j: int| 0 <= i < j < names.len() ==> (#[trigger] names[i])@ != (
        #[trigger] names[j])@,
    ensures
        !named(names, n as int, name) ==> same_at(
            r,
            action::observed_upto(r, names, o, whole_unit, singleton, n),
            name,
        ),
        named(names, n as int, name) ==> same_at(
            action::noted(
                r,
                name,
                action::observed_note(o, name, whole_unit, singleton),
                o.execution,
                AttemptDuration::Measured(o.execution_time),
                o.max_memory,
            ),
            action::observed_upto(r, names, o, whole_unit, singleton, n),
            name,
        ),
    decreases n,
{
    if n > 0 {
        let m = (n - 1) as nat;
        lemma_observed_upto(r, names, o, whole_unit, singleton, m, name);
        let before = action::observed_upto(r, names, o, whole_unit, singleton, m);
        let last = names[n - 1]@;
        let note = action::observed_note(o, last, whole_unit, singleton);
        lemma_noted(
            before,
            r,
            last,
            note,
            o.execution,
            AttemptDuration::Measured(o.execution_time),
            o.max_memory,
            name,
        );
        lemma_noted(
            r,
            before,
            last,
            note,
            o.execution,
            AttemptDuration::Measured(o.execution_time),
            o.max_memory,
            name,
        );
        if name == last {
            assert(names[n - 1]@ == name);
            assert(!named(names, m as int, name)) by {
                if named(names, m as int, name) {
                    let i = choose|i: int| 0 <= i < m && (#[trigger] names[i])@ == name;
                    assert(names[i]@ != names[n - 1]@);
                }
            }
        } else {
            assert(named(names, n as int, name) == named(names, m as int, name)) by {
                if named(names, m as int, name) {
                    let i = choose|i: int| 0 <= i < m && (#[trigger] names[i])@ == name;
                    assert(names[i]@ == name);
                }
            }
        }
    }
}

proof fn lemma_failed_upto(
    r: RecordView,
    names: Seq<String>,
    f: crate::scheduler::group::FailedView,
    n: nat,
    name: Seq<char>,
)
    requires
        n <= names.len(),
        forall|i: int, j: int| 0 <= i < j < names.len() ==> (#[trigger] names[i])@ != (
        #[trigger] names[j])@,
    ensures
        !named(names, n as int, name) ==> same_at(r, action::failed_upto(r, names, f, n), name),
        named(names, n as int, name) ==> same_at(
            action::noted(r, name, action::failed_note(f), f.execution, f.duration, None),
            action::failed_upto(r, names, f, n),
            name,
        ),
    decreases n,
{
    if n > 0 {
        let m = (n - 1) as nat;
        lemma_failed_upto(r, names, f, m, name);
        let before = action::failed_upto(r, names, f, m);
        let last = names[n - 1]@;
        let note = action::failed_note(f);
        lemma_noted(before, r, last, note, f.execution, f.duration, None, name);
        lemma_noted(r, before, last, note, f.execution, f.duration, None, name);
        if name == last {
            assert(names[n - 1]@ == name);
            assert(!named(names, m as int, name)) by {
                if named(names, m as int, name) {
                    let i = choose|i: int| 0 <= i < m && (#[trigger] names[i])@ == name;
                    assert(names[i]@ != names[n - 1]@);
                }
            }
        } else {
            assert(named(names, n as int, name) == named(names, m as int, name)) by {
                if named(names, m as int, name) {
                    let i = choose|i: int| 0 <= i < m && (#[trigger] names[i])@ == name;
                    assert(names[i]@ == name);
                }
            }
        }
    }
}

/// What a completed action shows of a test. Out of memory, a test that ran alone has
/// failed and the tests of a batch have no result. A result that the harness reported
/// counts as it is. Without one, the exit code speaks; then only a whole unit was seen to
/// its end.
pub open spec fn is_note(
    o: ObservedGroup,
    name: Seq<char>,
    whole_unit: bool,
    alone: bool,
    note: NoteView,
) -> bool {
    match o.action_oom {
        Some(details) => {
            &&& note.details == details@
            &&& !note.from_harness
            &&& alone ==> note.status is Fail && note.integrity is Complete
            &&& !alone ==> note.status is Fatal && note.integrity is MissingTerminalResult
        },
        None => if o.observations@.contains_key(name) {
            &&& note.status == o.observations@[name].status
            &&& note.details == o.observations@[name].details@
            &&& note.integrity is Complete
            &&& note.from_harness
        } else {
            &&& note.integrity is Complete <==> whole_unit
            &&& !note.from_harness
            &&& note.status == observe::absent_verdict(o.raw, whole_unit, alone)
            &&& note.details == observe::absent_details(
                o.raw,
                whole_unit,
                alone,
                o.stdout@,
                o.stderr@,
            )
        },
    }
}

/// A group adds one attempt to each of its tests, and nothing to any other. What it adds
/// of a test is what the action shows of it.
pub proof fn law_a_group_adds_one_attempt_to_each_of_its_tests(
    s: &mut ActionState,
    outcome: &GroupOutcome,
    whole_unit: bool,
    name: Seq<char>,
)
    requires
        call_ensures(ActionState::observe, (s, outcome, whole_unit), ()),
        forall|i: int, j: int|
            0 <= i < j < old(s).pending@.len() ==> (#[trigger] old(s).pending@[i])@ != (
            #[trigger] old(s).pending@[j])@,
    ensures
        adds_attempts(*old(s), *outcome, whole_unit, name, *final(s)),
        final(s).expected == old(s).expected,
        final(s).pending == old(s).pending,
        final(s).selection == old(s).selection,
        final(s).failure_attempt == old(s).failure_attempt,
        final(s).action_timeouts == old(s).action_timeouts,
        final(s).execution_attempt == old(s).execution_attempt,
        final(s).first_attempt_index == old(s).first_attempt_index,
{
    lemma_adds_attempts(*old(s), *outcome, whole_unit, name, *final(s));
}

/// Whether a test runs without others: the action has no other, or only one is pending.
pub open spec fn runs_alone(s: ActionState) -> bool {
    s.expected@.len() <= 1 || s.pending@.len() == 1
}

/// Whether one attempt was added to a test where it was pending, and nothing where not.
pub open spec fn adds_attempts(
    s: ActionState,
    outcome: GroupOutcome,
    whole_unit: bool,
    name: Seq<char>,
    t: ActionState,
) -> bool {
    let pending = exists|i: int| 0 <= i < s.pending@.len() && (#[trigger] s.pending@[i])@ == name;
    let alone = runs_alone(s);
    &&& !pending ==> untouched(s, t, name)
    &&& pending ==> match outcome {
        GroupOutcome::Observed(o) => exists|note: NoteView|
            {
                &&& #[trigger] is_note(o, name, whole_unit, alone, note)
                &&& attempt_added(
                    s,
                    t,
                    name,
                    note,
                    o.execution,
                    AttemptDuration::Measured(o.execution_time),
                    o.max_memory,
                )
            },
        GroupOutcome::Failed(f) => attempt_added(
            s,
            t,
            name,
            NoteView {
                status: f.status,
                details: f.details@,
                integrity: if f.disposition is CompleteActionTimeout {
                    ResultIntegrity::Complete
                } else {
                    ResultIntegrity::MissingTerminalResult
                },
                from_harness: false,
            },
            f.execution,
            f.duration,
            None,
        ),
    }
}

proof fn lemma_adds_attempts(
    s: ActionState,
    outcome: GroupOutcome,
    whole_unit: bool,
    name: Seq<char>,
    t: ActionState,
)
    requires
        t.record@ == action::after_group(
            s.record@,
            s.pending@,
            outcome,
            whole_unit,
            s.expected@.len() > 1,
        ),
        forall|i: int, j: int|
            0 <= i < j < s.pending@.len() ==> (#[trigger] s.pending@[i])@ != (
            #[trigger] s.pending@[j])@,
    ensures
        adds_attempts(s, outcome, whole_unit, name, t),
{
    let names = s.pending@;
    let n = names.len();
    let pending = exists|i: int| 0 <= i < s.pending@.len() && (#[trigger] s.pending@[i])@ == name;
    assert(pending == named(names, n as int, name));
    let alone = runs_alone(s);
    match outcome {
        GroupOutcome::Observed(o) => {
            assert(alone == (!(s.expected@.len() > 1) || names.len() == 1));
            assert(t.record@ == action::observed_upto(s.record@, names, o, whole_unit, alone, n));
            lemma_observed_upto(s.record@, names, o, whole_unit, alone, n, name);
            let note = action::observed_note(o, name, whole_unit, alone);
            let decoded = crate::translator::observation_views(o.observations@);
            assert(decoded.contains_key(name) == o.observations@.contains_key(name));
            if decoded.contains_key(name) {
                assert(decoded[name] == o.observations@[name]@);
            }
            assert(is_note(o, name, whole_unit, alone, note));
            if pending {
                lemma_attempt_added(
                    s,
                    t,
                    name,
                    note,
                    o.execution,
                    AttemptDuration::Measured(o.execution_time),
                    o.max_memory,
                );
            }
        },
        GroupOutcome::Failed(f) => {
            lemma_failed_upto(s.record@, names, f@, n, name);
            if pending {
                lemma_attempt_added(
                    s,
                    t,
                    name,
                    action::failed_note(f@),
                    f.execution,
                    f.duration,
                    None,
                );
            }
        },
    }
}

proof fn lemma_attempt_added(
    s: ActionState,
    t: ActionState,
    name: Seq<char>,
    note: NoteView,
    execution: AttemptExecution,
    duration: AttemptDuration,
    memory: Option<u64>,
)
    requires
        same_at(
            action::noted(s.record@, name, note, execution, duration, memory),
            t.record@,
            name,
        ),
    ensures
        attempt_added(s, t, name, note, execution, duration, memory),
{
    let seen = action::list_of(s.record@.history, name);
    let runs = action::list_of(s.record@.attempts, name);
    let after = action::noted(s.record@, name, note, execution, duration, memory);
    assert(action::list_of(after.history, name).drop_last() =~= seen);
    if note.from_harness && duration is Measured && execution is Physical {
        assert(action::list_of(after.attempts, name).drop_last() =~= runs);
    }
}

/// Whether a group failed because the whole action ran out of time.
pub open spec fn times_out(outcome: GroupOutcome) -> bool {
    outcome is Failed && outcome->Failed_0.disposition is CompleteActionTimeout
}

/// An action goes on by what its group left behind: it adds the group to what was seen,
/// and what follows depends on that. It counts as out of time only where the whole action
/// ran out of time.
pub proof fn law_actions_go_on_by_what_was_seen(
    s: &mut ActionState,
    outcome: &GroupOutcome,
    whole_unit: bool,
    flaky: &[bool],
    retry: RetryPolicy,
    config: &QuokkaConfig,
    policy: BatchFailurePolicy,
    r: ActionStep,
    name: Seq<char>,
)
    requires
        call_ensures(
            ActionState::advance,
            (s, outcome, whole_unit, flaky, retry, config, policy),
            r,
        ),
        flaky@.len() == old(s).expected@.len(),
        forall|i: int, j: int|
            0 <= i < j < old(s).pending@.len() ==> (#[trigger] old(s).pending@[i])@ != (
            #[trigger] old(s).pending@[j])@,
    ensures
        adds_attempts(*old(s), *outcome, whole_unit, name, *final(s)),
        exists|seen: ActionState|
            {
                &&& seen.expected == old(s).expected
                &&& seen.failure_attempt == old(s).failure_attempt
                &&& seen.action_timeouts == old(s).action_timeouts
                &&& seen.execution_attempt == old(s).execution_attempt
                &&& seen.first_attempt_index == old(s).first_attempt_index
                &&& seen.record == final(s).record
                &&& #[trigger] follows(
                    seen,
                    times_out(*outcome),
                    flaky@,
                    retry,
                    *config,
                    policy,
                    r,
                    *final(s),
                )
            },
{
    let seen = choose|seen: ActionState| #[trigger]
        action::is_observed(*old(s), *outcome, whole_unit, seen) && action::decided(
            seen,
            action::ran_out_of_time(*outcome),
            flaky@,
            retry,
            *config,
            policy,
            r,
            *final(s),
        );
    lemma_adds_attempts(*old(s), *outcome, whole_unit, name, seen);
    assert(seen.record == final(s).record);
    lemma_adds_attempts(*old(s), *outcome, whole_unit, name, *final(s));
    assert(action::ran_out_of_time(*outcome) == times_out(*outcome));
    lemma_follows(
        seen,
        times_out(*outcome),
        flaky@,
        retry,
        *config,
        policy,
        r,
        *final(s),
    );
}

// ---------------------------------------------------------------------------
// The end of an action.

/// Whether a part reports what was seen of a test: its result, or that it produced none.
pub open spec fn reports(s: ActionState, name: Seq<char>, part: FinishedPart) -> bool {
    &&& part.name@ == name
    &&& match result_of(s, name) {
        Some(result) => part.outcome@ == result,
        None => part.outcome.status is Fatal && part.outcome.integrity is MissingTerminalResult,
    }
}

/// An action that is done reports each of its tests, in order, with its result and, the
/// first time it is named, with all that was seen of it.
pub proof fn law_finished_actions_report_every_test(s: ActionState, r: Vec<FinishedPart>)
    requires
        call_ensures(ActionState::finish, (s,), r),
    ensures
        r@.len() == s.expected@.len(),
        forall|i: int|
            0 <= i < r@.len() ==> reports(s, s.expected@[i]@, #[trigger] r@[i]),
        forall|i: int|
            0 <= i < r@.len() && (forall|j: int|
                0 <= j < i ==> (#[trigger] s.expected@[j])@ != s.expected@[i]@) ==> (
            #[trigger] r@[i]).observations@ == action::list_of(
                s.record@.attempts,
                s.expected@[i]@,
            ) && observe::attempt_views(r@[i].history@) == action::list_of(
                s.record@.history,
                s.expected@[i]@,
            ),
{
    assert forall|i: int| 0 <= i < r@.len() implies action::is_part(
        s.record@,
        s.expected@[i],
        action::named_before(s.expected@, i, s.expected@[i]@),
        #[trigger] r@[i],
    ) by {}
}

/// A batch that is taken apart reports the tests that do not fail, and hands each of the
/// others, with its result so far, to an action of its own, which counts on from the
/// attempts of the batch.
pub proof fn law_isolation_reruns_exactly_the_failing_tests(s: ActionState, r: Isolation)
    requires
        call_ensures(ActionState::isolate, (s,), r),
    ensures
        picks(
            s.expected@,
            |i: int| still_fails(s, s.expected@[i]@),
            Seq::new(r.singles@.len(), |i: int| r.singles@[i].expected@[0]),
        ),
        picks(
            s.expected@,
            |i: int| !still_fails(s, s.expected@[i]@),
            Seq::new(r.done@.len(), |i: int| r.done@[i].name),
        ),
        forall|i: int|
            0 <= i < r.done@.len() ==> reports(
                s,
                r.done@[i].name@,
                #[trigger] r.done@[i],
            ),
        forall|i: int|
            0 <= i < r.singles@.len() ==> {
                let single = #[trigger] r.singles@[i];
                let name = single.expected@[0];
                &&& single.expected@ == seq![name]
                &&& single.pending@ == seq![name]
                &&& single.selection is Explicit && single.selection->Explicit_0@ == seq![name]
                &&& result_of(single, name@) == result_of(s, name@)
                &&& single.failure_attempt == 0
                &&& single.action_timeouts == 0
                &&& single.execution_attempt == 0
                &&& s.first_attempt_index + s.execution_attempt < u32::MAX
                    ==> single.first_attempt_index == s.first_attempt_index + s.execution_attempt
                    + 1
            },
{
    let n = s.expected@.len();
    let at = lemma_failing_picked(s, n);
    let passing = lemma_passing_picked(s, n);
    assert(s.expected@.take(n as int) =~= s.expected@);
    let failing = action::failing_names(s.record@, s.expected@, n);
    let calm = action::passing_names(s.record@, s.expected@, n);
    assert(Seq::new(r.singles@.len(), |i: int| r.singles@[i].expected@[0]) =~= failing);
    assert(Seq::new(r.done@.len(), |i: int| r.done@[i].name) =~= calm);
    assert(picks_at(s.expected@, |i: int| still_fails(s, s.expected@[i]@), failing, at));
    assert(picks_at(s.expected@, |i: int| !still_fails(s, s.expected@[i]@), calm, passing));
    assert forall|i: int| 0 <= i < r.singles@.len() implies {
        let single = #[trigger] r.singles@[i];
        let name = single.expected@[0];
        result_of(single, name@) == result_of(s, name@)
    } by {
        let single = r.singles@[i];
        let name = single.expected@[0];
        let again = action::named_before(failing, i, failing[i]@);
        assert(action::is_single(
            s.record@,
            failing[i],
            again,
            s.spec_isolation_index(),
            single,
        ));
        assert(name == failing[i]);
        assert(single.record@ == action::inherited(s.record@, name@, again));
        assert(set![name@].contains(name@));
    }
}

/// Whether a part is reported with all that was seen of its test, or with nothing of it.
pub open spec fn tells_all(s: ActionState, part: FinishedPart, again: bool) -> bool {
    let name = part.name@;
    if again {
        part.observations@.len() == 0 && part.history@.len() == 0
    } else {
        part.observations@ == action::list_of(s.record@.attempts, name)
            && observe::attempt_views(part.history@) == action::list_of(s.record@.history, name)
    }
}

/// What was seen of a test is reported once: with the first part that names it, and with no
/// later one.
pub proof fn law_what_was_seen_is_reported_once(s: ActionState, r: Vec<FinishedPart>, i: int, j: int)
    requires
        call_ensures(ActionState::finish, (s,), r),
        0 <= i < r@.len(),
    ensures
        (forall|k: int| 0 <= k < i ==> (#[trigger] r@[k]).name@ != r@[i].name@) ==> tells_all(
            s,
            r@[i],
            false,
        ),
        0 <= j < i && r@[j].name@ == r@[i].name@ ==> tells_all(s, r@[i], true),
{
    assert(action::is_part(
        s.record@,
        s.expected@[i],
        action::named_before(s.expected@, i, s.expected@[i]@),
        r@[i],
    ));
    assert(observe::attempt_views(r@[i].history@).len() == r@[i].history@.len());
    assert forall|k: int| 0 <= k < i implies (#[trigger] r@[k]).name == s.expected@[k] by {
        assert(action::is_part(
            s.record@,
            s.expected@[k],
            action::named_before(s.expected@, k, s.expected@[k]@),
            r@[k],
        ));
    }
    if action::named_before(s.expected@, i, s.expected@[i]@) {
        let k = choose|k: int| 0 <= k < i && (#[trigger] s.expected@[k])@ == s.expected@[i]@;
        assert(r@[k].name@ == r@[i].name@);
    }
    if 0 <= j < i && r@[j].name@ == r@[i].name@ {
        assert(s.expected@[j]@ == s.expected@[i]@);
    }
}

/// Taking a batch apart hands what was seen of a test on once: to the first part or action
/// that names it, and to no later one.
pub proof fn law_isolation_hands_on_what_was_seen(s: ActionState, r: Isolation, i: int, j: int)
    requires
        call_ensures(ActionState::isolate, (s,), r),
    ensures
        0 <= i < r.done@.len() && (forall|k: int|
            0 <= k < i ==> (#[trigger] r.done@[k]).name@ != r.done@[i].name@) ==> tells_all(
            s,
            r.done@[i],
            false,
        ),
        0 <= j < i < r.done@.len() && r.done@[j].name@ == r.done@[i].name@ ==> tells_all(
            s,
            r.done@[i],
            true,
        ),
        0 <= i < r.singles@.len() && (forall|k: int|
            0 <= k < i ==> (#[trigger] r.singles@[k]).expected@[0]@
                != r.singles@[i].expected@[0]@) ==> {
            let name = r.singles@[i].expected@[0]@;
            let record = r.singles@[i].record@;
            action::list_of(record.attempts, name) == action::list_of(s.record@.attempts, name)
                && action::list_of(record.history, name) == action::list_of(
                s.record@.history,
                name,
            )
        },
        0 <= j < i < r.singles@.len() && r.singles@[j].expected@[0]@
            == r.singles@[i].expected@[0]@ ==> {
            let name = r.singles@[i].expected@[0]@;
            let record = r.singles@[i].record@;
            action::list_of(record.attempts, name).len() == 0 && action::list_of(
                record.history,
                name,
            ).len() == 0
        },
{
    let n = s.expected@.len();
    let failing = action::failing_names(s.record@, s.expected@, n);
    let calm = action::passing_names(s.record@, s.expected@, n);
    assert forall|k: int| 0 <= k < r.done@.len() implies (#[trigger] r.done@[k]).name == calm[k] by {
        assert(action::is_part(
            s.record@,
            calm[k],
            action::named_before(calm, k, calm[k]@),
            r.done@[k],
        ));
    }
    if 0 <= i < r.done@.len() {
        assert(action::is_part(
            s.record@,
            calm[i],
            action::named_before(calm, i, calm[i]@),
            r.done@[i],
        ));
        assert(observe::attempt_views(r.done@[i].history@).len() == r.done@[i].history@.len());
        if action::named_before(calm, i, calm[i]@) {
            let k = choose|k: int| 0 <= k < i && (#[trigger] calm[k])@ == calm[i]@;
            assert(r.done@[k].name@ == r.done@[i].name@);
        }
        if 0 <= j < i && r.done@[j].name@ == r.done@[i].name@ {
            assert(calm[j]@ == calm[i]@);
        }
    }
    assert forall|k: int| 0 <= k < r.singles@.len() implies (#[trigger] r.singles@[k]).expected@[0]
        == failing[k] by {
        assert(action::is_single(
            s.record@,
            failing[k],
            action::named_before(failing, k, failing[k]@),
            s.spec_isolation_index(),
            r.singles@[k],
        ));
    }
    if 0 <= i < r.singles@.len() {
        let again = action::named_before(failing, i, failing[i]@);
        let name = failing[i]@;
        assert(action::is_single(
            s.record@,
            failing[i],
            again,
            s.spec_isolation_index(),
            r.singles@[i],
        ));
        assert(set![name].contains(name));
        if again {
            let k = choose|k: int| 0 <= k < i && (#[trigger] failing[k])@ == name;
            assert(r.singles@[k].expected@[0]@ == name);
        }
        if 0 <= j < i && r.singles@[j].expected@[0]@ == name {
            assert(failing[j]@ == name);
        }
    }
}

proof fn lemma_passing_picked(s: ActionState, n: nat) -> (at: Seq<int>)
    requires
        n <= s.expected@.len(),
    ensures
        picks_at(
            s.expected@.take(n as int),
            |i: int| !still_fails(s, s.expected@[i]@),
            action::passing_names(s.record@, s.expected@, n),
            at,
        ),
    decreases n,
{
    let wanted = |i: int| !still_fails(s, s.expected@[i]@);
    let texts = s.expected@.take(n as int);
    if n == 0 {
        Seq::empty()
    } else {
        let before = lemma_passing_picked(s, (n - 1) as nat);
        let shorter = s.expected@.take(n - 1);
        assert(texts =~= shorter.push(s.expected@[n - 1]));
        let at = if wanted(n - 1) {
            before.push(n - 1)
        } else {
            before
        };
        lemma_picks_grow(
            shorter,
            texts,
            wanted,
            action::passing_names(s.record@, s.expected@, (n - 1) as nat),
            before,
            s.expected@[n - 1],
        );
        at
    }
}

} // verus!

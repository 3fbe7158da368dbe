//! The course of one (possibly batched) test action: what its attempts add up to,
//! which tests run again, and when it is done.

use vstd::prelude::*;

use crate::batching::{BatchFailurePolicy, TestSelection};
use crate::config::QuokkaConfig;
use crate::duration_db::{self, DurationDb};
use crate::names::NameMap;
use crate::policy::RetryPolicy;
use crate::result::{self, failure_class, identities_of, TestIdentity, TestVerdict};
use crate::scheduler::batches;
use crate::scheduler::group::{self, FailedGroup, GroupFailureDisposition, GroupOutcome, ObservedGroup};
use crate::scheduler::observe::{
    self, absent_name_verdict, merge_best, AttemptDuration, AttemptExecution, AttemptObservation,
    AttemptView, BestObs, DbObservation, ResultIntegrity, ResultView, TestOutcome,
    INFRA_MAX_ATTEMPTS,
};
use crate::text::{self, copy_strings, str_eq};
use crate::translator::{self, PerTestObservation};
use crate::variant::Variant;

verus! {

// ---------------------------------------------------------------------------
// What attempts add up to.

/// What was seen of the tests of an action, by name.
pub struct ActionRecord {
    pub best: NameMap<BestObs>,
    pub attempts: NameMap<Vec<DbObservation>>,
    pub history: NameMap<Vec<AttemptObservation>>,
}

/// What was seen of the tests of an action, as a mathematical value.
#[verifier::ext_equal]
pub struct RecordView {
    pub best: Map<Seq<char>, ResultView>,
    pub attempts: Map<Seq<char>, Seq<DbObservation>>,
    pub history: Map<Seq<char>, Seq<AttemptView>>,
}

impl View for ActionRecord {
    type V = RecordView;

    open spec fn view(&self) -> RecordView {
        RecordView {
            best: observe::best_views(self.best@),
            attempts: self.attempts@.map_values(|v: Vec<DbObservation>| v@),
            history: self.history@.map_values(
                |v: Vec<AttemptObservation>| observe::attempt_views(v@),
            ),
        }
    }
}

/// Nothing seen.
pub open spec fn no_record() -> RecordView {
    RecordView { best: Map::empty(), attempts: Map::empty(), history: Map::empty() }
}

/// The list of a name; a name without one has an empty list.
pub open spec fn list_of<V>(m: Map<Seq<char>, Seq<V>>, name: Seq<char>) -> Seq<V> {
    if m.contains_key(name) {
        m[name]
    } else {
        Seq::empty()
    }
}

/// A list with one more entry.
pub open spec fn appended<V>(m: Map<Seq<char>, Seq<V>>, name: Seq<char>, v: V) -> Map<
    Seq<char>,
    Seq<V>,
> {
    m.insert(name, list_of(m, name).push(v))
}

/// What one attempt shows of a test.
pub struct NoteView {
    pub status: TestVerdict,
    pub details: Seq<char>,
    pub integrity: ResultIntegrity,
    /// Whether the harness itself said so. A verdict that was put together from
    /// the exit code is no clean signal of the test, and a crashed batch must not
    /// add to the flake rate of an innocent member.
    pub from_harness: bool,
}

/// The record with one more attempt of a test. A fresh attempt that the harness
/// reported is an observation for the history.
pub open spec fn noted(
    r: RecordView,
    name: Seq<char>,
    note: NoteView,
    execution: AttemptExecution,
    duration: AttemptDuration,
    max_memory: Option<u64>,
) -> RecordView {
    RecordView {
        best: r.best.insert(
            name,
            observe::merged(
                observe::entry(r.best, name),
                ResultView {
                    status: note.status,
                    integrity: note.integrity,
                    details: note.details,
                    duration,
                    max_memory,
                },
            ),
        ),
        attempts: match (duration, execution.fresh()) {
            (AttemptDuration::Measured(time), Some(env)) => if note.from_harness {
                appended(
                    r.attempts,
                    name,
                    DbObservation {
                        duration: time,
                        failed: note.status.spec_is_failure(),
                        failure_class: result::spec_failure_class(note.status),
                        env,
                    },
                )
            } else {
                r.attempts
            },
            _ => r.attempts,
        },
        history: appended(
            r.history,
            name,
            AttemptView {
                status: note.status,
                duration,
                framework_case_duration: None,
                details: note.details,
                execution,
            },
        ),
    }
}

/// What a completed action shows of a test. An action out of memory is the failure
/// of a test that ran alone; a parsed result counts as it is; without one the exit
/// code decides.
pub open spec fn observed_note(
    o: ObservedGroup,
    name: Seq<char>,
    whole_unit: bool,
    singleton: bool,
) -> NoteView {
    let decoded = translator::observation_views(o.observations@);
    match o.action_oom {
        Some(details) => NoteView {
            status: if singleton {
                TestVerdict::Fail
            } else {
                TestVerdict::Fatal
            },
            details: details@,
            integrity: if singleton {
                ResultIntegrity::Complete
            } else {
                ResultIntegrity::MissingTerminalResult
            },
            from_harness: false,
        },
        None => if decoded.contains_key(name) {
            NoteView {
                status: decoded[name].status,
                details: decoded[name].details,
                integrity: ResultIntegrity::Complete,
                from_harness: true,
            }
        } else {
            NoteView {
                status: observe::absent_verdict(o.raw, whole_unit, singleton),
                details: observe::absent_details(
                    o.raw,
                    whole_unit,
                    singleton,
                    o.stdout@,
                    o.stderr@,
                ),
                integrity: if whole_unit {
                    ResultIntegrity::Complete
                } else {
                    ResultIntegrity::MissingTerminalResult
                },
                from_harness: false,
            }
        },
    }
}

/// The record after the first `n` tests of a completed action.
pub open spec fn observed_upto(
    r: RecordView,
    names: Seq<String>,
    o: ObservedGroup,
    whole_unit: bool,
    singleton: bool,
    n: nat,
) -> RecordView
    decreases n,
{
    if n == 0 {
        r
    } else {
        noted(
            observed_upto(r, names, o, whole_unit, singleton, (n - 1) as nat),
            names[n - 1]@,
            observed_note(o, names[n - 1]@, whole_unit, singleton),
            o.execution,
            AttemptDuration::Measured(o.execution_time),
            o.max_memory,
        )
    }
}

/// What a failed group shows of each of its tests.
pub open spec fn failed_note(f: group::FailedView) -> NoteView {
    NoteView {
        status: f.status,
        details: f.details,
        integrity: f.disposition.spec_integrity(),
        from_harness: false,
    }
}

/// The record after the first `n` tests of a failed group.
pub open spec fn failed_upto(
    r: RecordView,
    names: Seq<String>,
    f: group::FailedView,
    n: nat,
) -> RecordView
    decreases n,
{
    if n == 0 {
        r
    } else {
        noted(
            failed_upto(r, names, f, (n - 1) as nat),
            names[n - 1]@,
            failed_note(f),
            f.execution,
            f.duration,
            None,
        )
    }
}

/// The record after a group has run.
pub open spec fn after_group(
    r: RecordView,
    names: Seq<String>,
    outcome: GroupOutcome,
    whole_unit: bool,
    batched: bool,
) -> RecordView {
    match outcome {
        GroupOutcome::Observed(o) => observed_upto(
            r,
            names,
            o,
            whole_unit,
            !batched || names.len() == 1,
            names.len(),
        ),
        GroupOutcome::Failed(f) => failed_upto(r, names, f@, names.len()),
    }
}

struct Note {
    status: TestVerdict,
    details: String,
    integrity: ResultIntegrity,
    from_harness: bool,
}

impl View for Note {
    type V = NoteView;

    closed spec fn view(&self) -> NoteView {
        NoteView {
            status: self.status,
            details: self.details@,
            integrity: self.integrity,
            from_harness: self.from_harness,
        }
    }
}

impl ActionRecord {
    /// A record of nothing.
    pub fn new() -> (r: Self)
        ensures
            r@ == no_record(),
    {
        let r = ActionRecord {
            best: NameMap::new(),
            attempts: NameMap::new(),
            history: NameMap::new(),
        };
        proof {
            assert(r@.best =~= no_record().best);
            assert(r@.attempts =~= no_record().attempts);
            assert(r@.history =~= no_record().history);
        }
        r
    }

    fn note(
        &mut self,
        name: &str,
        note: Note,
        execution: AttemptExecution,
        duration: AttemptDuration,
        max_memory: Option<u64>,
    )
        ensures
            final(self)@ == noted(old(self)@, name@, note@, execution, duration, max_memory),
    {
        let ghost before = self@;
        let ghost expected = noted(before, name@, note@, execution, duration, max_memory);
        match (duration, execution.fresh_environment()) {
            (AttemptDuration::Measured(time), Some(env)) => {
                if note.from_harness {
                    let ghost attempts = self.attempts@;
                    let mut list: Vec<DbObservation> = match self.attempts.remove(name) {
                        Some(list) => list,
                        None => Vec::new(),
                    };
                    proof {
                        assert(list@ =~= list_of(before.attempts, name@));
                    }
                    list.push(
                        DbObservation {
                            duration: time,
                            failed: note.status.is_failure(),
                            failure_class: failure_class(note.status),
                            env,
                        },
                    );
                    self.attempts.insert(name, list);
                    proof {
                        assert(self@.attempts =~= expected.attempts);
                    }
                }
            },
            _ => {},
        }
        proof {
            assert(self@.attempts == expected.attempts);
        }
        let mut list: Vec<AttemptObservation> = match self.history.remove(name) {
            Some(list) => list,
            None => Vec::new(),
        };
        let ghost earlier = list@;
        proof {
            assert(observe::attempt_views(list@) =~= list_of(before.history, name@));
        }
        let attempt = AttemptObservation {
            status: note.status,
            duration,
            framework_case_duration: None,
            details: note.details.clone(),
            execution,
        };
        let ghost shown = attempt@;
        list.push(attempt);
        proof {
            assert(observe::attempt_views(list@) =~= observe::attempt_views(earlier).push(shown));
        }
        self.history.insert(name, list);
        proof {
            assert(self@.history =~= expected.history);
        }
        merge_best(
            &mut self.best,
            name,
            BestObs {
                status: note.status,
                integrity: note.integrity,
                details: note.details,
                duration,
                max_memory,
            },
        );
        proof {
            assert(self@ =~= expected);
        }
    }
}

fn note_observed(o: &ObservedGroup, name: &str, whole_unit: bool, singleton: bool) -> (r: Note)
    ensures
        r@ == observed_note(*o, name@, whole_unit, singleton),
{
    if let Some(details) = &o.action_oom {
        return Note {
            status: if singleton {
                TestVerdict::Fail
            } else {
                TestVerdict::Fatal
            },
            details: details.clone(),
            integrity: if singleton {
                ResultIntegrity::Complete
            } else {
                ResultIntegrity::MissingTerminalResult
            },
            from_harness: false,
        };
    }
    match o.observations.get(name) {
        Some(observation) => Note {
            status: observation.status,
            details: observation.details.clone(),
            integrity: ResultIntegrity::Complete,
            from_harness: true,
        },
        None => {
            let (status, details) = absent_name_verdict(
                o.raw,
                whole_unit,
                singleton,
                o.stdout.as_slice(),
                o.stderr.as_slice(),
            );
            Note {
                status,
                details,
                integrity: if whole_unit {
                    ResultIntegrity::Complete
                } else {
                    ResultIntegrity::MissingTerminalResult
                },
                from_harness: false,
            }
        },
    }
}

// ---------------------------------------------------------------------------
// The course of an action.

/// A test action under way.
pub struct ActionState {
    pub selection: TestSelection<String>,
    /// The tests that the action answers for.
    pub expected: Vec<String>,
    /// The tests of the next group.
    pub pending: Vec<String>,
    pub record: ActionRecord,
    /// How often tests ran again because they failed.
    pub failure_attempt: u32,
    /// How often the action itself ran out of time.
    pub action_timeouts: u32,
    /// How often a group of the action ran again.
    pub execution_attempt: u32,
    /// How often the tests had run before the action.
    pub first_attempt_index: u32,
}

/// What to do after a group has run.
#[derive(Debug, Clone, Copy, PartialEq, Eq, Structural)]
pub enum ActionStep {
    /// Run the pending tests.
    RunAgain,
    /// Run the tests that still fail one by one.
    Isolate,
    /// Report the results.
    Finish,
}

/// Whether a test still fails: its best result is a failure, or it has none.
pub open spec fn failing(r: RecordView, name: Seq<char>) -> bool {
    !r.best.contains_key(name) || r.best[name].status.spec_is_failure()
}

/// The tests among the first `n` that still fail.
pub open spec fn failing_names(r: RecordView, names: Seq<String>, n: nat) -> Seq<String>
    decreases n,
{
    if n == 0 {
        Seq::empty()
    } else {
        let before = failing_names(r, names, (n - 1) as nat);
        if failing(r, names[n - 1]@) {
            before.push(names[n - 1])
        } else {
            before
        }
    }
}

/// How many attempts a failing test gets: those of the target's policy, or those
/// that the user grants to tests with a flaky history, whichever are more.
pub open spec fn attempts_for(retry: RetryPolicy, config: QuokkaConfig, flaky: bool) -> u32 {
    let granted = match config.flaky_retry {
        Some(flaky_retry) => if flaky {
            flaky_retry.attempts
        } else {
            0
        },
        None => 0,
    };
    if granted > retry.spec_max_attempts() {
        granted
    } else {
        retry.spec_max_attempts()
    }
}

/// The tests among the first `n` that still fail and may run again.
pub open spec fn retried_names(
    r: RecordView,
    names: Seq<String>,
    flaky: Seq<bool>,
    retry: RetryPolicy,
    config: QuokkaConfig,
    failure_attempt: u32,
    n: nat,
) -> Seq<String>
    decreases n,
{
    if n == 0 {
        Seq::empty()
    } else {
        let before = retried_names(
            r,
            names,
            flaky,
            retry,
            config,
            failure_attempt,
            (n - 1) as nat,
        );
        if failing(r, names[n - 1]@) && failure_attempt + 1 < attempts_for(
            retry,
            config,
            flaky[n - 1],
        ) {
            before.push(names[n - 1])
        } else {
            before
        }
    }
}

/// An attempt count that stops at the largest number.
pub open spec fn counted_up(a: u32, b: u32) -> u32 {
    if a + b > u32::MAX {
        u32::MAX
    } else {
        (a + b) as u32
    }
}

fn count_up(a: u32, b: u32) -> (r: u32)
    ensures
        r == counted_up(a, b),
{
    if a > u32::MAX - b {
        u32::MAX
    } else {
        a + b
    }
}

/// What the outcome of a group says of the action: whether it ran out of time.
pub open spec fn ran_out_of_time(outcome: GroupOutcome) -> bool {
    outcome matches GroupOutcome::Failed(f) && f.disposition
        == GroupFailureDisposition::CompleteActionTimeout
}

/// What the outcome of a group says of the action: whether it ran out of time.
pub fn ran_out(outcome: &GroupOutcome) -> (r: bool)
    ensures
        r == ran_out_of_time(*outcome),
{
    match outcome {
        GroupOutcome::Failed(f) => f.disposition == GroupFailureDisposition::CompleteActionTimeout,
        GroupOutcome::Observed(_) => false,
    }
}

/// Whether a new state adds the outcome of a group to what was seen, and nothing
/// else.
pub open spec fn is_observed(
    s: ActionState,
    outcome: GroupOutcome,
    whole_unit: bool,
    t: ActionState,
) -> bool {
    &&& t.record@ == after_group(
        s.record@,
        s.pending@,
        outcome,
        whole_unit,
        s.expected@.len() > 1,
    )
    &&& t.selection == s.selection
    &&& t.expected == s.expected
    &&& t.pending == s.pending
    &&& t.failure_attempt == s.failure_attempt
    &&& t.action_timeouts == s.action_timeouts
    &&& t.execution_attempt == s.execution_attempt
    &&& t.first_attempt_index == s.first_attempt_index
}

/// Whether a step and a new state follow from a state and the outcome of its
/// group.
///
/// When nothing fails any more the action is done. An action that ran out of time
/// runs again while the budget for transient failures lasts. Tests that fail
/// otherwise run again while their own budget lasts, and only they do. After that,
/// the failures of a batch may be isolated.
pub open spec fn decided(
    s: ActionState,
    out_of_time: bool,
    flaky: Seq<bool>,
    retry: RetryPolicy,
    config: QuokkaConfig,
    policy: BatchFailurePolicy,
    step: ActionStep,
    t: ActionState,
) -> bool {
    let still_failing = failing_names(s.record@, s.expected@, s.expected@.len());
    let retried = retried_names(
        s.record@,
        s.expected@,
        flaky,
        retry,
        config,
        s.failure_attempt,
        s.expected@.len(),
    );
    &&& t.selection == s.selection
    &&& t.expected == s.expected
    &&& t.record == s.record
    &&& t.first_attempt_index == s.first_attempt_index
    &&& if still_failing.len() == 0 {
        step == ActionStep::Finish
    } else if out_of_time {
        if s.action_timeouts + 1 < INFRA_MAX_ATTEMPTS {
            step == ActionStep::RunAgain && t.action_timeouts == s.action_timeouts + 1
                && t.failure_attempt == s.failure_attempt && t.execution_attempt == counted_up(
                s.execution_attempt,
                1,
            ) && t.pending@ == still_failing
        } else {
            step == ActionStep::Finish
        }
    } else if retried.len() > 0 {
        step == ActionStep::RunAgain && t.action_timeouts == s.action_timeouts && t.failure_attempt
            == s.failure_attempt + 1 && t.execution_attempt == counted_up(s.execution_attempt, 1)
            && t.pending@ == retried
    } else if s.expected@.len() > 1 && policy == BatchFailurePolicy::RerunPerTestToIsolate {
        step == ActionStep::Isolate && t.execution_attempt == s.execution_attempt
    } else {
        step == ActionStep::Finish
    }
}

/// An action comes to an end: every further group uses up a part of one of its two
/// budgets.
pub proof fn law_actions_end(
    s: ActionState,
    out_of_time: bool,
    flaky: Seq<bool>,
    retry: RetryPolicy,
    config: QuokkaConfig,
    policy: BatchFailurePolicy,
    t: ActionState,
)
    requires
        decided(s, out_of_time, flaky, retry, config, policy, ActionStep::RunAgain, t),
        flaky.len() == s.expected@.len(),
    ensures
        t.action_timeouts + t.failure_attempt == s.action_timeouts + s.failure_attempt + 1,
        t.action_timeouts < INFRA_MAX_ATTEMPTS || t.action_timeouts == s.action_timeouts,
        t.failure_attempt == s.failure_attempt || t.failure_attempt < attempts_for(
            retry,
            config,
            true,
        ),
{
    if t.failure_attempt != s.failure_attempt {
        lemma_retry_has_budget(
            s.record@,
            s.expected@,
            flaky,
            retry,
            config,
            s.failure_attempt,
            s.expected@.len(),
        );
    }
}

proof fn lemma_retry_has_budget(
    r: RecordView,
    names: Seq<String>,
    flaky: Seq<bool>,
    retry: RetryPolicy,
    config: QuokkaConfig,
    failure_attempt: u32,
    n: nat,
)
    requires
        n <= names.len() == flaky.len(),
        retried_names(r, names, flaky, retry, config, failure_attempt, n).len() > 0,
    ensures
        failure_attempt + 1 < attempts_for(retry, config, true),
    decreases n,
{
    if n > 0 {
        if retried_names(r, names, flaky, retry, config, failure_attempt, (n - 1) as nat).len() > 0 {
            lemma_retry_has_budget(
                r,
                names,
                flaky,
                retry,
                config,
                failure_attempt,
                (n - 1) as nat,
            );
        }
    }
}

/// A rerun never counts as a first attempt, so it is never served from the cache.
pub proof fn law_reruns_are_no_first_attempts(
    s: ActionState,
    out_of_time: bool,
    flaky: Seq<bool>,
    retry: RetryPolicy,
    config: QuokkaConfig,
    policy: BatchFailurePolicy,
    step: ActionStep,
    t: ActionState,
)
    requires
        decided(s, out_of_time, flaky, retry, config, policy, step, t),
    ensures
        step == ActionStep::RunAgain ==> t.spec_attempt_index() > 0,
        step == ActionStep::Isolate ==> t.spec_isolation_index() > 0,
{
}

/// One test as it is reported: its name, what came of it, and what was seen.
#[derive(Debug)]
pub struct FinishedPart {
    pub name: String,
    pub outcome: TestOutcome,
    pub observations: Vec<DbObservation>,
    pub history: Vec<AttemptObservation>,
}

/// Whether a part reports a test. What was seen of a test is reported once, so a
/// second part of the same name has none of it.
pub open spec fn is_part(r: RecordView, name: String, again: bool, part: FinishedPart) -> bool {
    &&& part.name == name
    &&& part.outcome@ == (if r.best.contains_key(name@) {
        r.best[name@]
    } else {
        observe::nothing_seen()
    })
    &&& part.observations@ == (if again {
        Seq::empty()
    } else {
        list_of(r.attempts, name@)
    })
    &&& observe::attempt_views(part.history@) == (if again {
        Seq::empty()
    } else {
        list_of(r.history, name@)
    })
}

/// Whether a name stands among the first `n`.
pub open spec fn named_before(names: Seq<String>, n: int, name: Seq<char>) -> bool {
    exists|j: int| 0 <= j < n && (#[trigger] names[j])@ == name
}

/// Whether parts report tests, in order.
pub open spec fn are_parts(r: RecordView, names: Seq<String>, parts: Seq<FinishedPart>) -> bool {
    parts.len() == names.len() && forall|i: int|
        0 <= i < names.len() ==> is_part(
            r,
            names[i],
            named_before(names, i, names[i]@),
            #[trigger] parts[i],
        )
}

/// The record without what was seen of some tests.
pub open spec fn without_lists(r: RecordView, names: Seq<String>, n: int) -> RecordView {
    RecordView {
        best: r.best,
        attempts: r.attempts.remove_keys(
            Set::new(|name: Seq<char>| named_before(names, n, name)),
        ),
        history: r.history.remove_keys(Set::new(|name: Seq<char>| named_before(names, n, name))),
    }
}

fn take_part(record: &mut ActionRecord, name: &String) -> (r: FinishedPart)
    ensures
        r.name == *name,
        r.outcome@ == (if old(record)@.best.contains_key(name@) {
            old(record)@.best[name@]
        } else {
            observe::nothing_seen()
        }),
        r.observations@ == list_of(old(record)@.attempts, name@),
        observe::attempt_views(r.history@) == list_of(old(record)@.history, name@),
        final(record)@ == (RecordView {
            best: old(record)@.best,
            attempts: old(record)@.attempts.remove(name@),
            history: old(record)@.history.remove(name@),
        }),
{
    let ghost before = record@;
    let best: BestObs = match record.best.get(name.as_str()) {
        Some(best) => best.duplicate(),
        None => BestObs::missing(),
    };
    let observations: Vec<DbObservation> = match record.attempts.remove(name.as_str()) {
        Some(list) => list,
        None => Vec::new(),
    };
    let history: Vec<AttemptObservation> = match record.history.remove(name.as_str()) {
        Some(list) => list,
        None => Vec::new(),
    };
    proof {
        assert(observations@ =~= list_of(before.attempts, name@));
        assert(observe::attempt_views(history@) =~= list_of(before.history, name@));
        assert(record@.attempts =~= before.attempts.remove(name@));
        assert(record@.history =~= before.history.remove(name@));
    }
    FinishedPart { name: name.clone(), outcome: best.into_outcome(), observations, history }
}

fn take_parts(record: &mut ActionRecord, names: &Vec<String>) -> (r: Vec<FinishedPart>)
    ensures
        are_parts(old(record)@, names@, r@),
        final(record)@ == without_lists(old(record)@, names@, names@.len() as int),
{
    let ghost before = record@;
    let mut out: Vec<FinishedPart> = Vec::new();
    let mut i: usize = 0;
    proof {
        assert(record@ =~= without_lists(before, names@, 0));
    }
    while i < names.len()
        invariant
            i <= names.len(),
            out@.len() == i,
            record@ == without_lists(before, names@, i as int),
            forall|k: int|
                0 <= k < i ==> is_part(
                    before,
                    names@[k],
                    named_before(names@, k, names@[k]@),
                    #[trigger] out@[k],
                ),
        decreases names.len() - i,
    {
        let ghost held = record@;
        let part: FinishedPart = take_part(record, &names[i]);
        proof {
            let name = names@[i as int];
            assert(held.attempts.contains_key(name@) <==> before.attempts.contains_key(name@)
                && !named_before(names@, i as int, name@));
            assert(held.history.contains_key(name@) <==> before.history.contains_key(name@)
                && !named_before(names@, i as int, name@));
            assert(is_part(before, name, named_before(names@, i as int, name@), part));
            assert forall|n: Seq<char>| named_before(names@, i + 1, n) <==> (named_before(
                names@,
                i as int,
                n,
            ) || n == name@) by {
                if named_before(names@, i + 1, n) {
                    let j = choose|j: int| 0 <= j < i + 1 && (#[trigger] names@[j])@ == n;
                    if j < i {
                        assert(named_before(names@, i as int, n));
                    }
                }
                if named_before(names@, i as int, n) {
                    let j = choose|j: int| 0 <= j < i && (#[trigger] names@[j])@ == n;
                    assert(names@[j]@ == n);
                }
            }
            assert(record@ =~= without_lists(before, names@, i + 1));
        }
        out.push(part);
        i += 1;
    }
    out
}

/// The tests among the first `n` that do not fail.
pub open spec fn passing_names(r: RecordView, names: Seq<String>, n: nat) -> Seq<String>
    decreases n,
{
    if n == 0 {
        Seq::empty()
    } else {
        let before = passing_names(r, names, (n - 1) as nat);
        if failing(r, names[n - 1]@) {
            before
        } else {
            before.push(names[n - 1])
        }
    }
}

/// What an action of a single test inherits of what was seen: everything of the
/// test, and nothing of any other.
pub open spec fn inherited(r: RecordView, name: Seq<char>, again: bool) -> RecordView {
    RecordView {
        best: r.best.restrict(set![name]),
        attempts: if again {
            Map::empty()
        } else {
            r.attempts.restrict(set![name])
        },
        history: if again {
            Map::empty()
        } else {
            r.history.restrict(set![name])
        },
    }
}

/// Whether an action reruns a single test, with what was seen of it.
pub open spec fn is_single(
    r: RecordView,
    name: String,
    again: bool,
    first_attempt_index: u32,
    single: ActionState,
) -> bool {
    &&& single.selection matches TestSelection::Explicit(names) && names@ == seq![name]
    &&& single.expected@ == seq![name]
    &&& single.pending@ == seq![name]
    &&& single.record@ == inherited(r, name@, again)
    &&& single.failure_attempt == 0
    &&& single.action_timeouts == 0
    &&& single.execution_attempt == 0
    &&& single.first_attempt_index == first_attempt_index
}

/// A batch that is taken apart: the tests that do not fail are reported, and the
/// others run one by one.
pub struct Isolation {
    pub done: Vec<FinishedPart>,
    pub singles: Vec<ActionState>,
}

/// Whether a batch is taken apart as it should be.
pub open spec fn is_isolation(s: ActionState, isolation: Isolation) -> bool {
    let n = s.expected@.len();
    let passing = passing_names(s.record@, s.expected@, n);
    let still_failing = failing_names(s.record@, s.expected@, n);
    &&& are_parts(s.record@, passing, isolation.done@)
    &&& isolation.singles@.len() == still_failing.len()
    &&& forall|i: int|
        0 <= i < still_failing.len() ==> is_single(
            s.record@,
            still_failing[i],
            named_before(still_failing, i, still_failing[i]@),
            s.spec_isolation_index(),
            #[trigger] isolation.singles@[i],
        )
}

/// The tests that fail and the tests that do not are all the tests.
proof fn lemma_names_split(r: RecordView, names: Seq<String>, n: nat)
    requires
        n <= names.len(),
    ensures
        passing_names(r, names, n).to_multiset().add(failing_names(r, names, n).to_multiset())
            == names.take(n as int).to_multiset(),
        passing_names(r, names, n).len() + failing_names(r, names, n).len() == n,
    decreases n,
{
    broadcast use vstd::seq_lib::group_to_multiset_ensures;
    if n == 0 {
        assert(names.take(0) =~= Seq::<String>::empty());
        assert(passing_names(r, names, n).to_multiset().add(
            failing_names(r, names, n).to_multiset(),
        ) =~= names.take(0).to_multiset());
    } else {
        lemma_names_split(r, names, (n - 1) as nat);
        let before = names.take(n - 1);
        assert(names.take(n as int) =~= before.push(names[n - 1]));
        assert(passing_names(r, names, n).to_multiset().add(
            failing_names(r, names, n).to_multiset(),
        ) =~= before.to_multiset().insert(names[n - 1]));
    }
}

/// Every test of an action is reported once: a batch that is taken apart reports
/// some of its tests and hands each of the others to an action of its own, which is
/// never taken apart again.
pub proof fn law_every_test_is_reported_once(
    s: ActionState,
    isolation: Isolation,
    out_of_time: bool,
    flaky: Seq<bool>,
    retry: RetryPolicy,
    config: QuokkaConfig,
    policy: BatchFailurePolicy,
    single: ActionState,
    step: ActionStep,
    t: ActionState,
)
    requires
        is_isolation(s, isolation),
        single.expected@.len() == 1,
        decided(single, out_of_time, flaky, retry, config, policy, step, t),
    ensures
        isolation.done@.len() + isolation.singles@.len() == s.expected@.len(),
        Seq::new(isolation.done@.len(), |i: int| isolation.done@[i].name).to_multiset().add(
            Seq::new(
                isolation.singles@.len(),
                |i: int| isolation.singles@[i].expected@[0],
            ).to_multiset(),
        ) == s.expected@.to_multiset(),
        forall|i: int|
            0 <= i < isolation.singles@.len() ==> (
            #[trigger] isolation.singles@[i]).expected@.len() == 1,
        step != ActionStep::Isolate,
{
    let n = s.expected@.len();
    lemma_names_split(s.record@, s.expected@, n);
    assert(s.expected@.take(n as int) =~= s.expected@);
    assert(Seq::new(isolation.done@.len(), |i: int| isolation.done@[i].name) =~= passing_names(
        s.record@,
        s.expected@,
        n,
    ));
    assert(Seq::new(isolation.singles@.len(), |i: int| isolation.singles@[i].expected@[0])
        =~= failing_names(s.record@, s.expected@, n));
}

/// The results of a batch whose singles inherit a missing result stay missing: what
/// a single run adds cannot repair what the batch lost.
pub proof fn law_isolation_keeps_missing_results(
    r: RecordView,
    name: Seq<char>,
    again: bool,
    note: NoteView,
    execution: AttemptExecution,
    duration: AttemptDuration,
    max_memory: Option<u64>,
)
    requires
        r.best.contains_key(name),
        r.best[name].integrity == ResultIntegrity::MissingTerminalResult,
    ensures
        noted(
            inherited(r, name, again),
            name,
            note,
            execution,
            duration,
            max_memory,
        ).best[name].integrity == ResultIntegrity::MissingTerminalResult,
{
    assert(inherited(r, name, again).best.contains_key(name));
    assert(inherited(r, name, again).best[name] == r.best[name]);
}

fn take_single(record: &mut ActionRecord, name: &String) -> (r: ActionRecord)
    ensures
        r@.best == old(record)@.best.restrict(set![name@]),
        r@.attempts == old(record)@.attempts.restrict(set![name@]),
        r@.history == old(record)@.history.restrict(set![name@]),
        final(record)@ == (RecordView {
            best: old(record)@.best,
            attempts: old(record)@.attempts.remove(name@),
            history: old(record)@.history.remove(name@),
        }),
{
    let ghost before = record@;
    let mut single: ActionRecord = ActionRecord::new();
    proof {
        assert forall|n: Seq<char>| !single.best@.contains_key(n) && !single.attempts@.contains_key(n)
            && !single.history@.contains_key(n) by {
            assert(!single@.best.contains_key(n));
            assert(!single@.attempts.contains_key(n));
            assert(!single@.history.contains_key(n));
        }
    }
    if let Some(best) = record.best.get(name.as_str()) {
        single.best.insert(name.as_str(), best.duplicate());
    }
    if let Some(list) = record.attempts.remove(name.as_str()) {
        single.attempts.insert(name.as_str(), list);
    }
    if let Some(list) = record.history.remove(name.as_str()) {
        single.history.insert(name.as_str(), list);
    }
    proof {
        assert(single@.best =~= before.best.restrict(set![name@]));
        assert(single@.attempts =~= before.attempts.restrict(set![name@]));
        assert(single@.history =~= before.history.restrict(set![name@]));
        assert(record@.attempts =~= before.attempts.remove(name@));
        assert(record@.history =~= before.history.remove(name@));
    }
    single
}

impl ActionState {
    /// Which attempt of its tests the next group is.
    pub open spec fn spec_attempt_index(self) -> u32 {
        counted_up(self.first_attempt_index, self.execution_attempt)
    }

    /// Which attempt of its test an isolated action starts with.
    pub open spec fn spec_isolation_index(self) -> u32 {
        counted_up(self.spec_attempt_index(), 1)
    }

    /// An action that has not run.
    pub fn new(selection: TestSelection<String>, expected: Vec<String>) -> (r: Self)
        ensures
            r.selection == selection,
            r.expected == expected,
            r.pending@ == expected@,
            r.record@ == no_record(),
            r.failure_attempt == 0,
            r.action_timeouts == 0,
            r.execution_attempt == 0,
            r.first_attempt_index == 0,
    {
        let pending: Vec<String> = copy_strings(expected.as_slice());
        ActionState {
            selection,
            expected,
            pending,
            record: ActionRecord::new(),
            failure_attempt: 0,
            action_timeouts: 0,
            execution_attempt: 0,
            first_attempt_index: 0,
        }
    }

    /// Which attempt of its tests the next group is.
    pub fn attempt_index(&self) -> (r: u32)
        ensures
            r == self.spec_attempt_index(),
    {
        count_up(self.first_attempt_index, self.execution_attempt)
    }

    /// What the next group selects: the selection of the action, until tests run
    /// again because they failed; then exactly those tests.
    pub fn current_selection(&self) -> (r: TestSelection<String>)
        ensures
            self.failure_attempt == 0 && self.selection is All ==> r is All,
            self.failure_attempt == 0 ==> (self.selection matches TestSelection::Explicit(names)
                ==> r matches TestSelection::Explicit(chosen) && chosen@ == names@),
            self.failure_attempt > 0 ==> (r matches TestSelection::Explicit(chosen) && chosen@
                == self.pending@),
    {
        if self.failure_attempt == 0 {
            match &self.selection {
                TestSelection::All => TestSelection::All,
                TestSelection::Explicit(names) => TestSelection::Explicit(
                    copy_strings(names.as_slice()),
                ),
            }
        } else {
            TestSelection::Explicit(copy_strings(self.pending.as_slice()))
        }
    }

    /// Takes in the outcome of a group.
    pub fn observe(&mut self, outcome: &GroupOutcome, whole_unit: bool)
        ensures
            is_observed(*old(self), *outcome, whole_unit, *final(self)),
    {
        let ghost before = *self;
        let mut i: usize = 0;
        match outcome {
            GroupOutcome::Observed(o) => {
                let singleton: bool = self.expected.len() <= 1 || self.pending.len() == 1;
                while i < self.pending.len()
                    invariant
                        i <= self.pending.len(),
                        self.pending == before.pending,
                        self.selection == before.selection,
                        self.expected == before.expected,
                        self.failure_attempt == before.failure_attempt,
                        self.action_timeouts == before.action_timeouts,
                        self.execution_attempt == before.execution_attempt,
                        self.first_attempt_index == before.first_attempt_index,
                        self.record@ == observed_upto(
                            before.record@,
                            before.pending@,
                            *o,
                            whole_unit,
                            singleton,
                            i as nat,
                        ),
                    decreases self.pending.len() - i,
                {
                    let note: Note = note_observed(
                        o,
                        self.pending[i].as_str(),
                        whole_unit,
                        singleton,
                    );
                    self.record.note(
                        self.pending[i].as_str(),
                        note,
                        o.execution,
                        AttemptDuration::Measured(o.execution_time),
                        o.max_memory,
                    );
                    i += 1;
                }
            },
            GroupOutcome::Failed(f) => {
                while i < self.pending.len()
                    invariant
                        i <= self.pending.len(),
                        self.pending == before.pending,
                        self.selection == before.selection,
                        self.expected == before.expected,
                        self.failure_attempt == before.failure_attempt,
                        self.action_timeouts == before.action_timeouts,
                        self.execution_attempt == before.execution_attempt,
                        self.first_attempt_index == before.first_attempt_index,
                        self.record@ == failed_upto(
                            before.record@,
                            before.pending@,
                            f@,
                            i as nat,
                        ),
                    decreases self.pending.len() - i,
                {
                    let note = Note {
                        status: f.status,
                        details: f.details.clone(),
                        integrity: f.disposition.integrity(),
                        from_harness: false,
                    };
                    self.record.note(
                        self.pending[i].as_str(),
                        note,
                        f.execution,
                        f.duration,
                        None,
                    );
                    i += 1;
                }
            },
        }
    }

    fn is_failing(&self, name: &str) -> (r: bool)
        ensures
            r == failing(self.record@, name@),
    {
        match self.record.best.get(name) {
            Some(best) => best.status.is_failure(),
            None => true,
        }
    }

    /// The tests that still fail.
    pub fn still_failing(&self) -> (r: Vec<String>)
        ensures
            r@ == failing_names(self.record@, self.expected@, self.expected@.len()),
    {
        let mut out: Vec<String> = Vec::new();
        let mut i: usize = 0;
        while i < self.expected.len()
            invariant
                i <= self.expected.len(),
                out@ == failing_names(self.record@, self.expected@, i as nat),
            decreases self.expected.len() - i,
        {
            if self.is_failing(self.expected[i].as_str()) {
                out.push(self.expected[i].clone());
            }
            i += 1;
        }
        out
    }

    fn passing(&self) -> (r: Vec<String>)
        ensures
            r@ == passing_names(self.record@, self.expected@, self.expected@.len()),
    {
        let mut out: Vec<String> = Vec::new();
        let mut i: usize = 0;
        while i < self.expected.len()
            invariant
                i <= self.expected.len(),
                out@ == passing_names(self.record@, self.expected@, i as nat),
            decreases self.expected.len() - i,
        {
            if !self.is_failing(self.expected[i].as_str()) {
                out.push(self.expected[i].clone());
            }
            i += 1;
        }
        out
    }

    fn retried(&self, flaky: &[bool], retry: RetryPolicy, config: &QuokkaConfig) -> (r: Vec<String>)
        requires
            flaky@.len() == self.expected@.len(),
        ensures
            r@ == retried_names(
                self.record@,
                self.expected@,
                flaky@,
                retry,
                *config,
                self.failure_attempt,
                self.expected@.len(),
            ),
    {
        let mut out: Vec<String> = Vec::new();
        let mut i: usize = 0;
        while i < self.expected.len()
            invariant
                i <= self.expected.len(),
                flaky@.len() == self.expected@.len(),
                out@ == retried_names(
                    self.record@,
                    self.expected@,
                    flaky@,
                    retry,
                    *config,
                    self.failure_attempt,
                    i as nat,
                ),
            decreases self.expected.len() - i,
        {
            let allowed: u32 = allowed_attempts(retry, config, flaky[i]);
            if self.is_failing(self.expected[i].as_str()) && allowed > 1 && self.failure_attempt
                < allowed - 1 {
                out.push(self.expected[i].clone());
            }
            i += 1;
        }
        out
    }

    /// Decides how the action goes on after a group. `flaky` says of each expected
    /// test whether its history shows failures.
    pub fn decide(
        &mut self,
        out_of_time: bool,
        flaky: &[bool],
        retry: RetryPolicy,
        config: &QuokkaConfig,
        policy: BatchFailurePolicy,
    ) -> (r: ActionStep)
        requires
            flaky@.len() == old(self).expected@.len(),
        ensures
            decided(
                *old(self),
                out_of_time,
                flaky@,
                retry,
                *config,
                policy,
                r,
                *final(self),
            ),
    {
        let still_failing: Vec<String> = self.still_failing();
        if still_failing.len() == 0 {
            return ActionStep::Finish;
        }
        if out_of_time {
            if self.action_timeouts < INFRA_MAX_ATTEMPTS - 1 {
                self.action_timeouts += 1;
                self.execution_attempt = count_up(self.execution_attempt, 1);
                self.pending = still_failing;
                return ActionStep::RunAgain;
            }
            return ActionStep::Finish;
        }
        let retried: Vec<String> = self.retried(flaky, retry, config);
        if retried.len() > 0 {
            proof {
                lemma_retry_has_budget(
                    self.record@,
                    self.expected@,
                    flaky@,
                    retry,
                    *config,
                    self.failure_attempt,
                    self.expected@.len(),
                );
            }
            self.failure_attempt += 1;
            self.execution_attempt = count_up(self.execution_attempt, 1);
            self.pending = retried;
            return ActionStep::RunAgain;
        }
        if self.expected.len() > 1 && policy == BatchFailurePolicy::RerunPerTestToIsolate {
            return ActionStep::Isolate;
        }
        ActionStep::Finish
    }

    /// Takes in the outcome of a group and decides how the action goes on. `flaky`
    /// says of each expected test whether its history shows failures.
    pub fn advance(
        &mut self,
        outcome: &GroupOutcome,
        whole_unit: bool,
        flaky: &[bool],
        retry: RetryPolicy,
        config: &QuokkaConfig,
        policy: BatchFailurePolicy,
    ) -> (r: ActionStep)
        requires
            flaky@.len() == old(self).expected@.len(),
        ensures
            exists|seen: ActionState| #[trigger]
                is_observed(*old(self), *outcome, whole_unit, seen) && decided(
                    seen,
                    ran_out_of_time(*outcome),
                    flaky@,
                    retry,
                    *config,
                    policy,
                    r,
                    *final(self),
                ),
    {
        self.observe(outcome, whole_unit);
        let ghost seen = *self;
        let step: ActionStep = self.decide(ran_out(outcome), flaky, retry, config, policy);
        proof {
            assert(is_observed(*old(self), *outcome, whole_unit, seen));
        }
        step
    }

    /// The results of the action, one per expected test.
    pub fn finish(self) -> (r: Vec<FinishedPart>)
        ensures
            are_parts(self.record@, self.expected@, r@),
    {
        let mut record: ActionRecord = self.record;
        take_parts(&mut record, &self.expected)
    }

    /// Takes a batch apart.
    pub fn isolate(self) -> (r: Isolation)
        ensures
            is_isolation(self, r),
    {
        let passing: Vec<String> = self.passing();
        let still_failing: Vec<String> = self.still_failing();
        let first: u32 = count_up(self.attempt_index(), 1);
        let ghost seen = self.record@;
        let ghost n = self.expected@.len();
        proof {
            lemma_apart(seen, self.expected@, n);
        }
        let mut record: ActionRecord = self.record;
        let done: Vec<FinishedPart> = take_parts(&mut record, &passing);
        let ghost left = record@;
        let mut singles: Vec<ActionState> = Vec::new();
        let mut i: usize = 0;
        proof {
            assert(left =~= without_lists(left, still_failing@, 0));
        }
        while i < still_failing.len()
            invariant
                i <= still_failing.len(),
                singles@.len() == i,
                left == without_lists(seen, passing@, passing@.len() as int),
                record@ == without_lists(left, still_failing@, i as int),
                forall|k: int|
                    0 <= k < still_failing@.len() ==> !named_before(
                        passing@,
                        passing@.len() as int,
                        (#[trigger] still_failing@[k])@,
                    ),
                forall|k: int|
                    0 <= k < i ==> is_single(
                        seen,
                        still_failing@[k],
                        named_before(still_failing@, k, still_failing@[k]@),
                        first,
                        #[trigger] singles@[k],
                    ),
            decreases still_failing.len() - i,
        {
            let ghost held = record@;
            let name: &String = &still_failing[i];
            let single: ActionRecord = take_single(&mut record, name);
            proof {
                let again = named_before(still_failing@, i as int, name@);
                assert(!named_before(passing@, passing@.len() as int, name@));
                assert(single@.best =~= inherited(seen, name@, again).best);
                assert(single@.attempts =~= inherited(seen, name@, again).attempts);
                assert(single@.history =~= inherited(seen, name@, again).history);
                assert forall|n: Seq<char>| named_before(still_failing@, i + 1, n) <==> (
                named_before(still_failing@, i as int, n) || n == name@) by {
                    if named_before(still_failing@, i + 1, n) {
                        let j = choose|j: int|
                            0 <= j < i + 1 && (#[trigger] still_failing@[j])@ == n;
                        if j < i {
                            assert(named_before(still_failing@, i as int, n));
                        }
                    }
                    if named_before(still_failing@, i as int, n) {
                        let j = choose|j: int| 0 <= j < i && (#[trigger] still_failing@[j])@ == n;
                        assert(still_failing@[j]@ == n);
                    }
                }
                assert(record@ =~= without_lists(left, still_failing@, i + 1));
            }
            let state = ActionState {
                selection: TestSelection::Explicit(only(name)),
                expected: only(name),
                pending: only(name),
                record: single,
                failure_attempt: 0,
                action_timeouts: 0,
                execution_attempt: 0,
                first_attempt_index: first,
            };
            proof {
                assert(is_single(
                    seen,
                    still_failing@[i as int],
                    named_before(still_failing@, i as int, still_failing@[i as int]@),
                    first,
                    state,
                ));
            }
            singles.push(state);
            i += 1;
        }
        Isolation { done, singles }
    }
}

fn only(name: &String) -> (r: Vec<String>)
    ensures
        r@ == seq![*name],
{
    let mut out: Vec<String> = Vec::new();
    out.push(name.clone());
    proof {
        assert(out@ =~= seq![*name]);
    }
    out
}

/// No test both fails and does not.
proof fn lemma_apart(r: RecordView, names: Seq<String>, n: nat)
    requires
        n <= names.len(),
    ensures
        forall|k: int|
            0 <= k < failing_names(r, names, n).len() ==> failing(
                r,
                (#[trigger] failing_names(r, names, n)[k])@,
            ),
        forall|k: int|
            0 <= k < passing_names(r, names, n).len() ==> !failing(
                r,
                (#[trigger] passing_names(r, names, n)[k])@,
            ),
    decreases n,
{
    if n > 0 {
        lemma_apart(r, names, (n - 1) as nat);
        let failing_before = failing_names(r, names, (n - 1) as nat);
        let passing_before = passing_names(r, names, (n - 1) as nat);
        assert forall|k: int| 0 <= k < failing_names(r, names, n).len() implies failing(
            r,
            (#[trigger] failing_names(r, names, n)[k])@,
        ) by {
            if k < failing_before.len() {
                assert(failing(r, failing_before[k]@));
            }
        }
        assert forall|k: int| 0 <= k < passing_names(r, names, n).len() implies !failing(
            r,
            (#[trigger] passing_names(r, names, n)[k])@,
        ) by {
            if k < passing_before.len() {
                assert(!failing(r, passing_before[k]@));
            }
        }
    }
}

/// How many attempts a failing test gets.
pub fn allowed_attempts(retry: RetryPolicy, config: &QuokkaConfig, flaky: bool) -> (r: u32)
    ensures
        r == attempts_for(retry, *config, flaky),
{
    let granted: u32 = match config.flaky_retry {
        Some(flaky_retry) => {
            if flaky {
                flaky_retry.attempts
            } else {
                0
            }
        },
        None => 0,
    };
    let base: u32 = retry.max_attempts();
    if granted > base {
        granted
    } else {
        base
    }
}

/// Whether the flags say which keys have failures in the history.
pub open spec fn are_flakes(db: duration_db::DbView, keys: Seq<u64>, flaky: Seq<bool>) -> bool {
    &&& flaky.len() == keys.len()
    &&& forall|i: int|
        0 <= i < keys.len() ==> #[trigger] flaky[i] == (db.flakes(None, keys[i]) matches Some(record)
            && record.failures > 0)
}

/// Which keys have failed before.
pub fn flakes_at(db: &DurationDb, keys: &[u64]) -> (r: Vec<bool>)
    ensures
        are_flakes(db@, keys@, r@),
{
    let mut out: Vec<bool> = Vec::new();
    let mut i: usize = 0;
    while i < keys.len()
        invariant
            i <= keys.len(),
            out@.len() == i,
            forall|k: int|
                0 <= k < i ==> #[trigger] out@[k] == (db@.flakes(None, keys@[k]) matches Some(record)
                    && record.failures > 0),
        decreases keys.len() - i,
    {
        let flaky: bool = match db.get_flake_record(None, keys[i]) {
            Some(record) => record.failures > 0,
            None => false,
        };
        out.push(flaky);
        i += 1;
    }
    out
}

/// Which of some tests of a target have failed before, by the keys of the identities
/// that [`identities_of`] makes of them.
pub fn known_flakes(db: &DurationDb, target: &str, names: &[String], variant: &Variant) -> (r: Vec<
    bool,
>)
    ensures
        r@.len() == names@.len(),
        exists|keys: Seq<u64>| #[trigger]
            are_flakes(db@, keys, r@) && batches::are_keys(
                db.spec_project(),
                target@,
                names@,
                *variant,
                keys,
            ),
{
    let ids: Vec<TestIdentity> = identities_of(target, names, variant);
    let keys: Vec<u64> = db.keys_of(ids.as_slice());
    proof {
        assert forall|i: int| 0 <= i < names@.len() implies duration_db::is_key(
            db.spec_project(),
            target@,
            names@[i]@,
            *variant,
            #[trigger] keys@[i],
        ) by {
            assert(db.keyed(ids@[i], keys@[i]));
        }
        assert(batches::are_keys(db.spec_project(), target@, names@, *variant, keys@));
    }
    flakes_at(db, keys.as_slice())
}

} // verus!

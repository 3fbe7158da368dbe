//! One action that runs a group of tests: what is asked of the build tool, and what
//! its answer means for the group.

use vstd::prelude::*;

use crate::batching::TestSelection;
use crate::caching::{CacheClass, TestExecutionCaching};
use crate::cli::RunnerConfig;
use crate::duration_db::DurationEstimate;
use crate::environment::{self, ResourceSet};
use crate::execution::{
    self, build_cmd, build_test_env, build_testing_request, cgroup_memory_max_for_action,
    parse_resource_failures, CgroupGranularity, CgroupMemoryMax, LogicalCommand, ResourceFailure,
    ResourceFailureView, ResourceMarkerToken, TestingRequest, FNV_SEED,
};
use crate::names::NameMap;
use crate::proto::{ConfiguredTargetHandle, ExecuteRequest2};
use crate::result::{CompletedAction, Execute2Outcome, ProcessOutcome, TestVerdict};
use crate::scheduler::observe::{
    self, AttemptDuration, AttemptExecution, ResultIntegrity, INFRA_MAX_ATTEMPTS,
};
use crate::scheduler::plan::{self, TargetPlan};
use crate::text::{
    self, chars_of, copy_strings, decimal_text, join_texts, rfind_text_chars, slice_of, string_of,
};
use crate::time::Duration;
use crate::translator::{self, ObservationView, PerTestObservation, Translator};
use crate::variant::RepeatKind;

verus! {

// ---------------------------------------------------------------------------
// The request.

/// Whether any test has no history.
pub open spec fn has_unseen(estimates: Seq<DurationEstimate>) -> bool {
    exists|i: int| 0 <= i < estimates.len() && (#[trigger] estimates[i]) is Unseen
}

/// Whether any test has no history.
pub fn any_unseen(estimates: &[DurationEstimate]) -> (r: bool)
    ensures
        r == has_unseen(estimates@),
{
    let mut i: usize = 0;
    while i < estimates.len()
        invariant
            i <= estimates.len(),
            forall|k: int| 0 <= k < i ==> !((#[trigger] estimates@[k]) is Unseen),
        decreases estimates.len() - i,
    {
        if matches!(estimates[i], DurationEstimate::Unseen) {
            return true;
        }
        i += 1;
    }
    false
}

/// Whether a group is kept from the cache because of a test without history.
pub open spec fn bypasses_cache(config: RunnerConfig, estimates: Seq<DurationEstimate>) -> bool {
    config.duration_db is Persistent && has_unseen(estimates)
}

/// Whether a group is kept from the cache because of a test without history.
pub fn unseen_bypasses_cache(config: &RunnerConfig, estimates: &[DurationEstimate]) -> (r: bool)
    ensures
        r == bypasses_cache(*config, estimates@),
{
    config.duration_db.cache_busts_unseen_tests() && any_unseen(estimates)
}

/// The number of a call among all calls for its tests, when `first` calls went before
/// the group and `infra` calls of the group did not get to the action.
pub open spec fn call_number(first: u32, infra: u32) -> u32 {
    if first + infra > u32::MAX {
        u32::MAX
    } else {
        (first + infra) as u32
    }
}

/// The number of a call among all calls for its tests.
pub fn group_attempt(first: u32, infra: u32) -> (r: u32)
    ensures
        r == call_number(first, infra),
{
    first.saturating_add(infra)
}

/// Only the first call for a test may be served from the cache: none that follows
/// another, whether of an earlier group or of the same one.
pub proof fn law_only_first_calls_are_cached(
    plan: TargetPlan,
    config: RunnerConfig,
    first: u32,
    infra: u32,
    unseen: bool,
)
    requires
        first > 0 || infra > 0,
    ensures
        caching_for(plan, config, call_number(first, infra), unseen)
            == TestExecutionCaching::Disabled,
{
}

/// Whether an action may be served from the cache. One with a test that was never
/// seen may not.
pub open spec fn caching_for(
    plan: TargetPlan,
    config: RunnerConfig,
    attempt_index: u32,
    unseen: bool,
) -> TestExecutionCaching {
    if unseen {
        TestExecutionCaching::Disabled
    } else {
        TestExecutionCaching::spec_resolve(
            plan.cache_class,
            config.variant is Default,
            plan.repeat is Stress,
            attempt_index,
        )
    }
}

/// The module of a test: its path without the last part.
pub open spec fn module_of(name: Seq<char>) -> Seq<char> {
    match text::rfind_text(name, "::"@, name.len() - "::"@.len()) {
        Some(k) => name.take(k),
        None => "(root)"@,
    }
}

/// The modules of tests.
pub open spec fn modules_of(names: Seq<String>) -> Set<Seq<char>> {
    Set::new(
        |module: Seq<char>|
            exists|i: int| 0 <= i < names.len() && module_of((#[trigger] names[i])@) == module,
    )
}

/// The label of a batch: its modules, shortened to three, and how many tests.
pub open spec fn batch_label(modules: Seq<Seq<char>>, count: nat) -> Seq<char> {
    (if modules.len() <= 3 {
        text::joined(modules, ", "@)
    } else {
        text::joined(modules.take(3), ", "@) + " and "@ + text::decimal((modules.len() - 3) as nat)
            + " more"@
    }) + " ("@ + text::decimal(count) + " tests)"@
}

/// Whether test cases describe a selection: nothing for the whole target, the name
/// for one test, a label for several.
pub open spec fn describe(selection: TestSelection<String>, testcases: Seq<String>) -> bool {
    match selection {
        TestSelection::All => testcases.len() == 0,
        TestSelection::Explicit(names) => if names@.len() == 1 {
            testcases == names@
        } else {
            testcases.len() == 1 && exists|modules: Seq<Seq<char>>|
                text::ascending(modules) && modules.to_set() == modules_of(names@)
                    && testcases[0]@ == #[trigger] batch_label(modules, names@.len())
        },
    }
}

fn module_text(name: &str) -> (r: String)
    ensures
        r@ == module_of(name@),
{
    let cs: Vec<char> = chars_of(name);
    match rfind_text_chars(cs.as_slice(), chars_of("::").as_slice()) {
        Some(k) => {
            let module: Vec<char> = slice_of(cs.as_slice(), 0, k);
            proof {
                assert(module@ =~= name@.take(k as int));
            }
            string_of(module.as_slice())
        },
        None => "(root)".to_owned(),
    }
}

fn label_of(names: &Vec<String>) -> (r: String)
    ensures
        exists|modules: Seq<Seq<char>>|
            text::ascending(modules) && modules.to_set() == modules_of(names@) && r@
                == #[trigger] batch_label(modules, names@.len()),
{
    let mut set: ResourceSet = ResourceSet::new();
    let mut i: usize = 0;
    proof {
        assert(set@ =~= modules_of(names@.take(0)));
    }
    while i < names.len()
        invariant
            i <= names.len(),
            set@ == modules_of(names@.take(i as int)),
        decreases names.len() - i,
    {
        let module: String = module_text(names[i].as_str());
        let ghost before = set@;
        set = set.with(module);
        proof {
            let shorter = names@.take(i as int);
            let longer = names@.take(i + 1);
            assert forall|m: Seq<char>| modules_of(longer).contains(m) <==> before.insert(
                module_of(names@[i as int]@),
            ).contains(m) by {
                if modules_of(longer).contains(m) {
                    let k = choose|k: int|
                        0 <= k < longer.len() && module_of((#[trigger] longer[k])@) == m;
                    if k < i {
                        assert(shorter[k] == longer[k]);
                        assert(modules_of(shorter).contains(m));
                    }
                }
                if modules_of(shorter).contains(m) {
                    let k = choose|k: int|
                        0 <= k < shorter.len() && module_of((#[trigger] shorter[k])@) == m;
                    assert(longer[k] == shorter[k]);
                }
                assert(longer[i as int] == names@[i as int]);
            }
            assert(set@ =~= modules_of(longer));
        }
        i += 1;
    }
    proof {
        assert(names@.take(i as int) =~= names@);
    }
    let modules: &Vec<String> = set.names();
    let ghost listed = text::views(modules@);
    let mut out: String = if modules.len() <= 3 {
        proof {
            assert(listed.take(modules@.len() as int) =~= listed);
        }
        join_texts(modules.as_slice(), modules.len(), ", ")
    } else {
        let mut head: String = join_texts(modules.as_slice(), 3, ", ");
        head.push_str(" and ");
        head.push_str(decimal_text((modules.len() - 3) as u64).as_str());
        head.push_str(" more");
        head
    };
    out.push_str(" (");
    out.push_str(decimal_text(names.len() as u64).as_str());
    out.push_str(" tests)");
    proof {
        assert(out@ == batch_label(listed, names@.len()));
    }
    out
}

/// The test cases that describe a selection to the user.
pub fn stage_testcases(selection: &TestSelection<String>) -> (r: Vec<String>)
    ensures
        describe(*selection, r@),
{
    match selection {
        TestSelection::All => Vec::new(),
        TestSelection::Explicit(names) => {
            if names.len() == 1 {
                copy_strings(names.as_slice())
            } else {
                let mut out: Vec<String> = Vec::new();
                out.push(label_of(names));
                out
            }
        },
    }
}

/// The names that a harness is asked to run.
pub open spec fn selected_names(selection: TestSelection<String>) -> Seq<Seq<char>> {
    match selection {
        TestSelection::All => Seq::empty(),
        TestSelection::Explicit(names) => text::views(names@),
    }
}

/// The stable fields of an action: its target and its arguments.
pub open spec fn stable_fields(target: Seq<char>, args: Seq<Seq<char>>) -> Seq<Seq<char>> {
    seq![target] + args
}

/// The hash of the first `n` fields.
pub open spec fn texts_hash(hash: u64, fields: Seq<Seq<char>>, n: nat) -> u64
    decreases n,
{
    if n == 0 {
        hash
    } else {
        execution::field_hash(texts_hash(hash, fields, (n - 1) as nat), fields[n - 1])
    }
}

/// The token of an action in a domain.
pub open spec fn token_text(domain: Seq<char>, fields: Seq<Seq<char>>) -> Seq<char> {
    text::hex(
        texts_hash(execution::field_hash(FNV_SEED, domain), fields, fields.len()) as nat,
        16,
    )
}

proof fn lemma_texts_hash(hash: u64, fields: Seq<&str>, n: nat)
    requires
        n <= fields.len(),
    ensures
        execution::fields_hash(hash, fields, n) == texts_hash(
            hash,
            translator::name_texts(fields),
            n,
        ),
    decreases n,
{
    if n > 0 {
        lemma_texts_hash(hash, fields, (n - 1) as nat);
    }
}

/// The token of an action: what its target and arguments hash to.
pub fn action_token(domain: &str, target: &str, args: &[String]) -> (r: ResourceMarkerToken)
    ensures
        r.0@ == token_text(domain@, stable_fields(target@, text::views(args@))),
{
    let mut fields: Vec<&str> = Vec::new();
    fields.push(target);
    let ghost expected = stable_fields(target@, text::views(args@));
    let mut i: usize = 0;
    while i < args.len()
        invariant
            i <= args.len(),
            expected == stable_fields(target@, text::views(args@)),
            fields@.len() == i + 1,
            forall|k: int| 0 <= k < fields@.len() ==> (#[trigger] fields@[k])@ == expected[k],
        decreases args.len() - i,
    {
        fields.push(args[i].as_str());
        i += 1;
    }
    proof {
        assert(translator::name_texts(fields@) =~= expected);
        lemma_texts_hash(
            execution::field_hash(FNV_SEED, domain@),
            fields@,
            fields@.len(),
        );
    }
    ResourceMarkerToken::from_stable_fields(domain, fields.as_slice())
}

/// The arguments of the run.
pub open spec fn run_args(
    plan: TargetPlan,
    config: RunnerConfig,
    selection: TestSelection<String>,
) -> Seq<Seq<char>> {
    plan.translator.run_args(
        selected_names(selection),
        plan.ignored,
        text::views(plan.spec_user_args(config)),
    )
}

/// Whether a request description is the one of a group: its selection described,
/// one command with the arguments of the run, the environment and the constraints
/// of the target, and the token of the target and the arguments.
pub open spec fn is_group_request(
    plan: TargetPlan,
    config: RunnerConfig,
    selection: TestSelection<String>,
    repeat_index: u32,
    caching: TestExecutionCaching,
    memory_max: CgroupMemoryMax,
    supervisor: Seq<char>,
    req: TestingRequest,
) -> bool {
    &&& req.target.id == plan.spec.handle.0
    &&& req.suite == plan.spec.suite
    &&& describe(selection, req.testcases@)
    &&& execution::is_cmd(plan.spec, Seq::empty(), req.base_command@)
    &&& req.commands@.len() == 1
    &&& req.commands@[0].index == 0
    &&& text::views(req.commands@[0].appended@) == run_args(plan, config, selection)
    &&& execution::is_test_env(
        plan.spec,
        config.extra_env@,
        config.declared_output_env@,
        req.env@,
    )
    &&& req.variant is Some <==> config.variant.spec_identity() is Some
    &&& req.variant matches Some(v) ==> config.variant.spec_identity() == Some(v@)
    &&& req.repeat_count == (if plan.repeat is Stress {
        Some(repeat_index as u64)
    } else {
        None
    })
    &&& is_testing_profile(plan, config, req)
    &&& req.caching == caching
    &&& req.logical_timeout == plan.timeout
    &&& req.cgroup_granularity == config.cgroup_granularity
    &&& req.cgroup_memory_max == memory_max
    &&& req.resource_marker_token.0@ == token_text(
        "testing"@,
        stable_fields(plan.spec.display@, run_args(plan, config, selection)),
    )
    &&& req.supervisor@ == supervisor
}

/// Whether a request runs where the plan says tests run.
pub open spec fn is_testing_profile(
    plan: TargetPlan,
    config: RunnerConfig,
    req: TestingRequest,
) -> bool {
    &&& req.profile.hardware == (if !plan.translator.overrides_executors() {
        environment::no_needs()
    } else if config.local_debug {
        plan::debug_needs()
    } else {
        plan.profile.hardware
    })
    &&& req.profile.exclusivity == plan.profile.exclusivity
    &&& req.profile.local_resources@ == (if !plan.translator.overrides_executors() {
        Set::<Seq<char>>::empty()
    } else {
        plan.profile.local_resources@
    })
}

/// A prepared action: the request and the token that marks its output.
#[derive(Debug)]
pub struct PreparedGroup {
    pub request: ExecuteRequest2,
    pub token: ResourceMarkerToken,
}

/// Whether a request is the one of a group.
pub open spec fn is_prepared(
    plan: TargetPlan,
    config: RunnerConfig,
    selection: TestSelection<String>,
    repeat_index: u32,
    caching: TestExecutionCaching,
    memory_max: CgroupMemoryMax,
    supervisor: Seq<char>,
    prepared: PreparedGroup,
) -> bool {
    exists|req: TestingRequest| #[trigger]
        is_group_request(
            plan,
            config,
            selection,
            repeat_index,
            caching,
            memory_max,
            supervisor,
            req,
        ) && execution::is_testing_request(req, prepared.request) && prepared.token
            == req.resource_marker_token
}

fn refs_of(names: &Vec<String>) -> (r: Vec<&str>)
    ensures
        translator::name_texts(r@) == text::views(names@),
{
    let mut out: Vec<&str> = Vec::new();
    let mut i: usize = 0;
    while i < names.len()
        invariant
            i <= names.len(),
            out@.len() == i,
            forall|k: int| 0 <= k < i ==> (#[trigger] out@[k])@ == names@[k]@,
        decreases names.len() - i,
    {
        out.push(names[i].as_str());
        i += 1;
    }
    proof {
        assert(translator::name_texts(out@) =~= text::views(names@));
    }
    out
}

/// The memory limit of a group, or why it has none.
pub open spec fn is_memory_max(
    plan: TargetPlan,
    config: RunnerConfig,
    names: Seq<String>,
    r: Result<CgroupMemoryMax, Seq<char>>,
) -> bool {
    let overrides = config.cgroup_memory_max_overrides@;
    let found = execution::matching_overrides(
        overrides,
        plan.spec.display@,
        names,
        overrides.len(),
    );
    if found.len() == 0 {
        r == Ok::<CgroupMemoryMax, Seq<char>>(config.cgroup_memory_max)
    } else if found.len() > 1 {
        r == Err::<CgroupMemoryMax, Seq<char>>(
            "multiple cgroup memory overrides match one action"@,
        )
    } else if names.len() == 1 {
        r == Ok::<CgroupMemoryMax, Seq<char>>(overrides[found[0]].memory_max)
    } else {
        r == Err::<CgroupMemoryMax, Seq<char>>(
            "a cgroup memory override requires a singleton test action"@,
        )
    }
}

/// Prepares the action of a group. `first_attempt` calls for its tests went before it,
/// `infra_attempt` calls of its own did not get to the action, and `estimates` say
/// what is known of its tests. Memory overrides that do not fit the group are an error.
pub fn prepare_group(
    plan: &TargetPlan,
    config: &RunnerConfig,
    selection: &TestSelection<String>,
    names: &[String],
    repeat_index: u32,
    first_attempt: u32,
    infra_attempt: u32,
    estimates: &[DurationEstimate],
    supervisor: &str,
) -> (r: Result<PreparedGroup, String>)
    ensures
        match r {
            Ok(prepared) => exists|memory_max: CgroupMemoryMax|
                is_memory_max(
                    *plan,
                    *config,
                    names@,
                    Ok::<CgroupMemoryMax, Seq<char>>(memory_max),
                ) && #[trigger] is_prepared(
                    *plan,
                    *config,
                    *selection,
                    repeat_index,
                    caching_for(
                        *plan,
                        *config,
                        call_number(first_attempt, infra_attempt),
                        bypasses_cache(*config, estimates@),
                    ),
                    memory_max,
                    supervisor@,
                    prepared,
                ),
            Err(details) => is_memory_max(
                *plan,
                *config,
                names@,
                Err::<CgroupMemoryMax, Seq<char>>(details@),
            ),
        },
{
    let mut caching: TestExecutionCaching = TestExecutionCaching::resolve(
        plan.cache_class,
        config.variant.is_default(),
        plan.repeat.is_stress(),
        group_attempt(first_attempt, infra_attempt),
    );
    if unseen_bypasses_cache(config, estimates) {
        caching = TestExecutionCaching::Disabled;
    }
    let user_args: Vec<String> = plan.user_args(config);
    let all: Vec<String> = Vec::new();
    let chosen: &Vec<String> = match selection {
        TestSelection::All => &all,
        TestSelection::Explicit(selected) => selected,
    };
    proof {
        assert(text::views(chosen@) =~= selected_names(*selection));
    }
    let refs: Vec<&str> = refs_of(chosen);
    let appended: Vec<String> = plan.translator.execution_args(
        refs.as_slice(),
        plan.ignored,
        user_args.as_slice(),
    );
    let token: ResourceMarkerToken = action_token(
        "testing",
        plan.spec.display.as_str(),
        appended.as_slice(),
    );
    let memory_max: CgroupMemoryMax = match cgroup_memory_max_for_action(
        config.cgroup_memory_max,
        config.cgroup_memory_max_overrides.as_slice(),
        plan.spec.display.as_str(),
        names,
    ) {
        Ok(value) => value,
        Err(details) => {
            return Err(details);
        },
    };
    let mut commands: Vec<LogicalCommand> = Vec::new();
    commands.push(LogicalCommand { index: 0, appended });
    let nothing: Vec<String> = Vec::new();
    let req = TestingRequest {
        target: ConfiguredTargetHandle { id: plan.spec.handle.0 },
        suite: plan.spec.suite.clone(),
        testcases: stage_testcases(selection),
        base_command: build_cmd(&plan.spec, nothing.as_slice()),
        commands,
        env: build_test_env(
            &plan.spec,
            config.extra_env.as_slice(),
            config.declared_output_env.as_slice(),
        ),
        variant: config.variant.identity(),
        repeat_count: if plan.repeat.is_stress() {
            Some(repeat_index as u64)
        } else {
            None
        },
        profile: plan.testing_profile(config),
        caching,
        logical_timeout: plan.timeout,
        cgroup_granularity: config.cgroup_granularity,
        cgroup_memory_max: memory_max,
        resource_marker_token: token.duplicate(),
        supervisor: supervisor.to_owned(),
    };
    proof {
        assert(nothing@ =~= Seq::<String>::empty());
        assert(is_group_request(
            *plan,
            *config,
            *selection,
            repeat_index,
            caching,
            memory_max,
            supervisor@,
            req,
        ));
    }
    let ghost described = req;
    let prepared = PreparedGroup { request: build_testing_request(req), token };
    proof {
        assert(execution::is_testing_request(described, prepared.request));
        assert(is_prepared(
            *plan,
            *config,
            *selection,
            repeat_index,
            caching_for(
                *plan,
                *config,
                call_number(first_attempt, infra_attempt),
                bypasses_cache(*config, estimates@),
            ),
            memory_max,
            supervisor@,
            prepared,
        ));
    }
    Ok(prepared)
}

// ---------------------------------------------------------------------------
// The answer.

/// Whether a failed group counts as seen to its end.
#[derive(Debug, Clone, Copy, PartialEq, Eq, Structural)]
pub enum GroupFailureDisposition {
    Incomplete,
    CompleteActionTimeout,
}

impl GroupFailureDisposition {
    /// The integrity of the results of such a group.
    pub open spec fn spec_integrity(self) -> ResultIntegrity {
        match self {
            GroupFailureDisposition::Incomplete => ResultIntegrity::MissingTerminalResult,
            GroupFailureDisposition::CompleteActionTimeout => ResultIntegrity::Complete,
        }
    }

    /// The integrity of the results of such a group.
    pub fn integrity(self) -> (r: ResultIntegrity)
        ensures
            r == self.spec_integrity(),
    {
        match self {
            GroupFailureDisposition::Incomplete => ResultIntegrity::MissingTerminalResult,
            GroupFailureDisposition::CompleteActionTimeout => ResultIntegrity::Complete,
        }
    }
}

/// An action that completed, with the per-name observations decoded from its
/// output. A name absent from them has no parsed result.
pub struct ObservedGroup {
    pub observations: NameMap<PerTestObservation>,
    pub raw: ProcessOutcome,
    pub stdout: Vec<u8>,
    pub stderr: Vec<u8>,
    pub action_oom: Option<String>,
    pub execution_time: Duration,
    pub max_memory: Option<u64>,
    pub execution: AttemptExecution,
}

/// A whole action that failed; the status applies to every member of the group and
/// is never a fresh observation for the history.
#[derive(Debug, Clone, PartialEq, Eq)]
pub struct FailedGroup {
    pub status: TestVerdict,
    pub details: String,
    pub execution: AttemptExecution,
    pub duration: AttemptDuration,
    pub disposition: GroupFailureDisposition,
}

/// The result of running one group of tests once.
pub enum GroupOutcome {
    Observed(ObservedGroup),
    Failed(FailedGroup),
}

/// What to do after an answer.
pub enum GroupStep {
    /// Ask again: the executor did not get to the action. So many calls did not.
    Retry { infra_attempt: u32 },
    Done(GroupOutcome),
}

/// A failed group as a mathematical value.
pub struct FailedView {
    pub status: TestVerdict,
    pub details: Seq<char>,
    pub execution: AttemptExecution,
    pub duration: AttemptDuration,
    pub disposition: GroupFailureDisposition,
}

impl View for FailedGroup {
    type V = FailedView;

    open spec fn view(&self) -> FailedView {
        FailedView {
            status: self.status,
            details: self.details@,
            execution: self.execution,
            duration: self.duration,
            disposition: self.disposition,
        }
    }
}

/// What the resource markers in the output of an action come to: a failure of the
/// group, or what they say of its only test and of the action's memory.
pub enum MarkerView {
    Failed { status: TestVerdict, details: Seq<char>, disposition: GroupFailureDisposition },
    Kept { only: Option<ObservationView>, oom: Option<Seq<char>> },
}

/// A marker that makes the group fail for the infrastructure's sake.
pub open spec fn infra_failure(details: Seq<char>) -> MarkerView {
    MarkerView::Failed {
        status: TestVerdict::InfraFailure,
        details,
        disposition: GroupFailureDisposition::Incomplete,
    }
}

/// The complaint about a marker of a single test in the wrong place.
pub open spec fn misplaced(index: nat, details: Seq<char>) -> Seq<char> {
    "impossible logical resource marker index="@ + text::decimal(index) + ": "@ + details
}

/// What one more marker adds. Markers of single tests belong to supervision per
/// test and to the only test of the action; markers of actions belong to
/// supervision per action.
pub open spec fn with_marker(
    kept: MarkerView,
    marker: ResourceFailureView,
    granularity: CgroupGranularity,
    group_size: nat,
) -> MarkerView {
    let per_test = granularity == CgroupGranularity::LogicalTest;
    match kept {
        MarkerView::Failed { .. } => kept,
        MarkerView::Kept { only, oom } => match marker {
            ResourceFailureView::LogicalTimeout { index, details } => if per_test && group_size == 1
                && index == 0 {
                MarkerView::Kept {
                    only: Some(ObservationView { status: TestVerdict::Timeout, details }),
                    oom,
                }
            } else {
                infra_failure(misplaced(index, details))
            },
            ResourceFailureView::LogicalOom { index, details } => if per_test && group_size == 1
                && index == 0 {
                MarkerView::Kept {
                    only: Some(ObservationView { status: TestVerdict::Fail, details }),
                    oom,
                }
            } else {
                infra_failure(misplaced(index, details))
            },
            ResourceFailureView::ActionTimeout { details } => if per_test {
                infra_failure("impossible action resource marker: "@ + details)
            } else {
                MarkerView::Failed {
                    status: TestVerdict::Timeout,
                    details,
                    disposition: GroupFailureDisposition::CompleteActionTimeout,
                }
            },
            ResourceFailureView::ActionOom { details } => if per_test {
                infra_failure("impossible action resource marker: "@ + details)
            } else {
                MarkerView::Kept { only, oom: Some(details) }
            },
            ResourceFailureView::Setup { details } => infra_failure(details),
            ResourceFailureView::Malformed { details } => infra_failure(
                "malformed resource marker: "@ + details,
            ),
        },
    }
}

/// What the first `n` markers come to.
pub open spec fn markers_upto(
    markers: Seq<ResourceFailureView>,
    granularity: CgroupGranularity,
    group_size: nat,
    n: nat,
) -> MarkerView
    decreases n,
{
    if n == 0 {
        MarkerView::Kept { only: None, oom: None }
    } else {
        with_marker(
            markers_upto(markers, granularity, group_size, (n - 1) as nat),
            markers[n - 1],
            granularity,
            group_size,
        )
    }
}

/// What the markers of an action come to.
pub open spec fn markers_of(
    stderr: Seq<u8>,
    token: Seq<char>,
    granularity: CgroupGranularity,
    group_size: nat,
) -> MarkerView {
    let markers = execution::failures_in_text(text::utf8_lossy(stderr), token);
    markers_upto(markers, granularity, group_size, markers.len())
}

enum Markers {
    Failed(TestVerdict, String, GroupFailureDisposition),
    Kept(Option<PerTestObservation>, Option<String>),
}

spec fn is_fold(r: Markers, view: MarkerView) -> bool {
    match r {
        Markers::Failed(status, details, disposition) => view == MarkerView::Failed {
            status,
            details: details@,
            disposition,
        },
        Markers::Kept(only, oom) => view == MarkerView::Kept {
            only: match only {
                Some(o) => Some(o@),
                None => None,
            },
            oom: match oom {
                Some(details) => Some(details@),
                None => None,
            },
        },
    }
}

fn prefixed(prefix: &str, details: &str) -> (r: String)
    ensures
        r@ == prefix@ + details@,
{
    let mut out: String = prefix.to_owned();
    out.push_str(details);
    out
}

fn misplaced_text(index: usize, details: &str) -> (r: String)
    ensures
        r@ == misplaced(index as nat, details@),
{
    let mut out: String = "impossible logical resource marker index=".to_owned();
    out.push_str(decimal_text(index as u64).as_str());
    out.push_str(": ");
    out.push_str(details);
    out
}

fn infra(details: String) -> (r: Markers)
    ensures
        is_fold(r, infra_failure(details@)),
{
    Markers::Failed(
        TestVerdict::InfraFailure,
        details,
        GroupFailureDisposition::Incomplete,
    )
}

fn take_marker(
    only: Option<PerTestObservation>,
    oom: Option<String>,
    marker: &ResourceFailure,
    granularity: CgroupGranularity,
    group_size: usize,
) -> (r: Markers)
    ensures
        forall|kept: MarkerView|
            is_fold(Markers::Kept(only, oom), kept) ==> is_fold(
                r,
                #[trigger] with_marker(kept, marker@, granularity, group_size as nat),
            ),
{
    let per_test: bool = granularity == CgroupGranularity::LogicalTest;
    match marker {
        ResourceFailure::LogicalTimeout { index, details } => {
            if per_test && group_size == 1 && *index == 0 {
                Markers::Kept(
                    Some(
                        PerTestObservation {
                            status: TestVerdict::Timeout,
                            details: details.clone(),
                        },
                    ),
                    oom,
                )
            } else {
                infra(misplaced_text(*index, details.as_str()))
            }
        },
        ResourceFailure::LogicalOom { index, details } => {
            if per_test && group_size == 1 && *index == 0 {
                Markers::Kept(
                    Some(
                        PerTestObservation { status: TestVerdict::Fail, details: details.clone() },
                    ),
                    oom,
                )
            } else {
                infra(misplaced_text(*index, details.as_str()))
            }
        },
        ResourceFailure::ActionTimeout { details } => {
            if per_test {
                infra(prefixed("impossible action resource marker: ", details.as_str()))
            } else {
                Markers::Failed(
                    TestVerdict::Timeout,
                    details.clone(),
                    GroupFailureDisposition::CompleteActionTimeout,
                )
            }
        },
        ResourceFailure::ActionOom { details } => {
            if per_test {
                infra(prefixed("impossible action resource marker: ", details.as_str()))
            } else {
                Markers::Kept(only, Some(details.clone()))
            }
        },
        ResourceFailure::Setup { details } => infra(details.clone()),
        ResourceFailure::Malformed { details } => infra(
            prefixed("malformed resource marker: ", details.as_str()),
        ),
    }
}

proof fn lemma_failure_stays(
    markers: Seq<ResourceFailureView>,
    granularity: CgroupGranularity,
    group_size: nat,
    k: nat,
    n: nat,
)
    requires
        k <= n,
        markers_upto(markers, granularity, group_size, k) is Failed,
    ensures
        markers_upto(markers, granularity, group_size, n) == markers_upto(
            markers,
            granularity,
            group_size,
            k,
        ),
    decreases n,
{
    if k < n {
        lemma_failure_stays(markers, granularity, group_size, k, (n - 1) as nat);
    }
}

fn fold_markers(markers: &Vec<ResourceFailure>, granularity: CgroupGranularity, group_size: usize) -> (r:
    Markers)
    ensures
        is_fold(
            r,
            markers_upto(
                execution::failure_views(markers@),
                granularity,
                group_size as nat,
                markers@.len(),
            ),
        ),
{
    let ghost all = execution::failure_views(markers@);
    let mut only: Option<PerTestObservation> = None;
    let mut oom: Option<String> = None;
    let mut i: usize = 0;
    while i < markers.len()
        invariant
            i <= markers.len(),
            all == execution::failure_views(markers@),
            is_fold(
                Markers::Kept(only, oom),
                markers_upto(all, granularity, group_size as nat, i as nat),
            ),
        decreases markers.len() - i,
    {
        let ghost kept = markers_upto(all, granularity, group_size as nat, i as nat);
        proof {
            assert(all[i as int] == markers@[i as int]@);
            assert(markers_upto(all, granularity, group_size as nat, (i + 1) as nat)
                == with_marker(kept, markers@[i as int]@, granularity, group_size as nat));
        }
        match take_marker(only, oom, &markers[i], granularity, group_size) {
            Markers::Failed(status, details, disposition) => {
                proof {
                    lemma_failure_stays(
                        all,
                        granularity,
                        group_size as nat,
                        (i + 1) as nat,
                        all.len(),
                    );
                }
                return Markers::Failed(status, details, disposition);
            },
            Markers::Kept(more_only, more_oom) => {
                only = more_only;
                oom = more_oom;
            },
        }
        i += 1;
    }
    Markers::Kept(only, oom)
}

/// The failure of a group whose action did not run to its end.
pub open spec fn unmeasured_failure(status: TestVerdict, details: Seq<char>) -> FailedView {
    FailedView {
        status,
        details,
        execution: AttemptExecution::Unknown,
        duration: AttemptDuration::Unmeasured,
        disposition: GroupFailureDisposition::Incomplete,
    }
}

/// The failure of a group before its action is asked for.
pub fn refused_group(details: String) -> (r: GroupOutcome)
    ensures
        r matches GroupOutcome::Failed(f) && f@ == unmeasured_failure(
            TestVerdict::Fatal,
            details@,
        ),
{
    unmeasured(TestVerdict::Fatal, details)
}

fn unmeasured(status: TestVerdict, details: String) -> (r: GroupOutcome)
    ensures
        r matches GroupOutcome::Failed(f) && f@ == unmeasured_failure(status, details@),
{
    GroupOutcome::Failed(
        FailedGroup {
            status,
            details,
            execution: AttemptExecution::Unknown,
            duration: AttemptDuration::Unmeasured,
            disposition: GroupFailureDisposition::Incomplete,
        },
    )
}

/// Whether an outcome is the one of a completed action.
pub open spec fn is_completed(
    plan: TargetPlan,
    granularity: CgroupGranularity,
    names: Seq<String>,
    token: Seq<char>,
    action: CompletedAction,
    outcome: GroupOutcome,
) -> bool {
    let execution = AttemptExecution::of_kind(action.exec_kind);
    match markers_of(action.stderr@, token, granularity, names.len()) {
        MarkerView::Failed { status, details, disposition } => outcome matches GroupOutcome::Failed(
            f,
        ) && f@ == (FailedView {
            status,
            details,
            execution,
            duration: AttemptDuration::Measured(action.execution_time),
            disposition,
        }),
        MarkerView::Kept { only, oom } => {
            let decoded = plan.translator.outcomes(action.stdout@, action.stderr@);
            &&& outcome matches GroupOutcome::Observed(o)
            &&& translator::observation_views(o.observations@) == (match only {
                Some(observation) => decoded.insert(names[0]@, observation),
                None => decoded,
            })
            &&& o.raw == action.status
            &&& o.stdout == action.stdout
            &&& o.stderr == action.stderr
            &&& o.action_oom is Some <==> oom is Some
            &&& o.action_oom matches Some(details) ==> oom == Some(details@)
            &&& o.execution_time == action.execution_time
            &&& o.max_memory == action.max_memory_used_bytes
            &&& o.execution == execution
        },
    }
}

/// What a completed action means for its group.
pub fn settle_completed(
    plan: &TargetPlan,
    granularity: CgroupGranularity,
    names: &[String],
    token: &ResourceMarkerToken,
    action: CompletedAction,
) -> (r: GroupOutcome)
    ensures
        is_completed(*plan, granularity, names@, token.0@, action, r),
{
    let execution: AttemptExecution = AttemptExecution::from_exec_kind(action.exec_kind);
    let mut observations: NameMap<PerTestObservation> = plan.translator.parse_results(
        action.stdout.as_slice(),
        action.stderr.as_slice(),
    );
    let markers: Vec<ResourceFailure> = parse_resource_failures(action.stderr.as_slice(), token);
    proof {
        assert(execution::failure_views(markers@).len() == markers@.len());
    }
    match fold_markers(&markers, granularity, names.len()) {
        Markers::Failed(status, details, disposition) => GroupOutcome::Failed(
            FailedGroup {
                status,
                details,
                execution,
                duration: AttemptDuration::Measured(action.execution_time),
                disposition,
            },
        ),
        Markers::Kept(only, oom) => {
            if let Some(observation) = only {
                proof {
                    lemma_only_marker(
                        execution::failure_views(markers@),
                        granularity,
                        names@.len(),
                        markers@.len(),
                    );
                    assert(translator::observation_views(
                        observations@.insert(names@[0]@, observation),
                    ) =~= translator::observation_views(observations@).insert(
                        names@[0]@,
                        observation@,
                    ));
                }
                observations.insert(names[0].as_str(), observation);
            }
            GroupOutcome::Observed(
                ObservedGroup {
                    observations,
                    raw: action.status,
                    stdout: action.stdout,
                    stderr: action.stderr,
                    action_oom: oom,
                    execution_time: action.execution_time,
                    max_memory: action.max_memory_used_bytes,
                    execution,
                },
            )
        },
    }
}

/// A marker of a single test is only kept for a group of one.
proof fn lemma_only_marker(
    markers: Seq<ResourceFailureView>,
    granularity: CgroupGranularity,
    group_size: nat,
    n: nat,
)
    ensures
        markers_upto(markers, granularity, group_size, n) matches MarkerView::Kept { only, oom }
            ==> (only is Some ==> group_size == 1),
    decreases n,
{
    if n > 0 {
        lemma_only_marker(markers, granularity, group_size, (n - 1) as nat);
    }
}

/// Whether a step follows an answer: a queue timeout is tried again while the
/// budget lasts, a cancellation is no result, and a failed call is fatal.
pub open spec fn is_settled(
    plan: TargetPlan,
    granularity: CgroupGranularity,
    names: Seq<String>,
    token: Seq<char>,
    infra_attempt: u32,
    answer: Result<Execute2Outcome, String>,
    step: GroupStep,
) -> bool {
    match answer {
        Ok(Execute2Outcome::Completed(action)) => step matches GroupStep::Done(outcome)
            && is_completed(plan, granularity, names, token, action, outcome),
        Ok(Execute2Outcome::CancelledQueueTimeout) => if infra_attempt + 1 < INFRA_MAX_ATTEMPTS {
            step == (GroupStep::Retry { infra_attempt: (infra_attempt + 1) as u32 })
        } else {
            step matches GroupStep::Done(GroupOutcome::Failed(f)) && f@ == unmeasured_failure(
                TestVerdict::InfraFailure,
                "RE queue timeout (retries exhausted)"@,
            )
        },
        Ok(Execute2Outcome::CancelledUnspecified) => step matches GroupStep::Done(
            GroupOutcome::Failed(f),
        ) && f@ == unmeasured_failure(TestVerdict::Omitted, "run cancelled"@),
        Err(error) => step matches GroupStep::Done(GroupOutcome::Failed(f)) && f@
            == unmeasured_failure(TestVerdict::Fatal, "Execute2 RPC failed: "@ + error@),
    }
}

/// What an answer to the action of a group means. The error of a call that failed
/// comes as its text.
pub fn settle_group(
    plan: &TargetPlan,
    granularity: CgroupGranularity,
    names: &[String],
    token: &ResourceMarkerToken,
    infra_attempt: u32,
    answer: Result<Execute2Outcome, String>,
) -> (r: GroupStep)
    ensures
        is_settled(*plan, granularity, names@, token.0@, infra_attempt, answer, r),
{
    match answer {
        Ok(Execute2Outcome::Completed(action)) => GroupStep::Done(
            settle_completed(plan, granularity, names, token, action),
        ),
        Ok(Execute2Outcome::CancelledQueueTimeout) => {
            if infra_attempt < INFRA_MAX_ATTEMPTS - 1 {
                GroupStep::Retry { infra_attempt: infra_attempt + 1 }
            } else {
                GroupStep::Done(
                    unmeasured(
                        TestVerdict::InfraFailure,
                        "RE queue timeout (retries exhausted)".to_owned(),
                    ),
                )
            }
        },
        Ok(Execute2Outcome::CancelledUnspecified) => GroupStep::Done(
            unmeasured(TestVerdict::Omitted, "run cancelled".to_owned()),
        ),
        Err(error) => GroupStep::Done(
            unmeasured(TestVerdict::Fatal, prefixed("Execute2 RPC failed: ", error.as_str())),
        ),
    }
}

/// A group that fails by a marker fails all of its tests, and counts as seen to its
/// end only when the action itself ran out of time.
pub proof fn law_only_action_timeouts_are_complete(
    markers: Seq<ResourceFailureView>,
    granularity: CgroupGranularity,
    group_size: nat,
    n: nat,
)
    ensures
        markers_upto(markers, granularity, group_size, n) matches MarkerView::Failed {
            status,
            details,
            disposition,
        } ==> status.spec_is_failure() && (disposition
            == GroupFailureDisposition::CompleteActionTimeout <==> status == TestVerdict::Timeout),
    decreases n,
{
    if n > 0 {
        law_only_action_timeouts_are_complete(markers, granularity, group_size, (n - 1) as nat);
    }
}

} // verus!

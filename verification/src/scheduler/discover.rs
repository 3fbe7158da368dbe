//! The tests of a target: what is asked to list them, what the answer means, and
//! which of them this run takes on.

use vstd::prelude::*;
use vstd::utf8::*;

use crate::batching::TestSelection;
use crate::cli::RunnerConfig;
use crate::environment::SchedulingProfile;
use crate::execution::{
    self, build_listing_request, parse_resource_failures, CgroupGranularity, ResourceFailure,
    ResourceFailureView, ResourceMarkerToken,
};
use crate::listing::{self, TestCase, TestCaseKind};
use crate::proto::ExecuteRequest2;
use crate::result::{
    identity_of, CompletedAction, Execute2Outcome, ProcessOutcome, TestIdentity, TestVerdict,
};
use crate::scheduler::action::{self, ActionState};
use crate::scheduler::batches::{self, names_of, shard_filter};
use crate::scheduler::group::{self, action_token};
use crate::scheduler::observe::INFRA_MAX_ATTEMPTS;
use crate::scheduler::plan::{self, validate_cgroup_memory_overrides, TargetPlan};
use crate::text::{self, copy_strings, lossy_text, signed_text};
use crate::translator::{
    self, libtest_list_output, libtest_listing_args, parse_listing, ListFormat, ListingStrategy,
    Translator,
};

verus! {

// ---------------------------------------------------------------------------
// Asking.

/// The one test of a target that is run as a whole; `None` for a target whose tests
/// are listed.
pub fn whole_unit_tests(plan: &TargetPlan) -> (r: Option<Vec<TestCase>>)
    ensures
        match plan.translator.strategy() {
            ListingStrategy::PerTestListing { .. } => r is None,
            ListingStrategy::WholeTarget { name } => r matches Some(tests) && is_whole_unit(
                name@,
                tests@,
            ),
            ListingStrategy::WholeBinary { name } => r matches Some(tests) && is_whole_unit(
                name@,
                tests@,
            ),
        },
{
    match plan.translator.listing_strategy() {
        ListingStrategy::PerTestListing { .. } => None,
        ListingStrategy::WholeTarget { name } => Some(whole_unit(name)),
        ListingStrategy::WholeBinary { name } => Some(whole_unit(name)),
    }
}

/// Whether tests are the one that stands for a whole target.
pub open spec fn is_whole_unit(name: Seq<char>, tests: Seq<TestCase>) -> bool {
    &&& tests.len() == 1
    &&& tests[0].name@ == name
    &&& tests[0].kind == TestCaseKind::Test
    &&& !tests[0].ignored
    &&& tests[0].metadata.ignore_message is None
    &&& tests[0].metadata.location is None
}

fn whole_unit(name: &str) -> (r: Vec<TestCase>)
    ensures
        is_whole_unit(name@, r@),
{
    let mut tests: Vec<TestCase> = Vec::new();
    tests.push(TestCase::new(name.to_owned(), TestCaseKind::Test, false));
    tests
}

/// A prepared listing: the request and the token that marks its output.
#[derive(Debug)]
pub struct PreparedListing {
    pub request: ExecuteRequest2,
    pub token: ResourceMarkerToken,
}

/// The arguments of a listing.
pub open spec fn list_args(plan: TargetPlan, config: RunnerConfig, format: ListFormat) -> Seq<
    Seq<char>,
> {
    translator::listing_args(
        plan.ignored,
        format,
        translator::user_args(text::views(plan.spec_user_args(config))),
    )
}

/// Whether a profile is the one of listings.
pub open spec fn is_listing_profile(
    plan: TargetPlan,
    config: RunnerConfig,
    profile: SchedulingProfile,
) -> bool {
    &&& profile.hardware == plan::listing_needs(
        plan.translator.overrides_executors(),
        config.local_debug,
    )
    &&& profile.exclusivity is Shared
    &&& profile.local_resources@ == Set::<Seq<char>>::empty()
}

/// Whether a request lists the tests of a target, with the arguments and where the
/// plan says.
pub open spec fn is_prepared_listing(
    plan: TargetPlan,
    config: RunnerConfig,
    format: ListFormat,
    supervisor: Seq<char>,
    prepared: PreparedListing,
) -> bool {
    &&& prepared.token.0@ == group::token_text(
        "listing"@,
        group::stable_fields(plan.spec.display@, list_args(plan, config, format)),
    )
    &&& exists|profile: SchedulingProfile, args: Seq<String>|
        is_listing_profile(plan, config, profile) && text::views(args) == list_args(
            plan,
            config,
            format,
        ) && #[trigger] execution::is_listing_request(
            plan.spec,
            args,
            profile,
            config.listing_timeout,
            config.cgroup_granularity,
            config.cgroup_memory_max,
            prepared.token,
            config.extra_env@,
            supervisor,
            prepared.request,
        )
}

/// The request that lists the tests of a target. `supervisor` is the text of the
/// script that supervises commands.
pub fn prepare_listing(
    plan: &TargetPlan,
    config: &RunnerConfig,
    format: ListFormat,
    supervisor: &str,
) -> (r: PreparedListing)
    ensures
        is_prepared_listing(*plan, *config, format, supervisor@, r),
{
    let user: Vec<String> = plan.user_args(config);
    let args: Vec<String> = libtest_listing_args(plan.ignored, format, user.as_slice());
    let token: ResourceMarkerToken = action_token(
        "listing",
        plan.spec.display.as_str(),
        args.as_slice(),
    );
    let profile: SchedulingProfile = plan.listing_profile(config);
    let request: ExecuteRequest2 = build_listing_request(
        &plan.spec,
        args.as_slice(),
        &profile,
        config.listing_timeout,
        config.cgroup_granularity,
        config.cgroup_memory_max,
        &token,
        config.extra_env.as_slice(),
        supervisor,
    );
    let prepared = PreparedListing { request, token };
    proof {
        assert(text::views(args@) == list_args(*plan, *config, format));
        assert(is_listing_profile(*plan, *config, profile));
        assert(execution::is_listing_request(
            plan.spec,
            args@,
            profile,
            config.listing_timeout,
            config.cgroup_granularity,
            config.cgroup_memory_max,
            prepared.token,
            config.extra_env@,
            supervisor@,
            prepared.request,
        ));
    }
    prepared
}

// ---------------------------------------------------------------------------
// The answer.

/// What to do after an answer to a listing.
#[derive(Debug)]
pub enum ListingStep {
    /// Ask again: the executor did not get to the action. So many calls did not.
    Retry { infra_attempt: u32 },
    Listed(Vec<TestCase>),
    /// The target fails as a whole.
    Failed { status: TestVerdict, details: String },
}

/// Whether a step fails the target with a status and details.
pub open spec fn fails(step: ListingStep, status: TestVerdict, details: Seq<char>) -> bool {
    step matches ListingStep::Failed { status: s, details: d } && s == status && d@ == details
}

/// What a resource marker in the output of a listing means. A listing is one
/// command, so a marker of another one is impossible.
pub open spec fn marker_failure(marker: ResourceFailureView, granularity: CgroupGranularity) -> (
    TestVerdict,
    Seq<char>,
) {
    let per_test = granularity == CgroupGranularity::LogicalTest;
    let impossible = |details: Seq<char>|
        (TestVerdict::InfraFailure, "impossible resource marker: "@ + details);
    match marker {
        ResourceFailureView::LogicalTimeout { index, details } => if per_test && index == 0 {
            (TestVerdict::Timeout, details)
        } else {
            impossible(details)
        },
        ResourceFailureView::LogicalOom { index, details } => if per_test && index == 0 {
            (TestVerdict::Fail, details)
        } else {
            impossible(details)
        },
        ResourceFailureView::ActionOom { details } => if granularity == CgroupGranularity::Action {
            (TestVerdict::Fail, details)
        } else {
            impossible(details)
        },
        ResourceFailureView::ActionTimeout { details } => if granularity
            == CgroupGranularity::Action {
            (TestVerdict::Timeout, details)
        } else {
            impossible(details)
        },
        ResourceFailureView::Setup { details } => (TestVerdict::InfraFailure, details),
        ResourceFailureView::Malformed { details } => (
            TestVerdict::InfraFailure,
            "malformed resource marker: "@ + details,
        ),
    }
}

fn failed(status: TestVerdict, lead: &str, details: &str) -> (r: ListingStep)
    ensures
        fails(r, status, lead@ + details@),
{
    let mut text: String = lead.to_owned();
    text.push_str(details);
    ListingStep::Failed { status, details: text }
}

fn failed_plainly(status: TestVerdict, details: &str) -> (r: ListingStep)
    ensures
        fails(r, status, details@),
{
    ListingStep::Failed { status, details: details.to_owned() }
}

fn fail_by_marker(marker: &ResourceFailure, granularity: CgroupGranularity) -> (r: ListingStep)
    ensures
        fails(
            r,
            marker_failure(marker@, granularity).0,
            marker_failure(marker@, granularity).1,
        ),
{
    let per_test: bool = granularity == CgroupGranularity::LogicalTest;
    match marker {
        ResourceFailure::LogicalTimeout { index, details } => {
            if per_test && *index == 0 {
                failed_plainly(TestVerdict::Timeout, details.as_str())
            } else {
                failed(TestVerdict::InfraFailure, "impossible resource marker: ", details.as_str())
            }
        },
        ResourceFailure::LogicalOom { index, details } => {
            if per_test && *index == 0 {
                failed_plainly(TestVerdict::Fail, details.as_str())
            } else {
                failed(TestVerdict::InfraFailure, "impossible resource marker: ", details.as_str())
            }
        },
        ResourceFailure::ActionOom { details } => {
            if granularity == CgroupGranularity::Action {
                failed_plainly(TestVerdict::Fail, details.as_str())
            } else {
                failed(TestVerdict::InfraFailure, "impossible resource marker: ", details.as_str())
            }
        },
        ResourceFailure::ActionTimeout { details } => {
            if granularity == CgroupGranularity::Action {
                failed_plainly(TestVerdict::Timeout, details.as_str())
            } else {
                failed(TestVerdict::InfraFailure, "impossible resource marker: ", details.as_str())
            }
        },
        ResourceFailure::Setup { details } => failed_plainly(
            TestVerdict::InfraFailure,
            details.as_str(),
        ),
        ResourceFailure::Malformed { details } => failed(
            TestVerdict::InfraFailure,
            "malformed resource marker: ",
            details.as_str(),
        ),
    }
}

/// Whether a step follows a completed listing: the first resource marker fails the
/// target, and so does an exit code that is not zero or an output that is no text.
pub open spec fn is_listed(
    plan: TargetPlan,
    granularity: CgroupGranularity,
    format: ListFormat,
    token: Seq<char>,
    action: CompletedAction,
    step: ListingStep,
) -> bool {
    let markers = execution::failures_in_text(text::utf8_lossy(action.stderr@), token);
    if markers.len() > 0 {
        fails(
            step,
            marker_failure(markers[0], granularity).0,
            marker_failure(markers[0], granularity).1,
        )
    } else {
        match action.status {
            ProcessOutcome::Finished { exit_code } => if exit_code != 0 {
                fails(
                    step,
                    TestVerdict::Fatal,
                    "listing exited "@ + (text::signed_decimal(exit_code as int) + "\n"@
                        + text::utf8_lossy(action.stderr@)),
                )
            } else if !valid_utf8(action.stdout@) {
                fails(
                    step,
                    TestVerdict::Fatal,
                    "listing parse failed: "@ + "listing output was not valid UTF-8"@,
                )
            } else {
                step matches ListingStep::Listed(tests) && listing::case_views(tests@)
                    == translator::cases_of(format, decode_utf8(action.stdout@), plan.ignored)
            },
            ProcessOutcome::TimedOut { .. } => fails(
                step,
                TestVerdict::Timeout,
                "listing timed out"@,
            ),
        }
    }
}

/// What a completed listing means.
pub fn settle_listed(
    plan: &TargetPlan,
    granularity: CgroupGranularity,
    format: ListFormat,
    token: &ResourceMarkerToken,
    action: CompletedAction,
) -> (r: ListingStep)
    ensures
        is_listed(*plan, granularity, format, token.0@, action, r),
{
    let markers: Vec<ResourceFailure> = parse_resource_failures(action.stderr.as_slice(), token);
    proof {
        assert(execution::failure_views(markers@).len() == markers@.len());
        if markers@.len() > 0 {
            assert(execution::failure_views(markers@)[0] == markers@[0]@);
        }
    }
    if markers.len() > 0 {
        return fail_by_marker(&markers[0], granularity);
    }
    match action.status {
        ProcessOutcome::Finished { exit_code } => {
            if exit_code != 0 {
                let mut tail: String = signed_text(exit_code as i64);
                tail.push_str("\n");
                tail.push_str(lossy_text(action.stderr.as_slice()).as_str());
                return failed(TestVerdict::Fatal, "listing exited ", tail.as_str());
            }
            match parse_listing(format, action.stdout.as_slice(), plan.ignored) {
                Ok(tests) => ListingStep::Listed(tests),
                Err(error) => failed(
                    TestVerdict::Fatal,
                    "listing parse failed: ",
                    error.message().as_str(),
                ),
            }
        },
        ProcessOutcome::TimedOut { .. } => failed_plainly(
            TestVerdict::Timeout,
            "listing timed out",
        ),
    }
}

/// Whether a step follows an answer: a queue timeout is tried again while the
/// budget lasts; every other way not to list the tests fails the target.
pub open spec fn is_settled_listing(
    plan: TargetPlan,
    granularity: CgroupGranularity,
    format: ListFormat,
    token: Seq<char>,
    infra_attempt: u32,
    answer: Result<Execute2Outcome, String>,
    step: ListingStep,
) -> bool {
    match answer {
        Ok(Execute2Outcome::Completed(action)) => is_listed(
            plan,
            granularity,
            format,
            token,
            action,
            step,
        ),
        Ok(Execute2Outcome::CancelledQueueTimeout) => if infra_attempt + 1 < INFRA_MAX_ATTEMPTS {
            step == (ListingStep::Retry { infra_attempt: (infra_attempt + 1) as u32 })
        } else {
            fails(
                step,
                TestVerdict::InfraFailure,
                "listing RE queue timeout (retries exhausted)"@,
            )
        },
        Ok(Execute2Outcome::CancelledUnspecified) => fails(
            step,
            TestVerdict::Omitted,
            "listing cancelled"@,
        ),
        Err(error) => fails(step, TestVerdict::Fatal, "listing RPC failed: "@ + error@),
    }
}

/// What an answer to a listing means. The error of a call that failed comes as its
/// text.
pub fn settle_listing(
    plan: &TargetPlan,
    granularity: CgroupGranularity,
    format: ListFormat,
    token: &ResourceMarkerToken,
    infra_attempt: u32,
    answer: Result<Execute2Outcome, String>,
) -> (r: ListingStep)
    ensures
        is_settled_listing(*plan, granularity, format, token.0@, infra_attempt, answer, r),
{
    match answer {
        Ok(Execute2Outcome::Completed(action)) => settle_listed(
            plan,
            granularity,
            format,
            token,
            action,
        ),
        Ok(Execute2Outcome::CancelledQueueTimeout) => {
            if infra_attempt < INFRA_MAX_ATTEMPTS - 1 {
                ListingStep::Retry { infra_attempt: infra_attempt + 1 }
            } else {
                failed_plainly(
                    TestVerdict::InfraFailure,
                    "listing RE queue timeout (retries exhausted)",
                )
            }
        },
        Ok(Execute2Outcome::CancelledUnspecified) => failed_plainly(
            TestVerdict::Omitted,
            "listing cancelled",
        ),
        Err(error) => failed(TestVerdict::Fatal, "listing RPC failed: ", error.as_str()),
    }
}

// ---------------------------------------------------------------------------
// The tests of this run.

/// The tests that this run takes on. Memory overrides have to name tests of their
/// target; then only the tests of this shard are kept.
pub fn select_tests(plan: &TargetPlan, config: &RunnerConfig, tests: &[TestCase]) -> (r: Result<
    Vec<TestCase>,
    String,
>)
    ensures
        r is Ok <==> plan::override_error(
            plan.spec,
            config.cgroup_memory_max_overrides@,
            tests@,
        ) is None,
        r matches Err(error) ==> plan::override_error(
            plan.spec,
            config.cgroup_memory_max_overrides@,
            tests@,
        ) == Some(error@),
        r matches Ok(kept) ==> kept@ == batches::owned(
            config.shard,
            plan.spec.display@,
            tests@,
            tests@.len(),
        ),
{
    match validate_cgroup_memory_overrides(plan, config, tests) {
        Ok(()) => Ok(shard_filter(plan.spec.display.as_str(), tests, config)),
        Err(error) => Err(error),
    }
}

/// What identifies the tests of a target in the history.
pub fn discovered_ids(plan: &TargetPlan, config: &RunnerConfig, tests: &[TestCase]) -> (r: Vec<
    TestIdentity,
>)
    ensures
        r@.len() == tests@.len(),
        forall|i: int|
            0 <= i < r@.len() ==> #[trigger] r@[i] == (TestIdentity {
                target: plan.spec.display,
                name: tests@[i].name,
                variant: config.variant,
            }),
{
    let mut out: Vec<TestIdentity> = Vec::new();
    let mut i: usize = 0;
    while i < tests.len()
        invariant
            i <= tests.len(),
            out@.len() == i,
            forall|k: int|
                0 <= k < i ==> #[trigger] out@[k] == (TestIdentity {
                    target: plan.spec.display,
                    name: tests@[k].name,
                    variant: config.variant,
                }),
        decreases tests.len() - i,
    {
        out.push(identity_of(&plan.spec.display, &tests[i].name, &config.variant));
        i += 1;
    }
    out
}

/// The names that a selection among tests stands for.
pub open spec fn members(selection: TestSelection<String>, tests: Seq<TestCase>) -> Seq<String> {
    match selection {
        TestSelection::All => Seq::new(tests.len(), |i: int| tests[i].name),
        TestSelection::Explicit(names) => names@,
    }
}

/// The names that a selection among tests stands for.
pub fn expected_members(selection: &TestSelection<String>, tests: &[TestCase]) -> (r: Vec<String>)
    ensures
        r@ == members(*selection, tests@),
{
    match selection {
        TestSelection::All => {
            let names: Vec<String> = names_of(tests);
            proof {
                assert(names@ =~= members(*selection, tests@));
            }
            names
        },
        TestSelection::Explicit(names) => copy_strings(names.as_slice()),
    }
}

/// What a run that only lists tests prints for a target; `None` when tests run.
pub fn list_only_output(config: &RunnerConfig, tests: &[TestCase]) -> (r: Option<String>)
    ensures
        r is Some <==> config.libtest_list_only,
        r matches Some(output) ==> output@ == translator::list_output(
            translator::user_args(text::views(config.spec_effective_libtest_args())),
            listing::case_views(tests@),
        ),
{
    if config.libtest_list_only {
        let user: Vec<String> = config.effective_libtest_args();
        Some(libtest_list_output(user.as_slice(), tests))
    } else {
        None
    }
}

/// What follows the listing of a target.
#[derive(Debug)]
pub enum TargetStep {
    /// The target fails as a whole.
    Refused(String),
    /// No test of the target belongs to this run.
    NothingToRun,
    /// The tests are only shown.
    Shown { kept: Vec<TestCase>, text: String },
    /// The tests run.
    Kept(Vec<TestCase>),
}

/// Whether a step is the one that follows a listing: overrides that do not fit go
/// before everything, and a target without tests in this shard is not shown.
pub open spec fn is_next_step(
    plan: TargetPlan,
    config: RunnerConfig,
    tests: Seq<TestCase>,
    step: TargetStep,
) -> bool {
    let kept = batches::owned(config.shard, plan.spec.display@, tests, tests.len());
    match plan::override_error(plan.spec, config.cgroup_memory_max_overrides@, tests) {
        Some(error) => step matches TargetStep::Refused(e) && e@ == error,
        None => if kept.len() == 0 {
            step is NothingToRun
        } else if config.libtest_list_only {
            step matches TargetStep::Shown { kept: k, text } && k@ == kept && text@
                == translator::list_output(
                translator::user_args(text::views(config.spec_effective_libtest_args())),
                listing::case_views(kept),
            )
        } else {
            step matches TargetStep::Kept(k) && k@ == kept
        },
    }
}

/// What follows the listing of a target.
pub fn after_listing(plan: &TargetPlan, config: &RunnerConfig, tests: &[TestCase]) -> (r: TargetStep)
    ensures
        is_next_step(*plan, *config, tests@, r),
{
    match select_tests(plan, config, tests) {
        Ok(kept) => {
            if kept.len() == 0 {
                return TargetStep::NothingToRun;
            }
            match list_only_output(config, kept.as_slice()) {
                Some(text) => TargetStep::Shown { kept, text },
                None => TargetStep::Kept(kept),
            }
        },
        Err(error) => TargetStep::Refused(error),
    }
}

// ---------------------------------------------------------------------------
// The actions of a target.

/// An action that is to run, and which repetition of its batch it is.
pub struct PlannedAction {
    pub repeat_index: u32,
    pub state: ActionState,
}

/// Whether an action that has not run answers for these tests.
pub open spec fn is_fresh_action(
    state: ActionState,
    selection: TestSelection<String>,
    names: Seq<String>,
) -> bool {
    &&& match selection {
        TestSelection::All => state.selection is All,
        TestSelection::Explicit(selected) => state.selection matches TestSelection::Explicit(chosen)
            && chosen@ == selected@,
    }
    &&& state.expected@ == names
    &&& state.pending@ == names
    &&& state.record@ == action::no_record()
    &&& state.failure_attempt == 0
    &&& state.action_timeouts == 0
    &&& state.execution_attempt == 0
    &&& state.first_attempt_index == 0
}

/// Whether an action is the one at position `i`: every batch in turn, as often as
/// its target is repeated.
pub open spec fn is_planned_at(
    batches: Seq<TestSelection<String>>,
    kept: Seq<TestCase>,
    repeats: nat,
    i: int,
    planned: PlannedAction,
) -> bool {
    let batch = batches[i / (repeats as int)];
    &&& planned.repeat_index == i % (repeats as int)
    &&& is_fresh_action(planned.state, batch, members(batch, kept))
}

/// The actions of a target.
pub fn planned_actions(
    batches: &[TestSelection<String>],
    kept: &[TestCase],
    repeats: u32,
) -> (r: Vec<PlannedAction>)
    requires
        repeats > 0,
    ensures
        r@.len() == batches@.len() * repeats,
        forall|i: int|
            0 <= i < r@.len() ==> is_planned_at(
                batches@,
                kept@,
                repeats as nat,
                i,
                #[trigger] r@[i],
            ),
{
    let mut out: Vec<PlannedAction> = Vec::new();
    let mut b: usize = 0;
    proof {
        assert(0 * (repeats as int) == 0) by (nonlinear_arith);
    }
    while b < batches.len()
        invariant
            b <= batches.len(),
            repeats > 0,
            out@.len() == b * repeats,
            forall|i: int|
                0 <= i < out@.len() ==> is_planned_at(
                    batches@,
                    kept@,
                    repeats as nat,
                    i,
                    #[trigger] out@[i],
                ),
        decreases batches.len() - b,
    {
        let mut k: u32 = 0;
        while k < repeats
            invariant
                k <= repeats,
                b < batches.len(),
                repeats > 0,
                out@.len() == b * repeats + k,
                forall|i: int|
                    0 <= i < out@.len() ==> is_planned_at(
                        batches@,
                        kept@,
                        repeats as nat,
                        i,
                        #[trigger] out@[i],
                    ),
            decreases repeats - k,
        {
            let selection: TestSelection<String> = match &batches[b] {
                TestSelection::All => TestSelection::All,
                TestSelection::Explicit(names) => TestSelection::Explicit(
                    copy_strings(names.as_slice()),
                ),
            };
            let names: Vec<String> = expected_members(&batches[b], kept);
            proof {
                vstd::arithmetic::div_mod::lemma_fundamental_div_mod_converse(
                    b * repeats + k,
                    repeats as int,
                    b as int,
                    k as int,
                );
            }
            out.push(PlannedAction { repeat_index: k, state: ActionState::new(selection, names) });
            k += 1;
        }
        proof {
            assert((b + 1) * (repeats as int) == b * repeats + repeats) by (nonlinear_arith);
        }
        b += 1;
    }
    out
}

} // verus!

//! What is asked of the build tool for a group of tests, and what its answer means.

use vstd::prelude::*;

use crate::batching::TestSelection;
use crate::caching::{CacheClass, TestExecutionCaching};
use crate::cli::RunnerConfig;
use crate::duration_db::DurationEstimate;
use crate::execution::{
    self, build_env, build_supervised_cmd, build_test_env, build_testing_request,
    cgroup_memory_max_for_action, parse_resource_failures, parse_resource_text, shell_quote,
    supervised_action_timeout, CgroupGranularity, CgroupMemoryMax, CgroupMemoryMaxOverride,
    LogicalCommand, QuoteState, ResourceFailure, ResourceMarkerToken, TestingRequest,
};
use crate::proto::{
    ArgContent, ArgValue, EnvironmentVariable, ExecuteRequest2, HostSharing, SpecValue, StageItem,
};
use crate::result::{CompletedAction, Execute2Outcome, TestVerdict};
use crate::scheduler::group::{
    self, group_attempt, prepare_group, refused_group, settle_completed, settle_group,
    stage_testcases, unseen_bypasses_cache, GroupFailureDisposition, GroupOutcome, GroupStep,
    PreparedGroup,
};
use crate::scheduler::observe::{AttemptDuration, ResultIntegrity};
use crate::scheduler::plan::TargetPlan;
use crate::spec::{CommandArg, TargetSpec};
use crate::text;
use crate::time::Duration;

verus! {

// ---------------------------------------------------------------------------
// Caching.

/// An action may be served from the cache exactly where its target is cacheable, its
/// variant the default one, its run no stress run and its attempt the first.
pub proof fn law_only_plain_first_attempts_are_cached(
    base: CacheClass,
    is_default_variant: bool,
    is_stress: bool,
    attempt: u32,
    r: TestExecutionCaching,
    disabled: bool,
)
    requires
        call_ensures(
            TestExecutionCaching::resolve,
            (base, is_default_variant, is_stress, attempt),
            r,
        ),
        call_ensures(TestExecutionCaching::disable_flag, (r,), disabled),
    ensures
        !disabled <==> base is Cacheable && is_default_variant && !is_stress && attempt == 0,
{
}

/// A group with a test that was never seen stays away from the cache where a history is
/// kept: only a run of its own can tell how long the test takes.
pub proof fn law_unseen_tests_run_where_a_history_is_kept(
    config: &RunnerConfig,
    estimates: &[DurationEstimate],
    r: bool,
)
    requires
        call_ensures(unseen_bypasses_cache, (config, estimates), r),
    ensures
        r <==> config.duration_db is Persistent && exists|i: int|
            0 <= i < estimates@.len() && (#[trigger] estimates@[i]) is Unseen,
{
}

/// The calls for a test are counted over the groups and within each.
pub proof fn law_calls_are_counted(first: u32, infra: u32, r: u32)
    requires
        call_ensures(group_attempt, (first, infra), r),
    ensures
        first + infra <= u32::MAX ==> r == first + infra,
        first + infra > u32::MAX ==> r == u32::MAX,
{
}

/// The stage of a test action.
pub open spec fn testing_stage(request: ExecuteRequest2) -> Option<crate::proto::Testing> {
    match request.test_executable {
        Some(executable) => match executable.stage {
            Some(stage) => match stage.item {
                Some(StageItem::Testing(testing)) => Some(testing),
                _ => None,
            },
            None => None,
        },
        None => None,
    }
}

/// What is asked for a group. It may come from the cache only as the first call for tests
/// with a history, of the default variant of a cacheable target, without repetitions. It
/// has the target, the suite, the variant and the number of its repetition, gets the
/// target's time and a minute of grace, and has its host to itself where the target asks
/// for that.
pub proof fn law_a_group_is_asked_for_as_planned(
    plan: &TargetPlan,
    config: &RunnerConfig,
    selection: &TestSelection<String>,
    names: &[String],
    repeat_index: u32,
    first: u32,
    infra: u32,
    estimates: &[DurationEstimate],
    supervisor: &str,
    r: PreparedGroup,
)
    requires
        call_ensures(
            prepare_group,
            (
                plan,
                config,
                selection,
                names,
                repeat_index,
                first,
                infra,
                estimates,
                supervisor,
            ),
            Ok::<PreparedGroup, String>(r),
        ),
    ensures
        ({
            let request = r.request;
            let unseen = exists|i: int|
                0 <= i < estimates@.len() && (#[trigger] estimates@[i]) is Unseen;
            &&& !request.disable_test_execution_caching <==> plan.cache_class is Cacheable
                && config.variant is Default && plan.repeat is Once && first == 0 && infra == 0
                && !(config.duration_db is Persistent && unseen)
            &&& request.test_executable is Some
            &&& request.test_executable->0.target matches Some(target) && target.id
                == plan.spec.handle.0
            &&& testing_stage(request) matches Some(testing) && {
                &&& testing.suite@ == plan.spec.suite@
                &&& config.variant is Default <==> testing.variant is None
                &&& plan.repeat is Stress ==> testing.repeat_count == Some(repeat_index as u64)
                &&& plan.repeat is Once ==> testing.repeat_count is None
            }
            &&& plan.timeout.total_nanos() + 60_000_000_000 < 0x7fff_ffff_ffff_ffff
                ==> (request.timeout matches Some(t) && t.seconds * 1_000_000_000 + t.nanos
                == plan.timeout.total_nanos() + 60_000_000_000)
            &&& request.host_sharing_requirements matches Some(sharing) && {
                &&& plan.profile.exclusivity is Exclusive ==> sharing.requirements == Some(
                    HostSharing::ExclusiveAccess,
                )
                &&& plan.profile.exclusivity is Shared ==> sharing.requirements == Some(
                    HostSharing::Shared { permits: 1 },
                )
            }
        }),
{
    let memory_max = choose|memory_max: CgroupMemoryMax|
        group::is_memory_max(
            *plan,
            *config,
            names@,
            Ok::<CgroupMemoryMax, Seq<char>>(memory_max),
        ) && #[trigger] group::is_prepared(
            *plan,
            *config,
            *selection,
            repeat_index,
            group::caching_for(
                *plan,
                *config,
                group::call_number(first, infra),
                group::bypasses_cache(*config, estimates@),
            ),
            memory_max,
            supervisor@,
            r,
        );
    let caching = group::caching_for(
        *plan,
        *config,
        group::call_number(first, infra),
        group::bypasses_cache(*config, estimates@),
    );
    let req = choose|req: TestingRequest| #[trigger]
        group::is_group_request(
            *plan,
            *config,
            *selection,
            repeat_index,
            caching,
            memory_max,
            supervisor@,
            req,
        ) && execution::is_testing_request(req, r.request) && r.token
            == req.resource_marker_token;
    assert(group::has_unseen(estimates@) == exists|i: int|
        0 <= i < estimates@.len() && (#[trigger] estimates@[i]) is Unseen);
    let nanos = execution::action_timeout_nanos(plan.timeout, 1);
    assert(plan.timeout.total_nanos() * 1 == plan.timeout.total_nanos());
    assert(nanos == (nanos / 1_000_000_000) * 1_000_000_000 + nanos % 1_000_000_000);
    lemma_most_nanos();
}

pub proof fn lemma_most_nanos()
    ensures
        Duration::max_nanos() > 0x7fff_ffff_ffff_ffff,
{
}

/// The executor of an action goes by the most specific of its needs, and an action
/// without needs has none of its own.
pub proof fn law_the_most_specific_need_picks_the_executor(req: TestingRequest, r: ExecuteRequest2)
    requires
        call_ensures(build_testing_request, (req,), r),
    ensures
        ({
            let needs = req.profile.hardware;
            let name = r.executor_override;
            &&& needs.local_debug ==> name is Some && name->0.name@ == "rust-local-debug"@
            &&& !needs.local_debug && needs.listing_only ==> name is Some && name->0.name@
                == "rust-listing"@
            &&& !needs.local_debug && !needs.listing_only && needs.requires_gpu ==> name is Some
                && name->0.name@ == "rust-test-gpu"@
            &&& !needs.local_debug && !needs.listing_only && !needs.requires_gpu
                && needs.requires_large_mem ==> name is Some && name->0.name@ == "rust-test-large"@
            &&& !needs.local_debug && !needs.listing_only && !needs.requires_gpu
                && !needs.requires_large_mem && needs.network_isolated ==> name is Some
                && name->0.name@ == "rust-test-network-private"@
            &&& name is None <==> !needs.local_debug && !needs.listing_only && !needs.requires_gpu
                && !needs.requires_large_mem && !needs.network_isolated
        }),
        r.disable_test_execution_caching <==> req.caching is Disabled,
        req.profile.exclusivity is Exclusive ==> r.host_sharing_requirements is Some
            && r.host_sharing_requirements->0.requirements == Some(HostSharing::ExclusiveAccess),
        req.profile.exclusivity is Shared ==> r.host_sharing_requirements is Some
            && r.host_sharing_requirements->0.requirements == Some(
            HostSharing::Shared { permits: 1 },
        ),
        forall|name: Seq<char>|
            req.profile.local_resources@.contains(name) <==> exists|i: int|
                0 <= i < r.required_local_resources@.len() && (
                #[trigger] r.required_local_resources@[i]).name@ == name,
{
    let names = execution::resource_names(r.required_local_resources@);
    assert forall|name: Seq<char>|
        req.profile.local_resources@.contains(name) <==> exists|i: int|
            0 <= i < r.required_local_resources@.len() && (
            #[trigger] r.required_local_resources@[i]).name@ == name by {
        if req.profile.local_resources@.contains(name) {
            assert(names.to_set().contains(name));
            assert(names.contains(name));
            let i = choose|i: int| 0 <= i < names.len() && names[i] == name;
            assert(r.required_local_resources@[i].name@ == name);
        }
        if exists|i: int|
            0 <= i < r.required_local_resources@.len() && (
            #[trigger] r.required_local_resources@[i]).name@ == name {
            let i = choose|i: int|
                0 <= i < r.required_local_resources@.len() && (
                #[trigger] r.required_local_resources@[i]).name@ == name;
            assert(names[i] == name);
            assert(names.contains(name));
            assert(names.to_set().contains(name));
        }
    }
}

/// An action gets the time of its commands one after the other, and a minute of grace.
pub proof fn law_actions_get_a_minute_of_grace(logical: Duration, count: usize, r: Duration)
    requires
        call_ensures(supervised_action_timeout, (logical, count), r),
    ensures
        count <= u32::MAX && logical.total_nanos() * count + 60_000_000_000
            <= Duration::max_nanos() ==> r.total_nanos() == logical.total_nanos() * count
            + 60_000_000_000,
        logical.total_nanos() * count + 60_000_000_000 > Duration::max_nanos() && count <= u32::MAX
            ==> r.total_nanos() == Duration::max_nanos(),
{
}

// ---------------------------------------------------------------------------
// Commands.

/// The text of a verbatim argument.
pub open spec fn verbatim(arg: ArgValue) -> Option<Seq<char>> {
    match arg.content {
        Some(content) => match content.value {
            Some(ArgContent::SpecValue(value)) => match value.value {
                Some(SpecValue::Verbatim(s)) => if arg.format is None {
                    Some(s@)
                } else {
                    None
                },
                _ => None,
            },
            _ => None,
        },
        None => None,
    }
}

/// A shell reads a quoted text as one word, the text itself.
pub proof fn law_quoted_texts_are_read_back(value: &str, r: String)
    requires
        call_ensures(shell_quote, (value,), r),
    ensures
        execution::shell_read(r@) == Some((QuoteState::Outside, value@)),
{
    execution::law_quoting_preserves_the_text(value@);
}

/// An action without commands runs as it is. Any other runs under a shell: the script goes
/// first, then the command of the target as the script's arguments, unmodified.
pub proof fn law_supervision_hands_the_command_on(
    base: Vec<ArgValue>,
    commands: Vec<LogicalCommand>,
    timeout: Duration,
    granularity: CgroupGranularity,
    memory_max: CgroupMemoryMax,
    token: &ResourceMarkerToken,
    supervisor: &str,
    r: Vec<ArgValue>,
)
    requires
        call_ensures(
            build_supervised_cmd,
            (base, commands, timeout, granularity, memory_max, token, supervisor),
            r,
        ),
    ensures
        commands@.len() == 0 ==> r@ == base@,
        commands@.len() > 0 ==> {
            &&& r@.len() == 4 + base@.len()
            &&& verbatim(r@[0]) == Some("/bin/sh"@)
            &&& verbatim(r@[1]) == Some("-c"@)
            &&& verbatim(r@[2]) is Some
            &&& supervisor@.is_prefix_of(verbatim(r@[2])->0)
            &&& verbatim(r@[3]) == Some("quokka-resource-supervisor"@)
            &&& forall|i: int| 0 <= i < base@.len() ==> #[trigger] r@[4 + i] == base@[i]
        },
        commands@.len() == 1 && commands@[0].appended@.len() == 0 ==> {
            let limit = match memory_max {
                CgroupMemoryMax::Bytes(n) => text::decimal(n.spec_get() as nat),
                CgroupMemoryMax::Unlimited => "max"@,
            };
            verbatim(r@[2]) == Some(
                supervisor@ + "\nquokka_cgroup_granularity="@ + (if granularity is LogicalTest {
                    "logical-test"@
                } else {
                    "action"@
                }) + "\nquokka_logical_timeout_seconds="@ + text::decimal(
                    timeout.spec_secs() as nat,
                ) + "\nquokka_memory_max_value="@ + execution::quoted(limit)
                    + "\nquokka_resource_marker_token="@ + execution::quoted(token.0@)
                    + "\noverall_status=0\nquokka_begin_action\n"@ + ("quokka_run_logical "@
                    + text::decimal(commands@[0].index as nat) + " \"$@\""@
                    + " || overall_status=$?\n"@) + "quokka_finish_action \"$overall_status\"\n"@,
            )
        },
{
    let script = execution::supervisor_script(
        supervisor@,
        commands@,
        timeout,
        granularity,
        memory_max,
        *token,
    );
    if commands@.len() > 0 {
        lemma_verbatim(r@[0], "/bin/sh"@);
        lemma_verbatim(r@[1], "-c"@);
        lemma_verbatim(r@[2], script);
        lemma_verbatim(r@[3], "quokka-resource-supervisor"@);
        assert forall|i: int| 0 <= i < base@.len() implies #[trigger] r@[4 + i] == base@[i] by {
            assert(r@.skip(4)[i] == r@[4 + i]);
        }
        assert(supervisor@.is_prefix_of(script));
    }
    if commands@.len() == 1 && commands@[0].appended@.len() == 0 {
        assert(commands@.drop_last() =~= Seq::<LogicalCommand>::empty());
        assert(execution::logical_lines(commands@.drop_last()) =~= Seq::<char>::empty());
        let line = execution::logical_line(commands@[0]);
        assert(execution::quoted_args(commands@[0].appended@) =~= Seq::<char>::empty());
        assert(line =~= "quokka_run_logical "@ + text::decimal(commands@[0].index as nat)
            + " \"$@\""@ + " || overall_status=$?\n"@);
        assert(execution::logical_lines(commands@) =~= line);
    }
}

pub proof fn lemma_verbatim(arg: ArgValue, text: Seq<char>)
    requires
        execution::is_verbatim(arg, text),
    ensures
        verbatim(arg) == Some(text),
{
    let s = choose|s: String|
        s@ == text && arg == #[trigger] execution::spec_arg(SpecValue::Verbatim(s));
    assert(arg == execution::spec_arg(SpecValue::Verbatim(s)));
}

/// Whether an argument hands a value of the target's spec back as it came.
pub open spec fn hands_back(arg: ArgValue, value: CommandArg) -> bool {
    &&& arg.format is None
    &&& arg.content matches Some(content)
    &&& content.value matches Some(ArgContent::SpecValue(v))
    &&& match value {
        CommandArg::Verbatim(s) => v.value == Some(SpecValue::Verbatim(s)),
        CommandArg::ArgHandle(i) => v.value == Some(SpecValue::ArgHandle(i)),
        CommandArg::EnvHandle(s) => v.value == Some(SpecValue::EnvHandle(s)),
    }
}

/// The environment of an action holds the variables of the target as they came, then the
/// extra ones verbatim, so that those win.
pub proof fn law_extra_variables_come_last(
    spec: &TargetSpec,
    extra: &[(String, String)],
    r: Vec<EnvironmentVariable>,
)
    requires
        call_ensures(build_env, (spec, extra), r),
    ensures
        r@.len() == spec.env@.len() + extra@.len(),
        forall|i: int|
            0 <= i < spec.env@.len() ==> (#[trigger] r@[i]).key@ == spec.env@[i].0@
                && r@[i].value is Some && hands_back(r@[i].value->0, spec.env@[i].1),
        forall|i: int|
            0 <= i < extra@.len() ==> (#[trigger] r@[spec.env@.len() + i]).key@ == extra@[i].0@
                && r@[spec.env@.len() + i].value is Some && verbatim(
                r@[spec.env@.len() + i].value->0,
            ) == Some(extra@[i].1@),
{
    assert forall|i: int| 0 <= i < extra@.len() implies (#[trigger] r@[spec.env@.len()
        + i]).key@ == extra@[i].0@ && r@[spec.env@.len() + i].value is Some && verbatim(
        r@[spec.env@.len() + i].value->0,
    ) == Some(extra@[i].1@) by {
        lemma_verbatim(r@[spec.env@.len() + i].value->0, extra@[i].1@);
    }
}

/// A test action has the variables of [`build_env`], then those that stand for declared
/// outputs.
pub proof fn law_declared_outputs_come_after_all(
    spec: &TargetSpec,
    extra: &[(String, String)],
    declared: &[(String, String)],
    r: Vec<EnvironmentVariable>,
)
    requires
        call_ensures(build_test_env, (spec, extra, declared), r),
    ensures
        r@.len() == spec.env@.len() + extra@.len() + declared@.len(),
        forall|i: int|
            0 <= i < spec.env@.len() ==> (#[trigger] r@[i]).key@ == spec.env@[i].0@
                && r@[i].value is Some && hands_back(r@[i].value->0, spec.env@[i].1),
        forall|i: int|
            0 <= i < declared@.len() ==> (#[trigger] r@[spec.env@.len() + extra@.len() + i]).key@
                == declared@[i].0@ && (r@[spec.env@.len() + extra@.len() + i].value matches Some(v)
                && v.content matches Some(content) && content.value matches Some(
                ArgContent::DeclaredOutput(output),
            ) && output.name@ == declared@[i].1@),
{
    let n = spec.env@.len() + extra@.len();
    let base = r@.take(n as int);
    assert forall|i: int| 0 <= i < spec.env@.len() implies (#[trigger] r@[i]).key@
        == spec.env@[i].0@ && r@[i].value is Some && hands_back(
        r@[i].value->0,
        spec.env@[i].1,
    ) by {
        assert(base[i] == r@[i]);
    }
}

// ---------------------------------------------------------------------------
// Memory limits.

/// A memory limit is read from `max` or from a positive number of bytes.
pub proof fn law_memory_limits_are_read(value: &str, n: u64, r: Option<CgroupMemoryMax>)
    requires
        call_ensures(CgroupMemoryMax::parse, (value,), r),
    ensures
        value@ == "max"@ ==> r == Some(CgroupMemoryMax::Unlimited),
        value@ == text::decimal(n as nat) && n > 0 ==> (r matches Some(CgroupMemoryMax::Bytes(b))
            && b.spec_get() == n),
        value@ == text::decimal(0) ==> r is None,
{
    reveal_strlit("max");
    text::lemma_decimal_reads_back(n as nat);
    text::lemma_decimal_reads_back(0);
    if value@ == text::decimal(n as nat) || value@ == text::decimal(0) {
        assert(text::is_digit(text::decimal(n as nat)[0]));
        assert(text::is_digit(text::decimal(0)[0]));
        assert("max"@[0] == 'm');
    }
}

/// An override is read from the target, the test and the limit, with bars between them.
pub proof fn law_memory_overrides_are_read(
    value: &str,
    target: Seq<char>,
    test: Seq<char>,
    n: u64,
    r: Option<CgroupMemoryMaxOverride>,
)
    requires
        call_ensures(CgroupMemoryMaxOverride::parse, (value,), r),
        value@ == target + seq!['|'] + test + seq!['|'] + text::decimal(n as nat),
        !target.contains('|'),
        !test.contains('|'),
        n > 0,
    ensures
        target.len() > 0 && test.len() > 0 ==> (r matches Some(o) && o.target@ == target && o.test@
            == test && (o.memory_max matches CgroupMemoryMax::Bytes(b) && b.spec_get() == n)),
        target.len() == 0 || test.len() == 0 ==> r is None,
{
    reveal_strlit("max");
    let limit = text::decimal(n as nat);
    text::lemma_decimal_reads_back(n as nat);
    let rest = test + seq!['|'] + limit;
    lemma_split_at(value@, target, rest);
    lemma_split_at(rest, test, limit);
    assert(!limit.contains('|')) by {
        if limit.contains('|') {
            let i = choose|i: int| 0 <= i < limit.len() && limit[i] == '|';
            assert(text::is_digit(limit[i]));
        }
    }
    assert(text::is_digit(limit[0]));
    assert("max"@[0] == 'm');
}

proof fn lemma_split_at(s: Seq<char>, head: Seq<char>, tail: Seq<char>)
    requires
        !head.contains('|'),
        s =~= head + seq!['|'] + tail,
    ensures
        text::split_once(s, '|') == Some((head, tail)),
{
    assert forall|k: int| 0 <= k < head.len() implies s[k] != '|' by {
        assert(s[k] == head[k]);
        assert(head.contains(head[k]));
    }
    text::lemma_find_from_is(s, '|', 0, head.len() as int);
    assert(s.take(head.len() as int) =~= head);
    assert(s.skip(head.len() as int + 1) =~= tail);
}

/// Whether an override is for a target and one of some tests.
pub open spec fn is_for(
    o: CgroupMemoryMaxOverride,
    target: Seq<char>,
    tests: Seq<String>,
) -> bool {
    o.target@ == target && exists|i: int| 0 <= i < tests.len() && (#[trigger] tests[i])@ == o.test@
}

/// An action has the default limit where no override is for it. It has that of an override
/// that is for its only test; several overrides, or one for a test among others, are an
/// error.
pub proof fn law_an_override_is_for_a_single_test(
    default: CgroupMemoryMax,
    overrides: &[CgroupMemoryMaxOverride],
    target: &str,
    tests: &[String],
    r: Result<CgroupMemoryMax, String>,
)
    requires
        call_ensures(cgroup_memory_max_for_action, (default, overrides, target, tests), r),
    ensures
        (forall|i: int|
            0 <= i < overrides@.len() ==> !is_for(#[trigger] overrides@[i], target@, tests@))
            ==> r == Ok::<CgroupMemoryMax, String>(default),
        forall|i: int|
            0 <= i < overrides@.len() && is_for(#[trigger] overrides@[i], target@, tests@) && (
            forall|j: int|
                0 <= j < overrides@.len() && j != i ==> !is_for(
                    #[trigger] overrides@[j],
                    target@,
                    tests@,
                )) ==> if tests@.len() == 1 {
                r == Ok::<CgroupMemoryMax, String>(overrides@[i].memory_max)
            } else {
                r matches Err(e) && e@ == "a cgroup memory override requires a singleton test action"@
            },
        forall|i: int, j: int|
            #![trigger overrides@[i], overrides@[j]]
            0 <= i < j < overrides@.len() && is_for(overrides@[i], target@, tests@) && is_for(
                overrides@[j],
                target@,
                tests@,
            ) ==> (r matches Err(e) && e@ == "multiple cgroup memory overrides match one action"@),
{
    let n = overrides@.len();
    let found = execution::matching_overrides(overrides@, target@, tests@, n);
    lemma_matching(overrides@, target@, tests@, n);
    if forall|i: int|
        0 <= i < overrides@.len() ==> !is_for(#[trigger] overrides@[i], target@, tests@) {
        if found.len() > 0 {
            assert(is_for(overrides@[found[0]], target@, tests@));
        }
    }
    assert forall|i: int|
        0 <= i < overrides@.len() && is_for(#[trigger] overrides@[i], target@, tests@) && (forall|
            j: int,
        |
            0 <= j < overrides@.len() && j != i ==> !is_for(
                #[trigger] overrides@[j],
                target@,
                tests@,
            )) implies found.len() == 1 && found[0] == i by {
        assert(found.contains(i));
        assert forall|k: int| 0 <= k < found.len() implies found[k] == i by {
            assert(is_for(overrides@[found[k]], target@, tests@));
        }
        if found.len() > 1 {
            assert(found[0] < found[1]);
        }
    }
    assert forall|i: int, j: int|
        #![trigger overrides@[i], overrides@[j]]
        0 <= i < j < overrides@.len() && is_for(overrides@[i], target@, tests@) && is_for(
            overrides@[j],
            target@,
            tests@,
        ) implies found.len() > 1 by {
        assert(found.contains(i));
        assert(found.contains(j));
        let a = choose|a: int| 0 <= a < found.len() && found[a] == i;
        let b = choose|b: int| 0 <= b < found.len() && found[b] == j;
    }
}

proof fn lemma_matching(
    overrides: Seq<CgroupMemoryMaxOverride>,
    target: Seq<char>,
    tests: Seq<String>,
    n: nat,
)
    requires
        n <= overrides.len(),
    ensures
        ({
            let found = execution::matching_overrides(overrides, target, tests, n);
            &&& forall|k: int|
                0 <= k < found.len() ==> 0 <= #[trigger] found[k] < n && is_for(
                    overrides[found[k]],
                    target,
                    tests,
                )
            &&& forall|j: int, k: int| 0 <= j < k < found.len() ==> #[trigger] found[j]
                < #[trigger] found[k]
            &&& forall|i: int|
                0 <= i < n && is_for(#[trigger] overrides[i], target, tests) ==> found.contains(i)
        }),
    decreases n,
{
    if n > 0 {
        lemma_matching(overrides, target, tests, (n - 1) as nat);
        let before = execution::matching_overrides(overrides, target, tests, (n - 1) as nat);
        let found = execution::matching_overrides(overrides, target, tests, n);
        assert(execution::override_matches(overrides[n - 1], target, tests) == is_for(
            overrides[n - 1],
            target,
            tests,
        ));
        assert forall|i: int|
            0 <= i < n && is_for(#[trigger] overrides[i], target, tests) implies found.contains(
            i,
        ) by {
            if i < n - 1 {
                assert(before.contains(i));
                let k = choose|k: int| 0 <= k < before.len() && before[k] == i;
                assert(found[k] == i);
            } else {
                assert(found[found.len() - 1] == i);
            }
        }
    }
}

// ---------------------------------------------------------------------------
// Answers.

/// What an answer means for a group. A wait in the queue that took too long is asked for
/// again, three calls in all, and is then a failure of the infrastructure; a cancelled run
/// leaves the tests out; a call that failed is fatal. None of these counts as seen to its
/// end.
pub proof fn law_only_queue_timeouts_are_asked_again(
    plan: &TargetPlan,
    granularity: CgroupGranularity,
    names: &[String],
    token: &ResourceMarkerToken,
    infra: u32,
    answer: Result<Execute2Outcome, String>,
    r: GroupStep,
)
    requires
        call_ensures(settle_group, (plan, granularity, names, token, infra, answer), r),
    ensures
        r is Retry <==> answer is Ok && answer->Ok_0 is CancelledQueueTimeout && infra < 2,
        r matches GroupStep::Retry { infra_attempt } ==> infra_attempt == infra + 1,
        answer is Ok && answer->Ok_0 is CancelledQueueTimeout && infra >= 2 ==> fails_with(
            r,
            TestVerdict::InfraFailure,
            "RE queue timeout (retries exhausted)"@,
        ),
        answer is Ok && answer->Ok_0 is CancelledUnspecified ==> fails_with(
            r,
            TestVerdict::Omitted,
            "run cancelled"@,
        ),
        answer matches Err(error) ==> fails_with(
            r,
            TestVerdict::Fatal,
            "Execute2 RPC failed: "@ + error@,
        ),
        answer is Ok && answer->Ok_0 is Completed ==> r is Done,
{
}

/// Whether a step ends a group with a failure that no process run stands behind.
pub open spec fn fails_with(step: GroupStep, status: TestVerdict, details: Seq<char>) -> bool {
    &&& step is Done
    &&& step->Done_0 is Failed
    &&& step->Done_0->Failed_0.status == status
    &&& step->Done_0->Failed_0.details@ == details
    &&& step->Done_0->Failed_0.execution is Unknown
    &&& step->Done_0->Failed_0.duration is Unmeasured
    &&& step->Done_0->Failed_0.disposition is Incomplete
}

/// A group that cannot be asked for is a fatal failure of its tests.
pub proof fn law_refused_groups_are_fatal(details: String, r: GroupOutcome)
    requires
        call_ensures(refused_group, (details,), r),
    ensures
        fails_with(GroupStep::Done(r), TestVerdict::Fatal, details@),
{
}

/// A group that failed counts as seen to its end only where the whole action ran out of
/// time.
pub proof fn law_only_action_timeouts_count_as_complete(
    disposition: GroupFailureDisposition,
    r: ResultIntegrity,
)
    requires
        call_ensures(GroupFailureDisposition::integrity, (disposition,), r),
    ensures
        r is Complete <==> disposition is CompleteActionTimeout,
{
}

/// The line by which the supervisor of an action speaks.
pub open spec fn marker_line(token: Seq<char>, marker: Seq<char>) -> Seq<char> {
    "quokka resource "@ + token + " "@ + marker
}

/// A line of the supervisor of an action is read as what it says: a test or the action out
/// of time or memory, or a failure to set it up. What it says is kept word by word. A line
/// with another token says nothing.
pub proof fn law_markers_say_what_ran_out(
    line: &str,
    token: &ResourceMarkerToken,
    said: Seq<char>,
    n: usize,
    r: Vec<ResourceFailure>,
)
    requires
        call_ensures(parse_resource_text, (line, token), r),
        !line@.contains('\n'),
        line@.len() > 0,
    ensures
        !("quokka resource "@ + token.0@ + " "@).is_prefix_of(line@) ==> r@.len() == 0,
        line@ == marker_line(token.0@, "test action timeout: "@ + said) ==> r@.len() == 1 && (
        r@[0] matches ResourceFailure::ActionTimeout { details } && details@ == "quokka "@ + (
        "test action timeout: "@ + said)),
        line@ == marker_line(token.0@, "test action cgroup OOM: "@ + said) ==> r@.len() == 1 && (
        r@[0] matches ResourceFailure::ActionOom { details } && details@ == "quokka "@ + (
        "test action cgroup OOM: "@ + said)),
        line@ == marker_line(token.0@, "cgroup setup failure: "@ + said) ==> r@.len() == 1 && (
        r@[0] matches ResourceFailure::Setup { details } && details@ == "quokka "@ + (
        "cgroup setup failure: "@ + said)),
        line@ == marker_line(token.0@, "logical test timeout: index="@ + text::decimal(n as nat))
            ==> r@.len() == 1 && (r@[0] matches ResourceFailure::LogicalTimeout { index, details }
            && index == n && details@ == "quokka "@ + ("logical test timeout: index="@
            + text::decimal(n as nat))),
        line@ == marker_line(token.0@, "logical test cgroup OOM: index="@ + text::decimal(n as nat))
            ==> r@.len() == 1 && (r@[0] matches ResourceFailure::LogicalOom { index, details }
            && index == n && details@ == "quokka "@ + ("logical test cgroup OOM: index="@
            + text::decimal(n as nat))),
{
    lemma_one_line(line@);
    let views = execution::failure_views(r@);
    let lines = text::lines(line@);
    let found = execution::failure_in_line(lines[0], token.0@);
    assert(execution::failures_in_lines(lines, token.0@, 0) =~= Seq::empty());
    assert(execution::failures_in_lines(lines, token.0@, 1) == match found {
        Some(f) => Seq::<execution::ResourceFailureView>::empty().push(f),
        None => Seq::empty(),
    });
    assert(views.len() == r@.len());
    if r@.len() > 0 {
        assert(views[0] == r@[0]@);
    }
    let head = "quokka resource "@ + token.0@ + " "@;
    lemma_marker_heads();
    if line@ == marker_line(token.0@, "test action timeout: "@ + said) {
        let marker = "test action timeout: "@ + said;
        lemma_marker(line@, head, marker);
        lemma_starts("test action timeout: "@, said);
        lemma_stripped(line@, marker, token.0@);
    }
    if line@ == marker_line(token.0@, "test action cgroup OOM: "@ + said) {
        let marker = "test action cgroup OOM: "@ + said;
        lemma_marker(line@, head, marker);
        lemma_starts("test action cgroup OOM: "@, said);
        lemma_stripped(line@, marker, token.0@);
    }
    if line@ == marker_line(token.0@, "cgroup setup failure: "@ + said) {
        let marker = "cgroup setup failure: "@ + said;
        lemma_marker(line@, head, marker);
        lemma_starts("cgroup setup failure: "@, said);
        lemma_stripped(line@, marker, token.0@);
    }
    if line@ == marker_line(token.0@, "logical test timeout: index="@ + text::decimal(n as nat)) {
        let marker = "logical test timeout: index="@ + text::decimal(n as nat);
        lemma_marker(line@, head, marker);
        lemma_indexed("logical test timeout:"@, "logical test timeout: index="@, n as nat);
    }
    if line@ == marker_line(
        token.0@,
        "logical test cgroup OOM: index="@ + text::decimal(n as nat),
    ) {
        let marker = "logical test cgroup OOM: index="@ + text::decimal(n as nat);
        lemma_marker(line@, head, marker);
        lemma_indexed("logical test cgroup OOM:"@, "logical test cgroup OOM: index="@, n as nat);
    }
}

proof fn lemma_one_line(s: Seq<char>)
    requires
        !s.contains('\n'),
        s.len() > 0,
    ensures
        text::lines(s) == seq![s],
{
    text::lemma_find_from(s, '\n', 0);
    let at = text::find_from(s, '\n', 0);
    if at < s.len() {
        assert(s.contains(s[at]));
    }
    assert(s.subrange(0, s.len() as int) =~= s);
}

proof fn lemma_marker(line: Seq<char>, head: Seq<char>, marker: Seq<char>)
    requires
        line =~= head + marker,
    ensures
        text::strip_prefix(line, head) == Some(marker),
{
    assert(head.is_prefix_of(line));
    assert(line.skip(head.len() as int) =~= marker);
}

proof fn lemma_starts(start: Seq<char>, said: Seq<char>)
    ensures
        start.is_prefix_of(start + said),
        start.len() > 0 ==> (start + said)[0] == start[0],
        forall|i: int| 0 <= i < start.len() ==> (start + said)[i] == #[trigger] start[i],
{
}

proof fn lemma_stripped(line: Seq<char>, marker: Seq<char>, token: Seq<char>)
    requires
        marker.len() > 0,
        marker[0] != 'l',
    ensures
        text::strip_prefix(marker, "logical test timeout:"@) is None,
        text::strip_prefix(marker, "logical test cgroup OOM:"@) is None,
{
    reveal_strlit("logical test timeout:");
    reveal_strlit("logical test cgroup OOM:");
    if "logical test timeout:"@.is_prefix_of(marker) {
        assert("logical test timeout:"@[0] == marker[0]);
    }
    if "logical test cgroup OOM:"@.is_prefix_of(marker) {
        assert("logical test cgroup OOM:"@[0] == marker[0]);
    }
}

proof fn lemma_marker_heads()
    ensures
        "test action timeout: "@.len() == 21,
        "test action cgroup OOM: "@.len() == 24,
        "cgroup setup failure: "@.len() == 22,
        "test action timeout: "@[0] == 't',
        "test action timeout: "@[12] == 't',
        "test action cgroup OOM: "@[0] == 't',
        "test action cgroup OOM: "@[12] == 'c',
        "cgroup setup failure: "@[0] == 'c',
        "logical test timeout:"@.len() == 21,
        "logical test cgroup OOM:"@.len() == 24,
        "logical test timeout:"@[13] == 't',
        "logical test cgroup OOM:"@[13] == 'c',
{
    reveal_strlit("test action timeout: ");
    reveal_strlit("test action cgroup OOM: ");
    reveal_strlit("cgroup setup failure: ");
    reveal_strlit("logical test timeout:");
    reveal_strlit("logical test cgroup OOM:");
}

proof fn lemma_indexed(start: Seq<char>, whole: Seq<char>, n: nat)
    requires
        (start == "logical test timeout:"@ && whole == "logical test timeout: index="@) || (start
            == "logical test cgroup OOM:"@ && whole == "logical test cgroup OOM: index="@),
    ensures
        text::strip_prefix(whole + text::decimal(n), start) == Some(
            " index="@ + text::decimal(n),
        ),
        start == "logical test cgroup OOM:"@ ==> text::strip_prefix(
            whole + text::decimal(n),
            "logical test timeout:"@,
        ) is None,
        n <= usize::MAX ==> execution::index_text(text::words(" index="@ + text::decimal(n)), 0)
            == Some(text::decimal(n)) && text::parse_unsigned(text::decimal(n), usize::MAX as nat)
            == Some(n),
{
    reveal_strlit("logical test timeout:");
    reveal_strlit("logical test cgroup OOM:");
    reveal_strlit("logical test timeout: index=");
    reveal_strlit("logical test cgroup OOM: index=");
    reveal_strlit(" index=");
    reveal_strlit("index=");
    let digits = text::decimal(n);
    let marker = whole + digits;
    let rest = " index="@ + digits;
    assert(whole =~= start + " index="@);
    assert(marker =~= start + rest);
    assert(start.is_prefix_of(marker));
    assert(marker.skip(start.len() as int) =~= rest);
    if start == "logical test cgroup OOM:"@ {
        if "logical test timeout:"@.is_prefix_of(marker) {
            assert("logical test timeout:"@[13] == marker[13]);
            assert(marker[13] == start[13]);
        }
    }
    text::lemma_decimal_reads_back(n);
    let word = "index="@ + digits;
    assert(rest =~= seq![' '] + word);
    assert forall|i: int| 0 <= i < word.len() implies !text::is_space(#[trigger] word[i]) by {
        if i >= 6 {
            assert(word[i] == digits[i - 6]);
            assert(text::is_digit(digits[i - 6]));
        }
    }
    assert(text::words(rest) == text::words_from(rest, 1, 1));
    lemma_rest_is_a_word(rest, 1, 1);
    assert(rest.subrange(1, rest.len() as int) =~= word);
    assert("index="@.is_prefix_of(word));
    assert(word.skip(6) =~= digits);
    let all = text::words(rest);
    assert(all[0] == word);
}

proof fn lemma_rest_is_a_word(s: Seq<char>, start: int, i: int)
    requires
        0 <= start <= i <= s.len(),
        start < s.len(),
        forall|k: int| start <= k < s.len() ==> !text::is_space(#[trigger] s[k]),
    ensures
        text::words_from(s, start, i) == seq![s.subrange(start, s.len() as int)],
    decreases s.len() - i,
{
    if i < s.len() {
        lemma_rest_is_a_word(s, start, i + 1);
    }
}

/// What the markers of a completed action do to its group, one by one. Without a marker the
/// output speaks. A marker of a test belongs to supervision per test and to the only test of
/// the group, and one of the action to supervision per action; any other place is a failure
/// of the infrastructure, as is a failure to set up and a marker that cannot be read. An
/// action out of time fails its tests; one out of memory says so of them.
pub proof fn law_markers_belong_to_their_supervision(
    plan: &TargetPlan,
    granularity: CgroupGranularity,
    names: &[String],
    token: &ResourceMarkerToken,
    action: CompletedAction,
    stderr: &[u8],
    markers: Vec<ResourceFailure>,
    r: GroupOutcome,
)
    requires
        call_ensures(settle_completed, (plan, granularity, names, token, action), r),
        stderr@ == action.stderr@,
        call_ensures(parse_resource_failures, (stderr, token), markers),
        markers@.len() <= 1,
    ensures
        markers@.len() == 0 ==> r is Observed && r->Observed_0.action_oom is None,
        r is Observed ==> r->Observed_0.raw == action.status && r->Observed_0.stdout@
            == action.stdout@ && r->Observed_0.stderr@ == action.stderr@
            && r->Observed_0.execution_time == action.execution_time && r->Observed_0.max_memory
            == action.max_memory_used_bytes,
        r is Failed ==> r->Failed_0.duration == AttemptDuration::Measured(action.execution_time),
        markers@.len() == 1 ==> match markers@[0] {
            ResourceFailure::LogicalTimeout { index, details } => if granularity is LogicalTest
                && names@.len() == 1 && index == 0 {
                &&& r is Observed
                &&& r->Observed_0.observations@.contains_key(names@[0]@)
                &&& r->Observed_0.observations@[names@[0]@].status is Timeout
                &&& r->Observed_0.observations@[names@[0]@].details@ == details@
            } else {
                infra_failed(r)
            },
            ResourceFailure::LogicalOom { index, details } => if granularity is LogicalTest
                && names@.len() == 1 && index == 0 {
                &&& r is Observed
                &&& r->Observed_0.observations@.contains_key(names@[0]@)
                &&& r->Observed_0.observations@[names@[0]@].status is Fail
                &&& r->Observed_0.observations@[names@[0]@].details@ == details@
            } else {
                infra_failed(r)
            },
            ResourceFailure::ActionTimeout { details } => if granularity is Action {
                &&& r is Failed
                &&& r->Failed_0.status is Timeout
                &&& r->Failed_0.disposition is CompleteActionTimeout
                &&& r->Failed_0.details@ == details@
            } else {
                infra_failed(r)
            },
            ResourceFailure::ActionOom { details } => if granularity is Action {
                r is Observed && r->Observed_0.action_oom is Some && r->Observed_0.action_oom->0@
                    == details@
            } else {
                infra_failed(r)
            },
            ResourceFailure::Setup { details } => infra_failed(r) && r->Failed_0.details@
                == details@,
            ResourceFailure::Malformed { details } => infra_failed(r),
        },
{
    let views = execution::failure_views(markers@);
    assert(views.len() == markers@.len());
    let none = group::markers_upto(views, granularity, names@.len(), 0);
    if markers@.len() == 1 {
        assert(views[0] == markers@[0]@);
        assert(group::markers_upto(views, granularity, names@.len(), 1) == group::with_marker(
            none,
            views[0],
            granularity,
            names@.len(),
        ));
    }
    if r is Observed {
        let o = r->Observed_0;
        let seen = crate::translator::observation_views(o.observations@);
        if markers@.len() == 1 && seen.contains_key(names@[0]@) {
            assert(o.observations@.contains_key(names@[0]@));
            assert(seen[names@[0]@] == o.observations@[names@[0]@]@);
        }
    }
}

/// Whether a group failed for the infrastructure's sake.
pub open spec fn infra_failed(r: GroupOutcome) -> bool {
    r is Failed && r->Failed_0.status is InfraFailure && r->Failed_0.disposition is Incomplete
}

// ---------------------------------------------------------------------------
// What the user sees of an action.

/// Whether `module` is the path of a test without its last part.
pub open spec fn is_module(name: Seq<char>, module: Seq<char>) -> bool {
    ||| exists|last: Seq<char>|
        name == #[trigger] (module + "::"@ + last) && forall|k: int|
            k > module.len() ==> !#[trigger] text::occurs_at(name, "::"@, k)
    ||| module == "(root)"@ && forall|k: int| !#[trigger] text::occurs_at(name, "::"@, k)
}

/// An action that runs a target as a whole names no test, one of a single test names it,
/// and any other is told by its modules, three at most, and the number of its tests.
pub proof fn law_actions_are_told_by_their_modules(
    selection: &TestSelection<String>,
    r: Vec<String>,
)
    requires
        call_ensures(stage_testcases, (selection,), r),
    ensures
        selection is All ==> r@.len() == 0,
        selection matches TestSelection::Explicit(names) ==> {
            &&& r@.len() == 1
            &&& names@.len() == 1 ==> r@[0]@ == names@[0]@
            &&& names@.len() != 1 ==> exists|modules: Seq<Seq<char>>|
                #![trigger modules.len()]
                {
                    &&& text::ascending(modules)
                    &&& forall|i: int|
                        0 <= i < names@.len() ==> exists|k: int|
                            0 <= k < modules.len() && is_module(
                                (#[trigger] names@[i])@,
                                #[trigger] modules[k],
                            )
                    &&& forall|k: int|
                        0 <= k < modules.len() ==> exists|i: int|
                            0 <= i < names@.len() && is_module(
                                (#[trigger] names@[i])@,
                                #[trigger] modules[k],
                            )
                    &&& modules.len() == 1 ==> r@[0]@ == modules[0] + " ("@ + text::decimal(
                        names@.len(),
                    ) + " tests)"@
                    &&& modules.len() == 2 ==> r@[0]@ == modules[0] + ", "@ + modules[1] + " ("@
                        + text::decimal(names@.len()) + " tests)"@
                    &&& modules.len() == 3 ==> r@[0]@ == modules[0] + ", "@ + modules[1] + ", "@
                        + modules[2] + " ("@ + text::decimal(names@.len()) + " tests)"@
                    &&& modules.len() > 3 ==> r@[0]@ == modules[0] + ", "@ + modules[1] + ", "@
                        + modules[2] + " and "@ + text::decimal((modules.len() - 3) as nat)
                        + " more"@ + " ("@ + text::decimal(names@.len()) + " tests)"@
                }
        },
{
    if let TestSelection::Explicit(names) = *selection {
        if names@.len() != 1 {
            let modules = choose|modules: Seq<Seq<char>>|
                text::ascending(modules) && modules.to_set() == group::modules_of(names@)
                    && r@[0]@ == #[trigger] group::batch_label(modules, names@.len());
            let n = modules.len();
            assert(r@[0]@ == group::batch_label(modules, names@.len()));
            lemma_joined(modules);
            assert forall|i: int| 0 <= i < names@.len() implies exists|k: int|
                0 <= k < modules.len() && is_module(
                    (#[trigger] names@[i])@,
                    #[trigger] modules[k],
                ) by {
                let m = group::module_of(names@[i]@);
                lemma_module(names@[i]@);
                assert(group::modules_of(names@).contains(m));
                assert(modules.to_set().contains(m));
                assert(modules.contains(m));
                let k = choose|k: int| 0 <= k < modules.len() && modules[k] == m;
                assert(is_module(names@[i]@, modules[k]));
            }
            assert forall|k: int| 0 <= k < modules.len() implies exists|i: int|
                0 <= i < names@.len() && is_module(
                    (#[trigger] names@[i])@,
                    #[trigger] modules[k],
                ) by {
                assert(modules.contains(modules[k]));
                assert(modules.to_set().contains(modules[k]));
                assert(group::modules_of(names@).contains(modules[k]));
                let i = choose|i: int|
                    0 <= i < names@.len() && group::module_of((#[trigger] names@[i])@)
                        == modules[k];
                lemma_module(names@[i]@);
                assert(is_module(names@[i]@, modules[k]));
            }
            assert(modules.len() == n);
        }
    }
}

proof fn lemma_joined(modules: Seq<Seq<char>>)
    ensures
        modules.len() == 1 ==> text::joined(modules, ", "@) == modules[0],
        modules.len() == 2 ==> text::joined(modules, ", "@) == modules[0] + ", "@ + modules[1],
        modules.len() == 3 ==> text::joined(modules, ", "@) == modules[0] + ", "@ + modules[1]
            + ", "@ + modules[2],
        modules.len() > 3 ==> text::joined(modules.take(3), ", "@) == modules[0] + ", "@
            + modules[1] + ", "@ + modules[2],
{
    reveal_with_fuel(text::joined, 4);
    if modules.len() == 2 {
        assert(modules.drop_last()[0] == modules[0]);
    }
    if modules.len() >= 3 {
        let three = modules.take(3);
        assert(three.drop_last().drop_last()[0] == modules[0]);
        assert(three.drop_last().last() == modules[1]);
        assert(three.last() == modules[2]);
        if modules.len() == 3 {
            assert(three =~= modules);
        }
    }
}

proof fn lemma_module(name: Seq<char>)
    ensures
        is_module(name, group::module_of(name)),
{
    reveal_strlit("::");
    lemma_last_colons(name, name.len() - 2);
    match text::rfind_text(name, "::"@, name.len() - 2) {
        Some(at) => {
            let last = name.skip(at + 2);
            assert(name.subrange(at, at + 2) == "::"@);
            assert(name =~= name.take(at) + "::"@ + last);
        },
        None => {},
    }
}

proof fn lemma_last_colons(name: Seq<char>, from: int)
    requires
        from + 2 <= name.len(),
    ensures
        "::"@.len() == 2,
        match text::rfind_text(name, "::"@, from) {
            Some(at) => text::occurs_at(name, "::"@, at) && forall|k: int|
                at < k <= from ==> !#[trigger] text::occurs_at(name, "::"@, k),
            None => forall|k: int| k <= from ==> !#[trigger] text::occurs_at(name, "::"@, k),
        },
    decreases from + 1,
{
    reveal_strlit("::");
    if from >= 0 && !text::occurs_at(name, "::"@, from) {
        lemma_last_colons(name, from - 1);
    }
}

} // verus!

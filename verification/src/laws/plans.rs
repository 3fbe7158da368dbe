//! How a target becomes a plan, its tests are found, and its actions are laid out.

use vstd::prelude::*;
use vstd::utf8::*;

use crate::batching::{BatchMode, TestSelection};
use crate::cli::RunnerConfig;
use crate::environment::SchedulingProfile;
use crate::execution::{self, CgroupGranularity, CgroupMemoryMaxOverride, ResourceFailure, ResourceMarkerToken};
use crate::laws::labels::{asks_for, carried, carry};
use crate::listing::{IgnoredPolicy, TestCase};
use crate::policy::{self, Owner, TestTimeout};
use crate::proto::{ExternalRunnerSpec, ExternalRunnerSpecValue, SpecValue};
use crate::result::{CompletedAction, Execute2Outcome, ProcessOutcome, TestIdentity, TestVerdict};
use crate::scheduler::batches;
use crate::scheduler::discover::{
    self, after_listing, discovered_ids, expected_members, planned_actions, select_tests,
    settle_listed, settle_listing, whole_unit_tests, ListingStep, PlannedAction, TargetStep,
};
use crate::scheduler::plan::{
    self, missing_cgroup_override_targets, valid_spec_target_display,
    validate_cgroup_memory_overrides, TargetPlan,
};
use crate::spec::{display_of, CommandArg, SpecError, TargetSpec};
use crate::text;
use crate::translator::{
    self, DemuxCapability, FrameworkTranslator, ListingStrategy, Translator, TranslatorRegistry,
};
use crate::variant::RepeatKind;

verus! {

// ---------------------------------------------------------------------------
// Plans.

/// The plan of a target: its results may be cached, its failures are retried, covered by
/// quarantine or batched exactly as its labels say. A global repetition goes before the one
/// that the label `stress` stands for.
pub proof fn law_plans_follow_the_labels(
    spec: TargetSpec,
    config: &RunnerConfig,
    registry: &TranslatorRegistry,
    r: Result<TargetPlan, String>,
)
    requires
        call_ensures(TargetPlan::derive, (spec, config, registry), r),
    ensures
        r is Ok <==> registry@.contains_key(spec.test_type@),
        r matches Err(reason) ==> reason@ == "no translator registered for test_type '"@
            + spec.test_type@ + "'"@,
        r matches Ok(plan) ==> {
            let labels = spec.labels@;
            &&& plan.spec == spec
            &&& plan.ignored == config.ignored
            &&& plan.cache_class is Disabled <==> carry(labels, "cache_disabled"@) || carry(
                labels,
                "uses_network"@,
            ) || carry(labels, "uses_wall_clock"@) || carry(
                labels,
                "uses_randomness_without_seed"@,
            ) || carry(labels, "requires_external_service"@) || carry(
                labels,
                "serial_global_state"@,
            ) || carry(labels, "stress"@) || carry(labels, "network-private"@)
            &&& plan.quarantine is Quarantined <==> carry(labels, "quarantined"@)
            &&& config.flaky_attempts >= 1 && (carry(labels, "flaky"@) || carry(labels, "retry"@))
                ==> plan.retry.spec_max_attempts() == config.flaky_attempts
            &&& !(carry(labels, "flaky"@) || carry(labels, "retry"@))
                ==> plan.retry.spec_max_attempts() == 1
            &&& carry(labels, "big"@) ==> plan.batch_mode == Some(BatchMode::PerTest)
            &&& !carry(labels, "big"@) ==> plan.batch_mode is None
            &&& config.stress is Stress ==> plan.repeat == config.stress
            &&& config.stress is Once && carry(labels, "stress"@) ==> plan.repeat
                == RepeatKind::Stress(config.stress_label_reps)
            &&& config.stress is Once && !carry(labels, "stress"@) ==> plan.repeat is Once
            &&& (forall|rest: Seq<char>| !asks_for(labels, "timeout="@, rest)) ==> plan.timeout
                == config.per_test_timeout
        },
{
    if let Ok(plan) = r {
        let labels = spec.labels@;
        crate::laws::labels::lemma_carry(labels, "cache_disabled"@);
        crate::laws::labels::lemma_carry(labels, "uses_network"@);
        crate::laws::labels::lemma_carry(labels, "uses_wall_clock"@);
        crate::laws::labels::lemma_carry(labels, "uses_randomness_without_seed"@);
        crate::laws::labels::lemma_carry(labels, "requires_external_service"@);
        crate::laws::labels::lemma_carry(labels, "serial_global_state"@);
        crate::laws::labels::lemma_carry(labels, "stress"@);
        crate::laws::labels::lemma_carry(labels, "network-private"@);
        crate::laws::labels::lemma_carry(labels, "quarantined"@);
        crate::laws::labels::lemma_carry(labels, "flaky"@);
        crate::laws::labels::lemma_carry(labels, "retry"@);
        crate::laws::labels::lemma_carry(labels, "big"@);
        policy::lemma_longest_timeout(labels, labels.len());
        if forall|rest: Seq<char>| !asks_for(labels, "timeout="@, rest) {
            assert forall|i: int| 0 <= i < labels.len() implies policy::label_timeout(
                (#[trigger] labels[i])@,
            ) is None by {
                match text::strip_prefix(text::label_suffix(labels[i]@), "timeout="@) {
                    Some(rest) => {
                        crate::laws::labels::lemma_named(labels[i]@, "timeout="@, rest);
                        assert(asks_for(labels, "timeout="@, rest));
                    },
                    None => {},
                }
            }
        }
    }
}

/// The plan of a target places it as its labels say; labels that contradict each other place
/// it nowhere in particular and are warned of.
pub proof fn law_plans_place_targets_by_label(
    spec: TargetSpec,
    config: &RunnerConfig,
    registry: &TranslatorRegistry,
    plan: TargetPlan,
)
    requires
        call_ensures(
            TargetPlan::derive,
            (spec, config, registry),
            Ok::<TargetPlan, String>(plan),
        ),
    ensures
        ({
            let labels = spec.labels@;
            let conflict = carry(labels, "gpu"@) && carry(labels, "large-mem"@);
            let p = plan.profile;
            &&& plan.warning is Some <==> conflict
            &&& conflict ==> !p.hardware.requires_gpu && !p.hardware.requires_large_mem
                && !p.hardware.network_isolated && p.exclusivity is Shared && forall|
                name: Seq<char>,
            | !#[trigger] p.local_resources@.contains(name)
            &&& !conflict ==> {
                &&& p.hardware.requires_gpu <==> carry(labels, "gpu"@)
                &&& p.hardware.requires_large_mem <==> carry(labels, "large-mem"@)
                &&& p.hardware.network_isolated <==> carry(labels, "network-private"@)
                &&& p.exclusivity is Exclusive <==> carry(labels, "exclusive"@) || carry(
                    labels,
                    "serial_global_state"@,
                )
                &&& forall|name: Seq<char>| #[trigger]
                    p.local_resources@.contains(name) <==> asks_for(
                        labels,
                        "local-resource="@,
                        name,
                    )
            }
            &&& !p.hardware.listing_only
            &&& !p.hardware.local_debug
        }),
{
    let labels = spec.labels@;
    crate::laws::labels::lemma_carry(labels, "gpu"@);
    crate::laws::labels::lemma_carry(labels, "large-mem"@);
    crate::laws::labels::lemma_carry(labels, "network-private"@);
    crate::laws::labels::lemma_carry(labels, "exclusive"@);
    crate::laws::labels::lemma_carry(labels, "serial_global_state"@);
    let p = plan.profile;
    if !(carry(labels, "gpu"@) && carry(labels, "large-mem"@)) {
        assert forall|name: Seq<char>| #[trigger]
            p.local_resources@.contains(name) <==> asks_for(
            labels,
            "local-resource="@,
            name,
        ) by {
            let kind = "local-resource="@;
            if p.local_resources@.contains(name) {
                let i = choose|i: int|
                    0 <= i < labels.len() && crate::environment::resource_of(
                        (#[trigger] labels[i])@,
                    ) == Some(name);
                crate::laws::labels::lemma_named(labels[i]@, kind, name);
            }
            if asks_for(labels, kind, name) {
                let i = choose|i: int|
                    0 <= i < labels.len() && carried((#[trigger] labels[i])@, kind + name);
                crate::laws::labels::lemma_named(labels[i]@, kind, name);
            }
        }
    }
}

/// The owner of a plan is the team of the last label that names one.
pub proof fn law_plans_have_the_last_owner(
    spec: TargetSpec,
    config: &RunnerConfig,
    registry: &TranslatorRegistry,
    plan: TargetPlan,
    i: int,
    team: Seq<char>,
)
    requires
        call_ensures(
            TargetPlan::derive,
            (spec, config, registry),
            Ok::<TargetPlan, String>(plan),
        ),
        0 <= i < spec.labels@.len(),
        carried(spec.labels@[i]@, "owner="@ + team),
        forall|j: int, other: Seq<char>|
            i < j < spec.labels@.len() ==> !carried(
                (#[trigger] spec.labels@[j])@,
                #[trigger] ("owner="@ + other),
            ),
    ensures
        plan.owner matches Owner::Team(t) && t@ == team,
{
    let labels = spec.labels@;
    crate::laws::labels::lemma_named(labels[i]@, "owner="@, team);
    lemma_owner_at(labels, labels.len(), i, team);
}

/// A plan has the time that its labels set, or the default; the owner and the batch mode of
/// its labels; and, where the labels contradict each other, a warning that names the target.
pub proof fn law_plans_have_the_time_of_their_labels(
    spec: TargetSpec,
    config: &RunnerConfig,
    registry: &TranslatorRegistry,
    labels: &[String],
    timeout: TestTimeout,
    owner: Owner,
    plan: TargetPlan,
)
    requires
        call_ensures(
            TargetPlan::derive,
            (spec, config, registry),
            Ok::<TargetPlan, String>(plan),
        ),
        labels@ == spec.labels@,
        call_ensures(policy::test_timeout, (labels,), timeout),
        call_ensures(policy::owner, (labels,), owner),
    ensures
        timeout is Default ==> plan.timeout == config.per_test_timeout,
        timeout matches TestTimeout::Fixed(d) ==> plan.timeout.total_millis() == d.total_millis(),
        plan.owner is Unowned <==> owner is Unowned,
        owner matches Owner::Team(team) ==> plan.owner is Team && plan.owner->Team_0@ == team@,
        plan.warning matches Some(warning) ==> warning@ == "quokka: conflict resolving labels for "@
            + spec.display@ + ": "@ + ("Constraint conflict: "@
            + "Cannot satisfy both gpu and large-mem hardware needs."@),
{
}

/// An override that does not name exactly one test is told, with how many tests it names.
pub proof fn law_unmatched_overrides_are_told(
    plan: &TargetPlan,
    config: &RunnerConfig,
    tests: &[TestCase],
    error: String,
)
    requires
        call_ensures(
            validate_cgroup_memory_overrides,
            (plan, config, tests),
            Err::<(), String>(error),
        ),
    ensures
        error@ == "cgroup memory overrides require a rust:big singleton target: "@
            + plan.spec.display@ || exists|i: int|
            0 <= i < config.cgroup_memory_max_overrides@.len() && (
            #[trigger] config.cgroup_memory_max_overrides@[i]).target@ == plan.spec.display@
                && tests_named(tests@, config.cgroup_memory_max_overrides@[i].test@) != 1 && (
            forall|k: int|
                0 <= k < i && (#[trigger] config.cgroup_memory_max_overrides@[k]).target@
                    == plan.spec.display@ ==> tests_named(
                    tests@,
                    config.cgroup_memory_max_overrides@[k].test@,
                ) == 1) && error@ == "cgroup memory override matched "@ + text::decimal(
                tests_named(tests@, config.cgroup_memory_max_overrides@[i].test@),
            ) + " tests, expected exactly one: "@ + plan.spec.display@ + "|"@
                + config.cgroup_memory_max_overrides@[i].test@,
{
    lemma_first_unmatched(config.cgroup_memory_max_overrides@, plan.spec.display@, tests@, 0);
}

proof fn lemma_first_unmatched(
    all: Seq<CgroupMemoryMaxOverride>,
    target: Seq<char>,
    tests: Seq<TestCase>,
    i: int,
)
    requires
        0 <= i <= all.len(),
    ensures
        plan::unmatched_override(all, target, tests, i) matches Some(at) ==> {
            &&& i <= at < all.len()
            &&& all[at].target@ == target
            &&& plan::name_count(tests, all[at].test@, tests.len()) == tests_named(
                tests,
                all[at].test@,
            )
            &&& tests_named(tests, all[at].test@) != 1
            &&& forall|k: int|
                i <= k < at && (#[trigger] all[k]).target@ == target ==> tests_named(
                    tests,
                    all[k].test@,
                ) == 1
        },
    decreases all.len() - i,
{
    if i < all.len() {
        lemma_first_unmatched(all, target, tests, i + 1);
        lemma_name_count(tests, all[i].test@, tests.len());
        assert(tests.take(tests.len() as int) =~= tests);
    }
}

proof fn lemma_owner_at(labels: Seq<String>, n: nat, i: int, team: Seq<char>)
    requires
        0 <= i < n <= labels.len(),
        policy::label_owner(labels[i]@) == Some(team),
        forall|j: int, other: Seq<char>|
            i < j < labels.len() ==> !carried(
                (#[trigger] labels[j])@,
                #[trigger] ("owner="@ + other),
            ),
    ensures
        policy::last_owner(labels, n) == Some(team),
    decreases n,
{
    if n - 1 > i {
        match policy::label_owner(labels[n - 1]@) {
            Some(other) => {
                crate::laws::labels::lemma_named(labels[n - 1]@, "owner="@, other);
                assert(!carried(labels[n - 1]@, "owner="@ + other));
            },
            None => {
                lemma_owner_at(labels, (n - 1) as nat, i, team);
            },
        }
    }
}

/// Where listings run: only a framework whose targets choose their executors is listed
/// elsewhere, on the executor for listings or, for debugging, on the local one.
pub proof fn law_listings_run_on_their_own_executor(
    plan: &TargetPlan,
    config: &RunnerConfig,
    r: SchedulingProfile,
)
    requires
        call_ensures(TargetPlan::listing_profile, (plan, config), r),
    ensures
        r.hardware.listing_only <==> plan.translator is CustomBinary && !config.local_debug,
        r.hardware.local_debug <==> plan.translator is CustomBinary && config.local_debug,
        !r.hardware.requires_gpu && !r.hardware.requires_large_mem && !r.hardware.network_isolated,
        r.exclusivity is Shared,
        forall|name: Seq<char>| !#[trigger] r.local_resources@.contains(name),
{
}

/// Where tests run: only a framework whose targets choose their executors has its own needs
/// met, or runs on the local executor for debugging. A host of its own a target gets in any
/// case.
pub proof fn law_only_custom_binaries_choose_their_executors(
    plan: &TargetPlan,
    config: &RunnerConfig,
    r: SchedulingProfile,
)
    requires
        call_ensures(TargetPlan::testing_profile, (plan, config), r),
    ensures
        r.exclusivity == plan.profile.exclusivity,
        !(plan.translator is CustomBinary) ==> !r.hardware.requires_gpu
            && !r.hardware.requires_large_mem && !r.hardware.network_isolated
            && !r.hardware.listing_only && !r.hardware.local_debug,
        plan.translator is CustomBinary && config.local_debug ==> r.hardware.local_debug
            && !r.hardware.requires_gpu && !r.hardware.requires_large_mem
            && !r.hardware.network_isolated && !r.hardware.listing_only,
        plan.translator is CustomBinary && !config.local_debug ==> r.hardware
            == plan.profile.hardware,
        forall|name: Seq<char>| #[trigger]
            r.local_resources@.contains(name) <==> plan.translator is CustomBinary
                && plan.profile.local_resources@.contains(name),
{
}

/// The built-in test types: Rust's harness, its documentation tests, and binaries of their
/// own making.
pub proof fn law_three_test_types_are_built_in(r: TranslatorRegistry, test_type: &str)
    requires
        call_ensures(TranslatorRegistry::new, (), r),
    ensures
        r@.contains_key(test_type@) <==> test_type@ == "rust"@ || test_type@ == "rust_doctest_v1"@
            || test_type@ == "custom_test_v1"@,
        r@["rust"@] is Libtest,
        r@["rust_doctest_v1"@] is Doctest,
        r@["custom_test_v1"@] is CustomBinary,
{
    reveal_strlit("rust");
    reveal_strlit("rust_doctest_v1");
    reveal_strlit("custom_test_v1");
    assert("rust"@.len() == 4);
    assert("rust_doctest_v1"@.len() == 15);
    assert("custom_test_v1"@.len() == 14);
}

/// A test type is handled by the framework that was registered for it, in the formats of the
/// configuration.
pub proof fn law_types_have_the_framework_registered(
    registry: &TranslatorRegistry,
    test_type: &str,
    config: &RunnerConfig,
    r: Option<FrameworkTranslator>,
)
    requires
        call_ensures(TranslatorRegistry::resolve, (registry, test_type, config), r),
    ensures
        r is Some <==> registry@.contains_key(test_type@),
        r matches Some(FrameworkTranslator::Libtest(t)) ==> registry@[test_type@] is Libtest
            && t.list_format == config.list_format && t.run_format == config.run_format,
        r matches Some(FrameworkTranslator::Doctest(t)) ==> registry@[test_type@] is Doctest
            && t.run_format == config.run_format,
        r matches Some(FrameworkTranslator::CustomBinary(t))
            ==> registry@[test_type@] is CustomBinary,
{
}

/// What the frameworks are like: only Rust's harness lists its tests and tells them apart in
/// its output; only a custom binary reads none of the harness's flags.
pub proof fn law_only_libtest_lists_its_tests(
    t: FrameworkTranslator,
    capability: DemuxCapability,
    strategy: ListingStrategy,
    flags: bool,
    overrides: bool,
)
    requires
        call_ensures(
            <FrameworkTranslator as Translator>::parser_capability,
            (&t,),
            capability,
        ),
        call_ensures(<FrameworkTranslator as Translator>::listing_strategy, (&t,), strategy),
        call_ensures(<FrameworkTranslator as Translator>::takes_libtest_flags, (&t,), flags),
        call_ensures(
            <FrameworkTranslator as Translator>::declares_executor_overrides,
            (&t,),
            overrides,
        ),
    ensures
        capability is NameAttributable <==> t is Libtest,
        strategy is PerTestListing <==> t is Libtest,
        t matches FrameworkTranslator::Libtest(l) ==> strategy == (ListingStrategy::PerTestListing {
            format: l.list_format,
        }),
        t is Doctest ==> (strategy matches ListingStrategy::WholeTarget { name } && name@
            == "<doctests>"@),
        t is CustomBinary ==> (strategy matches ListingStrategy::WholeBinary { name } && name@
            == "<binary>"@),
        flags <==> !(t is CustomBinary),
        overrides <==> t is CustomBinary,
{
}

// ---------------------------------------------------------------------------
// Memory overrides.

/// How many of some tests have a name.
pub open spec fn tests_named(tests: Seq<TestCase>, name: Seq<char>) -> nat {
    tests.filter(|t: TestCase| t.name@ == name).len()
}

proof fn lemma_name_count(tests: Seq<TestCase>, name: Seq<char>, n: nat)
    requires
        n <= tests.len(),
    ensures
        plan::name_count(tests, name, n) == tests_named(tests.take(n as int), name),
    decreases n,
{
    reveal(Seq::filter);
    if n > 0 {
        lemma_name_count(tests, name, (n - 1) as nat);
        assert(tests.take(n as int).drop_last() =~= tests.take(n - 1));
    }
}

/// The memory overrides of a target fit it where it has none; else it has to be a Rust target
/// labelled `rust:big`, and each of its overrides has to name exactly one of its tests.
pub proof fn law_overrides_name_exactly_one_test(
    plan: &TargetPlan,
    config: &RunnerConfig,
    tests: &[TestCase],
    r: Result<(), String>,
)
    requires
        call_ensures(validate_cgroup_memory_overrides, (plan, config, tests), r),
    ensures
        ({
            let all = config.cgroup_memory_max_overrides@;
            let target = plan.spec.display@;
            let any = exists|i: int| 0 <= i < all.len() && (#[trigger] all[i]).target@ == target;
            let admits = plan.spec.test_type@ == "rust"@ && exists|i: int|
                0 <= i < plan.spec.labels@.len() && (#[trigger] plan.spec.labels@[i])@
                    == "rust:big"@;
            &&& r is Ok <==> !any || (admits && forall|i: int|
                0 <= i < all.len() && (#[trigger] all[i]).target@ == target ==> tests_named(
                    tests@,
                    all[i].test@,
                ) == 1)
            &&& any && !admits ==> (r matches Err(e) && e@
                == "cgroup memory overrides require a rust:big singleton target: "@ + target)
        }),
{
    let all = config.cgroup_memory_max_overrides@;
    let target = plan.spec.display@;
    assert(tests@.take(tests@.len() as int) =~= tests@);
    assert(plan::has_override(all, target) == exists|i: int|
        0 <= i < all.len() && (#[trigger] all[i]).target@ == target);
    let labels = plan.spec.labels@;
    assert(text::views(labels).contains("rust:big"@) == exists|i: int|
        0 <= i < labels.len() && (#[trigger] labels[i])@ == "rust:big"@) by {
        if text::views(labels).contains("rust:big"@) {
            let i = choose|i: int|
                0 <= i < text::views(labels).len() && text::views(labels)[i] == "rust:big"@;
            assert(labels[i]@ == "rust:big"@);
        }
        if exists|i: int| 0 <= i < labels.len() && (#[trigger] labels[i])@ == "rust:big"@ {
            let i = choose|i: int|
                0 <= i < labels.len() && (#[trigger] labels[i])@ == "rust:big"@;
            assert(text::views(labels)[i] == "rust:big"@);
        }
    }
    lemma_unmatched(all, target, tests@, 0);
}

proof fn lemma_unmatched(
    all: Seq<CgroupMemoryMaxOverride>,
    target: Seq<char>,
    tests: Seq<TestCase>,
    i: int,
)
    requires
        0 <= i <= all.len(),
    ensures
        plan::unmatched_override(all, target, tests, i) is None <==> forall|k: int|
            i <= k < all.len() && (#[trigger] all[k]).target@ == target ==> tests_named(
                tests,
                all[k].test@,
            ) == 1,
    decreases all.len() - i,
{
    if i < all.len() {
        lemma_unmatched(all, target, tests, i + 1);
        lemma_name_count(tests, all[i].test@, tests.len());
        assert(tests.take(tests.len() as int) =~= tests);
        if all[i].target@ == target && plan::name_count(tests, all[i].test@, tests.len()) != 1 {
            assert(all[i].target@ == target);
        } else {
            if forall|k: int|
                i + 1 <= k < all.len() && (#[trigger] all[k]).target@ == target ==> tests_named(
                    tests,
                    all[k].test@,
                ) == 1 {
                assert forall|k: int|
                    i <= k < all.len() && (#[trigger] all[k]).target@ == target implies tests_named(
                    tests,
                    all[k].test@,
                ) == 1 by {}
            }
        }
    }
}

/// The targets of overrides that were not received are told, each once.
pub proof fn law_missing_override_targets_are_told(
    config: &RunnerConfig,
    received: &[String],
    r: Vec<String>,
    target: Seq<char>,
)
    requires
        call_ensures(missing_cgroup_override_targets, (config, received), r),
    ensures
        (exists|i: int| 0 <= i < r@.len() && (#[trigger] r@[i])@ == target) <==> (exists|i: int|
            0 <= i < config.cgroup_memory_max_overrides@.len() && (
            #[trigger] config.cgroup_memory_max_overrides@[i]).target@ == target) && !(exists|
            i: int,
        | 0 <= i < received@.len() && (#[trigger] received@[i])@ == target),
        forall|i: int, j: int|
            0 <= i < j < r@.len() ==> (#[trigger] r@[i])@ != (#[trigger] r@[j])@,
{
    let told = text::views(r@);
    let got = text::views(received@);
    assert(told.contains(target) == exists|i: int|
        0 <= i < r@.len() && (#[trigger] r@[i])@ == target) by {
        if exists|i: int| 0 <= i < r@.len() && (#[trigger] r@[i])@ == target {
            let i = choose|i: int| 0 <= i < r@.len() && (#[trigger] r@[i])@ == target;
            assert(told[i] == target);
        }
        if told.contains(target) {
            let i = choose|i: int| 0 <= i < told.len() && told[i] == target;
            assert(r@[i]@ == target);
        }
    }
    assert(got.contains(target) == exists|i: int|
        0 <= i < received@.len() && (#[trigger] received@[i])@ == target) by {
        if exists|i: int| 0 <= i < received@.len() && (#[trigger] received@[i])@ == target {
            let i = choose|i: int|
                0 <= i < received@.len() && (#[trigger] received@[i])@ == target;
            assert(got[i] == target);
        }
        if got.contains(target) {
            let i = choose|i: int| 0 <= i < got.len() && got[i] == target;
            assert(received@[i]@ == target);
        }
    }
    assert(told.to_set().contains(target) == told.contains(target));
    assert forall|i: int, j: int| 0 <= i < j < r@.len() implies (#[trigger] r@[i])@ != (
    #[trigger] r@[j])@ by {
        assert(text::text_lt(told[i], told[j]));
        text::lemma_text_lt_irreflexive(told[i]);
    }
}

// ---------------------------------------------------------------------------
// Specs.

/// A target is called `cell//package:target`.
pub proof fn law_targets_are_called_by_their_place(
    cell: &str,
    package: &str,
    target: &str,
    r: String,
)
    requires
        call_ensures(display_of, (cell, package, target), r),
    ensures
        r@ == cell@ + "//"@ + package@ + ":"@ + target@,
{
}

/// Whether an argument holds what a value of a spec says.
pub open spec fn holds(arg: CommandArg, value: Option<SpecValue>) -> bool {
    match value {
        Some(SpecValue::Verbatim(s)) => arg == CommandArg::Verbatim(s),
        Some(SpecValue::ArgHandle(i)) => arg == CommandArg::ArgHandle(i),
        Some(SpecValue::EnvHandle(s)) => arg == CommandArg::EnvHandle(s),
        None => false,
    }
}

/// Whether a variable stands in the environment of a spec.
pub open spec fn was_set(
    variable: (String, CommandArg),
    env: Seq<(String, ExternalRunnerSpecValue)>,
) -> bool {
    exists|j: int|
        0 <= j < env.len() && variable.0@ == (#[trigger] env[j]).0@ && holds(
            variable.1,
            env[j].1.value,
        )
}

/// Whether a variable of a spec stands in an environment that was read.
pub open spec fn is_set(
    variable: (String, ExternalRunnerSpecValue),
    env: Seq<(String, CommandArg)>,
) -> bool {
    exists|i: int|
        0 <= i < env.len() && variable.0@ == (#[trigger] env[i]).0@ && holds(
            env[i].1,
            variable.1.value,
        )
}

/// A spec is read as it stands: without a target or without a handle it is refused; else the
/// command keeps its order, every variable of the environment is there, in the order of the
/// keys, and labels, contacts and oncall are those of the spec.
pub proof fn law_specs_are_read_as_they_stand(
    spec: ExternalRunnerSpec,
    r: Result<TargetSpec, SpecError>,
)
    requires
        call_ensures(TargetSpec::from_proto, (spec,), r),
        crate::spec::is_readable(spec),
    ensures
        spec.target is None <==> r is Err && r->Err_0 is MissingTarget,
        spec.target is Some && spec.target->0.handle is None <==> r is Err
            && r->Err_0 is MissingHandle,
        r matches Ok(read) ==> {
            let target = spec.target->0;
            &&& read.handle.0 == target.handle->0.id
            &&& read.display@ == target.cell@ + "//"@ + target.package@ + ":"@ + target.target@
            &&& read.suite@ == read.display@
            &&& target.configuration@.len() == 0 <==> read.target_platform is None
            &&& read.target_platform matches Some(p) ==> p@ == target.configuration@
            &&& read.test_type@ == spec.test_type@
            &&& read.command@.len() == spec.command@.len()
            &&& forall|i: int|
                0 <= i < read.command@.len() ==> holds(
                    #[trigger] read.command@[i],
                    spec.command@[i].value,
                )
            &&& read.env@.len() == spec.env@.len()
            &&& forall|i: int|
                0 <= i < read.env@.len() ==> was_set(#[trigger] read.env@[i], spec.env@)
            &&& forall|j: int|
                0 <= j < spec.env@.len() ==> is_set(#[trigger] spec.env@[j], read.env@)
            &&& forall|i: int, j: int|
                0 <= i < j < read.env@.len() ==> !text::text_lt(
                    (#[trigger] read.env@[j]).0@,
                    (#[trigger] read.env@[i]).0@,
                )
            &&& read.labels@ == spec.labels@
            &&& read.contacts@ == spec.contacts@
            &&& read.oncall == spec.oncall
        },
{
    if let Ok(read) = r {
        let order = choose|order: Seq<int>| #[trigger]
            crate::spec::is_permutation(order, spec.env@.len()) && read.env@.len()
                == spec.env@.len() && forall|i: int|
                0 <= i < read.env@.len() ==> (#[trigger] read.env@[i]).0 == spec.env@[order[i]].0
                    && read.env@[i].1.is_value(spec.env@[order[i]].1);
        assert forall|i: int| 0 <= i < read.env@.len() implies was_set(
            #[trigger] read.env@[i],
            spec.env@,
        ) by {
            let j = order[i];
            assert(0 <= j < spec.env@.len());
            assert(read.env@[i].0@ == spec.env@[j].0@ && holds(
                read.env@[i].1,
                spec.env@[j].1.value,
            ));
        }
        assert forall|j: int| 0 <= j < spec.env@.len() implies is_set(
            #[trigger] spec.env@[j],
            read.env@,
        ) by {
            let i = crate::spec::lemma_permutation_reaches(order, spec.env@.len(), j);
            assert(read.env@[i].0 == spec.env@[order[i]].0);
        }
        assert forall|i: int| 0 <= i < read.command@.len() implies holds(
            #[trigger] read.command@[i],
            spec.command@[i].value,
        ) by {
            assert(read.command@[i].is_value(spec.command@[i]));
        }
    }
}

/// What is said of a spec that cannot be used.
pub proof fn law_unusable_specs_are_told(error: SpecError, r: String)
    requires
        call_ensures(SpecError::message, (&error,), r),
    ensures
        error is MissingTarget ==> r@ == "ExternalRunnerSpec missing target"@,
        error is MissingHandle ==> r@ == "ExternalRunnerSpec target missing handle"@,
{
}

/// A spec names its target only where it has a handle.
pub proof fn law_targets_without_a_handle_have_no_name(
    spec: &ExternalRunnerSpec,
    r: Option<String>,
)
    requires
        call_ensures(valid_spec_target_display, (spec,), r),
    ensures
        r is Some <==> spec.target is Some && spec.target->0.handle is Some,
        r matches Some(name) ==> name@ == spec.target->0.cell@ + "//"@ + spec.target->0.package@
            + ":"@ + spec.target->0.target@,
{
}

// ---------------------------------------------------------------------------
// Finding the tests.

/// A policy runs tests that are not ignored, those that are, or both.
pub proof fn law_policies_pick_by_the_ignored_mark(policy: IgnoredPolicy, ignored: bool, r: bool)
    requires
        call_ensures(IgnoredPolicy::selects, (policy, ignored), r),
    ensures
        policy is ExcludeIgnored ==> r == !ignored,
        policy is IncludeIgnored ==> r,
        policy is IgnoredOnly ==> r == ignored,
{
}

/// A target that is not listed runs as one test, which nothing ignores.
pub proof fn law_whole_targets_are_one_test(plan: &TargetPlan, r: Option<Vec<TestCase>>)
    requires
        call_ensures(whole_unit_tests, (plan,), r),
    ensures
        r is None <==> plan.translator is Libtest,
        r matches Some(tests) ==> {
            &&& tests@.len() == 1
            &&& plan.translator is Doctest ==> tests@[0].name@ == "<doctests>"@
            &&& plan.translator is CustomBinary ==> tests@[0].name@ == "<binary>"@
            &&& !tests@[0].ignored
            &&& tests@[0].kind is Test
        },
{
}

/// What an answer to a listing means. A wait in the queue that took too long is asked for
/// again, three calls in all; any other way not to list the tests fails the target, each with
/// a verdict of its own.
pub proof fn law_listings_fail_closed(
    plan: &TargetPlan,
    granularity: CgroupGranularity,
    format: translator::ListFormat,
    token: &ResourceMarkerToken,
    infra: u32,
    answer: Result<Execute2Outcome, String>,
    r: ListingStep,
)
    requires
        call_ensures(settle_listing, (plan, granularity, format, token, infra, answer), r),
    ensures
        r is Retry <==> answer is Ok && answer->Ok_0 is CancelledQueueTimeout && infra < 2,
        r matches ListingStep::Retry { infra_attempt } ==> infra_attempt == infra + 1,
        answer is Ok && answer->Ok_0 is CancelledQueueTimeout && infra >= 2 ==> discover::fails(
            r,
            TestVerdict::InfraFailure,
            "listing RE queue timeout (retries exhausted)"@,
        ),
        answer is Ok && answer->Ok_0 is CancelledUnspecified ==> discover::fails(
            r,
            TestVerdict::Omitted,
            "listing cancelled"@,
        ),
        answer matches Err(error) ==> discover::fails(
            r,
            TestVerdict::Fatal,
            "listing RPC failed: "@ + error@,
        ),
        r is Listed ==> answer is Ok && answer->Ok_0 is Completed && answer->Ok_0->Completed_0.status
            == (ProcessOutcome::Finished { exit_code: 0 }),
{
}

/// A listing that completed lists tests only where it exits with zero, writes text and ran
/// into no resource limit. A timeout is a timeout, any other exit is fatal, and a resource
/// limit fails the target by the place where it belongs.
pub proof fn law_completed_listings_list_only_after_a_clean_exit(
    plan: &TargetPlan,
    granularity: CgroupGranularity,
    format: translator::ListFormat,
    token: &ResourceMarkerToken,
    action: CompletedAction,
    stderr: &[u8],
    markers: Vec<ResourceFailure>,
    r: ListingStep,
)
    requires
        call_ensures(settle_listed, (plan, granularity, format, token, action), r),
        stderr@ == action.stderr@,
        call_ensures(execution::parse_resource_failures, (stderr, token), markers),
    ensures
        r is Listed <==> markers@.len() == 0 && action.status == (ProcessOutcome::Finished {
            exit_code: 0,
        }) && valid_utf8(action.stdout@),
        markers@.len() == 0 && action.status is TimedOut ==> discover::fails(
            r,
            TestVerdict::Timeout,
            "listing timed out"@,
        ),
        markers@.len() == 0 && (action.status matches ProcessOutcome::Finished { exit_code }
            && exit_code != 0) ==> r is Failed && r->status is Fatal,
        markers@.len() > 0 ==> r is Failed && {
            let status = r->status;
            let per_test = granularity is LogicalTest;
            match markers@[0] {
                ResourceFailure::LogicalTimeout { index, details } => if per_test && index == 0 {
                    status is Timeout
                } else {
                    status is InfraFailure
                },
                ResourceFailure::LogicalOom { index, details } => if per_test && index == 0 {
                    status is Fail
                } else {
                    status is InfraFailure
                },
                ResourceFailure::ActionTimeout { details } => if per_test {
                    status is InfraFailure
                } else {
                    status is Timeout
                },
                ResourceFailure::ActionOom { details } => if per_test {
                    status is InfraFailure
                } else {
                    status is Fail
                },
                ResourceFailure::Setup { details } => status is InfraFailure,
                ResourceFailure::Malformed { details } => status is InfraFailure,
            }
        },
{
    let views = execution::failure_views(markers@);
    assert(views.len() == markers@.len());
    if markers@.len() > 0 {
        assert(views[0] == markers@[0]@);
    }
}

/// The run takes on the tests of its shard once the memory overrides fit, and refuses the
/// target otherwise.
pub proof fn law_a_run_takes_on_the_tests_of_its_shard(
    plan: &TargetPlan,
    config: &RunnerConfig,
    tests: &[TestCase],
    display: &str,
    valid: Result<(), String>,
    kept: Vec<TestCase>,
    r: Result<Vec<TestCase>, String>,
    next: TargetStep,
)
    requires
        call_ensures(select_tests, (plan, config, tests), r),
        call_ensures(after_listing, (plan, config, tests), next),
        call_ensures(validate_cgroup_memory_overrides, (plan, config, tests), valid),
        display@ == plan.spec.display@,
        call_ensures(batches::shard_filter, (display, tests, config), kept),
    ensures
        r is Ok <==> valid is Ok,
        r matches Ok(taken) ==> taken@ == kept@,
        r matches Err(e) ==> e@ == valid->Err_0@,
        next is Refused <==> valid is Err,
        next is NothingToRun <==> valid is Ok && kept@.len() == 0,
        next is Shown <==> valid is Ok && kept@.len() > 0 && config.libtest_list_only,
        next is Kept <==> valid is Ok && kept@.len() > 0 && !config.libtest_list_only,
        next matches TargetStep::Kept(taken) ==> taken@ == kept@,
{
}

/// The tests of a target are known in the history by the target, their own names and the
/// variant.
pub proof fn law_discovered_tests_have_their_own_identity(
    plan: &TargetPlan,
    config: &RunnerConfig,
    tests: &[TestCase],
    r: Vec<TestIdentity>,
)
    requires
        call_ensures(discovered_ids, (plan, config, tests), r),
    ensures
        r@.len() == tests@.len(),
        forall|i: int|
            0 <= i < r@.len() ==> (#[trigger] r@[i]).target@ == plan.spec.display@ && r@[i].name@
                == tests@[i].name@ && r@[i].variant == config.variant,
{
}

/// A selection stands for the tests it names, or for all of them.
pub proof fn law_selections_stand_for_their_tests(
    selection: &TestSelection<String>,
    tests: &[TestCase],
    r: Vec<String>,
)
    requires
        call_ensures(expected_members, (selection, tests), r),
    ensures
        selection matches TestSelection::Explicit(names) ==> r@ == names@,
        selection is All ==> r@.len() == tests@.len() && forall|i: int|
            0 <= i < r@.len() ==> (#[trigger] r@[i])@ == tests@[i].name@,
{
}

/// Every batch runs as often as its target is repeated, one repetition after the other,
/// batch after batch; each is a fresh action for the tests of the batch.
pub proof fn law_batches_are_repeated_in_turn(
    batches: &[TestSelection<String>],
    kept: &[TestCase],
    repeats: u32,
    r: Vec<PlannedAction>,
    b: int,
    k: int,
)
    requires
        call_ensures(planned_actions, (batches, kept, repeats), r),
        0 <= b < batches@.len(),
        0 <= k < repeats,
    ensures
        r@.len() == batches@.len() * repeats,
        0 <= b * repeats + k < r@.len(),
        ({
            let planned = r@[b * repeats + k];
            &&& planned.repeat_index == k
            &&& planned.state.failure_attempt == 0
            &&& planned.state.execution_attempt == 0
            &&& planned.state.first_attempt_index == 0
            &&& planned.state.pending@ == planned.state.expected@
            &&& batches@[b] matches TestSelection::Explicit(names) ==> planned.state.expected@
                == names@
            &&& batches@[b] is All ==> planned.state.selection is All
                && planned.state.expected@.len() == kept@.len() && forall|i: int|
                0 <= i < kept@.len() ==> (#[trigger] planned.state.expected@[i])@ == kept@[i].name@
        }),
{
    let i = b * repeats + k;
    assert(0 <= i < batches@.len() * repeats) by (nonlinear_arith)
        requires
            i == b * repeats + k,
            0 <= b < batches@.len(),
            0 <= k < repeats,
    ;
    vstd::arithmetic::div_mod::lemma_fundamental_div_mod_converse(i, repeats as int, b, k);
    assert(discover::is_planned_at(batches@, kept@, repeats as nat, i, r@[i]));
}

} // verus!

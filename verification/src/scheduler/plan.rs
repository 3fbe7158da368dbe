//! The per-target policy, derived once from labels and configuration.

use vstd::prelude::*;

use crate::batching::BatchMode;
use crate::caching::{self, cache_class, CacheClass};
use crate::cli::RunnerConfig;
use crate::environment::{
    self, profile_from_labels, HardwareNeeds, ResourceSet, SchedulingProfile,
};
use crate::execution::CgroupMemoryMaxOverride;
use crate::listing::{IgnoredPolicy, TestCase};
use crate::policy::{
    self, owner, quarantine_status, retry_policy, test_timeout, Owner, QuarantineStatus,
    RetryPolicy,
};
use crate::proto::ExternalRunnerSpec;
use crate::spec::{self, display_of, TargetSpec};
use crate::text::{self, any_label, copy_strings, decimal_text, str_eq};
use crate::time::Duration;
use crate::translator::{
    self, FrameworkTranslator, ListingStrategy, Translator, TranslatorRegistry,
};
use crate::variant::RepeatKind;

verus! {

/// The per-target policy, derived once from labels and configuration.
#[derive(Debug)]
pub struct TargetPlan {
    pub spec: TargetSpec,
    pub translator: FrameworkTranslator,
    pub ignored: IgnoredPolicy,
    pub cache_class: CacheClass,
    pub retry: RetryPolicy,
    pub quarantine: QuarantineStatus,
    pub timeout: Duration,
    pub profile: SchedulingProfile,
    pub owner: Owner,
    pub batch_mode: Option<BatchMode>,
    /// Effective repetition for this target: the global `--stress` if set,
    /// otherwise stress implied by a `rust:stress` label, otherwise `Once`.
    pub repeat: RepeatKind,
    /// What to warn of: labels that contradict each other leave the target without
    /// constraints.
    pub warning: Option<String>,
}

/// The complaint about a test type that no translator knows.
pub open spec fn unknown_type(test_type: Seq<char>) -> Seq<char> {
    "no translator registered for test_type '"@ + test_type + "'"@
}

/// How often the tests of a target run: a global repetition goes before a label.
pub open spec fn is_repeat(labels: Seq<String>, config: RunnerConfig, repeat: RepeatKind) -> bool {
    if config.stress is Stress {
        repeat == config.stress
    } else if text::says(labels, "stress"@) {
        repeat == RepeatKind::Stress(config.stress_label_reps)
    } else {
        repeat == RepeatKind::Once
    }
}

/// Whether a profile is the one that labels ask for; contradicting labels ask for
/// nothing.
pub open spec fn is_profile(labels: Seq<String>, p: SchedulingProfile) -> bool {
    if environment::in_conflict(environment::hardware_of(labels)) {
        p.hardware == environment::no_needs() && p.exclusivity is Shared && p.local_resources@
            == Set::<Seq<char>>::empty()
    } else {
        p.hardware == environment::hardware_of(labels) && p.exclusivity is Exclusive == (text::says(
            labels,
            "exclusive"@,
        ) || text::says(labels, "serial_global_state"@)) && p.local_resources@
            == environment::resources_of(labels)
    }
}

/// The warning about labels that contradict each other.
pub open spec fn conflict_warning(display: Seq<char>) -> Seq<char> {
    "quokka: conflict resolving labels for "@ + display + ": "@ + ("Constraint conflict: "@
        + environment::hardware_conflict())
}

/// The timeout that labels set, or the default.
pub open spec fn is_timeout(labels: Seq<String>, default: Duration, timeout: Duration) -> bool {
    match policy::longest_timeout(labels, labels.len()) {
        Some(millis) => timeout.total_millis() == millis && timeout.spec_nanos() % 1_000_000 == 0,
        None => timeout == default,
    }
}

/// Whether a plan follows from the labels of its target and the configuration.
pub open spec fn is_plan(config: RunnerConfig, plan: TargetPlan) -> bool {
    let labels = plan.spec.labels@;
    &&& plan.ignored == config.ignored
    &&& plan.cache_class == (if caching::non_hermetic(labels) {
        CacheClass::Disabled
    } else {
        CacheClass::Cacheable
    })
    &&& plan.retry.spec_max_attempts() == (if policy::retryable(labels) && config.flaky_attempts
        > 1 {
        config.flaky_attempts
    } else {
        1
    })
    &&& plan.quarantine is Quarantined <==> text::says(labels, "quarantined"@)
    &&& is_timeout(labels, config.per_test_timeout, plan.timeout)
    &&& is_profile(labels, plan.profile)
    &&& plan.owner is Unowned <==> policy::last_owner(labels, labels.len()) is None
    &&& plan.owner matches Owner::Team(team) ==> policy::last_owner(labels, labels.len()) == Some(
        team@,
    )
    &&& plan.batch_mode == (if text::says(labels, "big"@) {
        Some(BatchMode::PerTest)
    } else {
        None
    })
    &&& is_repeat(labels, config, plan.repeat)
    &&& plan.warning is Some <==> environment::in_conflict(environment::hardware_of(labels))
    &&& plan.warning matches Some(warning) ==> warning@ == conflict_warning(plan.spec.display@)
}

/// The batch mode that labels force on a target.
pub fn target_batch_mode(labels: &[String]) -> (r: Option<BatchMode>)
    ensures
        r == (if text::says(labels@, "big"@) {
            Some(BatchMode::PerTest)
        } else {
            None::<BatchMode>
        }),
{
    if any_label(labels, "big") {
        Some(BatchMode::PerTest)
    } else {
        None
    }
}

fn profile_or_warning(labels: &[String], display: &str) -> (r: (SchedulingProfile, Option<String>))
    ensures
        is_profile(labels@, r.0),
        r.1 is Some <==> environment::in_conflict(environment::hardware_of(labels@)),
        r.1 matches Some(warning) ==> warning@ == conflict_warning(display@),
{
    match profile_from_labels(labels) {
        Ok(profile) => (profile, None),
        Err(conflict) => {
            let mut warning: String = "quokka: conflict resolving labels for ".to_owned();
            warning.push_str(display);
            warning.push_str(": ");
            warning.push_str(conflict.message().as_str());
            (SchedulingProfile::default(), Some(warning))
        },
    }
}

impl TargetPlan {
    /// Derives the plan of a target. A test type that no translator knows is an
    /// error.
    pub fn derive(spec: TargetSpec, config: &RunnerConfig, registry: &TranslatorRegistry) -> (r:
        Result<TargetPlan, String>)
        ensures
            r is Ok <==> registry@.contains_key(spec.test_type@),
            r matches Ok(plan) ==> plan.spec == spec && plan.translator
                == translator::translator_for(registry@[spec.test_type@], *config) && is_plan(
                *config,
                plan,
            ),
            r matches Err(reason) ==> reason@ == unknown_type(spec.test_type@),
    {
        let translator: FrameworkTranslator = match registry.resolve(
            spec.test_type.as_str(),
            config,
        ) {
            Some(translator) => translator,
            None => {
                let mut reason: String = "no translator registered for test_type '".to_owned();
                reason.push_str(spec.test_type.as_str());
                reason.push_str("'");
                return Err(reason);
            },
        };
        let labels: &[String] = spec.labels.as_slice();
        let repeat: RepeatKind = if config.stress.is_stress() {
            config.stress
        } else if any_label(labels, "stress") {
            RepeatKind::Stress(config.stress_label_reps)
        } else {
            RepeatKind::Once
        };
        let (profile, warning) = profile_or_warning(labels, spec.display.as_str());
        let cache_class: CacheClass = cache_class(labels);
        let retry: RetryPolicy = retry_policy(labels, config.flaky_attempts);
        let quarantine: QuarantineStatus = quarantine_status(labels);
        let timeout: Duration = test_timeout(labels).resolve(config.per_test_timeout);
        let owner: Owner = owner(labels);
        let batch_mode: Option<BatchMode> = target_batch_mode(labels);
        Ok(
            TargetPlan {
                spec,
                translator,
                ignored: config.ignored,
                cache_class,
                retry,
                quarantine,
                timeout,
                profile,
                owner,
                batch_mode,
                repeat,
                warning,
            },
        )
    }

    /// Where listings run: by default, except that a target that chooses its
    /// executors is listed on the listing executor, or on the local one for
    /// debugging.
    pub fn listing_profile(&self, config: &RunnerConfig) -> (r: SchedulingProfile)
        ensures
            r.hardware == listing_needs(self.translator.overrides_executors(), config.local_debug),
            r.exclusivity is Shared,
            r.local_resources@ == Set::<Seq<char>>::empty(),
    {
        let mut p: SchedulingProfile = SchedulingProfile::default();
        if !self.translator.declares_executor_overrides() {
        } else if config.local_debug {
            p.hardware.local_debug = true;
        } else {
            p.hardware.listing_only = true;
        }
        p
    }

    /// Where tests run: by default, except that a target that chooses its executors
    /// keeps its own needs, or runs on the local executor for debugging.
    pub fn testing_profile(&self, config: &RunnerConfig) -> (r: SchedulingProfile)
        ensures
            r.hardware == (if !self.translator.overrides_executors() {
                environment::no_needs()
            } else if config.local_debug {
                debug_needs()
            } else {
                self.profile.hardware
            }),
            r.exclusivity == self.profile.exclusivity,
            r.local_resources@ == (if !self.translator.overrides_executors() {
                Set::<Seq<char>>::empty()
            } else {
                self.profile.local_resources@
            }),
    {
        let mut p: SchedulingProfile = self.profile.clone();
        if !self.translator.declares_executor_overrides() {
            p.hardware = HardwareNeeds::default();
            p.local_resources = ResourceSet::new();
        } else if config.local_debug {
            p.hardware = HardwareNeeds::default();
            p.hardware.local_debug = true;
        }
        p
    }

    /// Whether failures of the target do not fail the run.
    pub fn quarantined(&self) -> (r: bool)
        ensures
            r == (self.quarantine is Quarantined),
    {
        matches!(self.quarantine, QuarantineStatus::Quarantined)
    }

    /// Whether the target runs as a whole, without a listing.
    pub fn runs_as_a_whole(&self) -> (r: bool)
        ensures
            r == !(self.translator.strategy() is PerTestListing),
    {
        !matches!(self.translator.listing_strategy(), ListingStrategy::PerTestListing { .. })
    }

    /// The arguments that go to the target's harness: all of the user's for a
    /// framework that reads libtest's flags, only the framework-agnostic ones for
    /// any other.
    pub open spec fn spec_user_args(self, config: RunnerConfig) -> Seq<String> {
        if self.translator.reads_libtest_flags() {
            config.spec_effective_libtest_args()
        } else {
            config.extra_test_args@
        }
    }

    /// The arguments that go to the target's harness.
    pub fn user_args(&self, config: &RunnerConfig) -> (r: Vec<String>)
        ensures
            r@ == self.spec_user_args(*config),
    {
        if self.translator.takes_libtest_flags() {
            config.effective_libtest_args()
        } else {
            copy_strings(config.extra_test_args.as_slice())
        }
    }
}

/// The needs of a run on the local executor for debugging.
pub open spec fn debug_needs() -> HardwareNeeds {
    HardwareNeeds { local_debug: true, ..environment::no_needs() }
}

/// The needs of a listing.
pub open spec fn listing_needs(overrides_executors: bool, local_debug: bool) -> HardwareNeeds {
    if !overrides_executors {
        environment::no_needs()
    } else if local_debug {
        debug_needs()
    } else {
        HardwareNeeds { listing_only: true, ..environment::no_needs() }
    }
}

// ---------------------------------------------------------------------------
// Memory overrides.

/// How many of the first `n` tests have a name.
pub open spec fn name_count(tests: Seq<TestCase>, name: Seq<char>, n: nat) -> nat
    decreases n,
{
    if n == 0 {
        0
    } else {
        name_count(tests, name, (n - 1) as nat) + if tests[n - 1].name@ == name {
            1nat
        } else {
            0nat
        }
    }
}

/// The first override for a target, from position `i` on, that does not match
/// exactly one of its tests.
pub open spec fn unmatched_override(
    overrides: Seq<CgroupMemoryMaxOverride>,
    target: Seq<char>,
    tests: Seq<TestCase>,
    i: int,
) -> Option<int>
    decreases overrides.len() - i,
{
    if i < 0 || i >= overrides.len() {
        None
    } else if overrides[i].target@ == target && name_count(
        tests,
        overrides[i].test@,
        tests.len(),
    ) != 1 {
        Some(i)
    } else {
        unmatched_override(overrides, target, tests, i + 1)
    }
}

/// Whether any override is for a target.
pub open spec fn has_override(overrides: Seq<CgroupMemoryMaxOverride>, target: Seq<char>) -> bool {
    exists|i: int| 0 <= i < overrides.len() && (#[trigger] overrides[i]).target@ == target
}

/// Whether a target may have memory overrides: a Rust target labelled `rust:big`,
/// whose tests run singly.
pub open spec fn admits_overrides(spec: TargetSpec) -> bool {
    spec.test_type@ == "rust"@ && text::views(spec.labels@).contains("rust:big"@)
}

/// What is wrong with the memory overrides of a target.
pub open spec fn override_error(
    spec: TargetSpec,
    overrides: Seq<CgroupMemoryMaxOverride>,
    tests: Seq<TestCase>,
) -> Option<Seq<char>> {
    if !has_override(overrides, spec.display@) {
        None
    } else if !admits_overrides(spec) {
        Some("cgroup memory overrides require a rust:big singleton target: "@ + spec.display@)
    } else {
        match unmatched_override(overrides, spec.display@, tests, 0) {
            Some(i) => Some(
                "cgroup memory override matched "@ + text::decimal(
                    name_count(tests, overrides[i].test@, tests.len()),
                ) + " tests, expected exactly one: "@ + overrides[i].target@ + "|"@
                    + overrides[i].test@,
            ),
            None => None,
        }
    }
}

fn count_named(tests: &[TestCase], name: &str) -> (r: usize)
    ensures
        r == name_count(tests@, name@, tests@.len()),
{
    let mut count: usize = 0;
    let mut i: usize = 0;
    while i < tests.len()
        invariant
            i <= tests.len(),
            count <= i,
            count == name_count(tests@, name@, i as nat),
        decreases tests.len() - i,
    {
        if str_eq(tests[i].name.as_str(), name) {
            count += 1;
        }
        i += 1;
    }
    count
}

fn holds_text(texts: &[String], what: &str) -> (r: bool)
    ensures
        r == text::views(texts@).contains(what@),
{
    let mut i: usize = 0;
    while i < texts.len()
        invariant
            i <= texts.len(),
            forall|k: int| 0 <= k < i ==> (#[trigger] texts@[k])@ != what@,
        decreases texts.len() - i,
    {
        if str_eq(texts[i].as_str(), what) {
            proof {
                assert(text::views(texts@)[i as int] == what@);
            }
            return true;
        }
        i += 1;
    }
    proof {
        assert forall|k: int| 0 <= k < text::views(texts@).len() implies text::views(texts@)[k]
            != what@ by {
            assert(texts@[k]@ != what@);
        }
    }
    false
}

fn is_overridden(overrides: &[CgroupMemoryMaxOverride], target: &str) -> (r: bool)
    ensures
        r == has_override(overrides@, target@),
{
    let mut i: usize = 0;
    while i < overrides.len()
        invariant
            i <= overrides.len(),
            forall|k: int| 0 <= k < i ==> (#[trigger] overrides@[k]).target@ != target@,
        decreases overrides.len() - i,
    {
        if str_eq(overrides[i].target.as_str(), target) {
            return true;
        }
        i += 1;
    }
    false
}

/// Checks the memory overrides of a target against its tests: each has to match
/// exactly one, and the target has to run its tests singly.
pub fn validate_cgroup_memory_overrides(
    plan: &TargetPlan,
    config: &RunnerConfig,
    tests: &[TestCase],
) -> (r: Result<(), String>)
    ensures
        r is Ok <==> override_error(
            plan.spec,
            config.cgroup_memory_max_overrides@,
            tests@,
        ) is None,
        r matches Err(error) ==> override_error(
            plan.spec,
            config.cgroup_memory_max_overrides@,
            tests@,
        ) == Some(error@),
{
    let overrides: &Vec<CgroupMemoryMaxOverride> = &config.cgroup_memory_max_overrides;
    let target: &str = plan.spec.display.as_str();
    if !is_overridden(overrides.as_slice(), target) {
        return Ok(());
    }
    if !str_eq(plan.spec.test_type.as_str(), "rust") || !holds_text(
        plan.spec.labels.as_slice(),
        "rust:big",
    ) {
        let mut error: String =
            "cgroup memory overrides require a rust:big singleton target: ".to_owned();
        error.push_str(target);
        return Err(error);
    }
    let mut i: usize = 0;
    while i < overrides.len()
        invariant
            i <= overrides.len(),
            target@ == plan.spec.display@,
            overrides@ == config.cgroup_memory_max_overrides@,
            has_override(overrides@, target@),
            admits_overrides(plan.spec),
            unmatched_override(overrides@, target@, tests@, 0) == unmatched_override(
                overrides@,
                target@,
                tests@,
                i as int,
            ),
        decreases overrides.len() - i,
    {
        if str_eq(overrides[i].target.as_str(), target) {
            let count: usize = count_named(tests, overrides[i].test.as_str());
            if count != 1 {
                let mut error: String = "cgroup memory override matched ".to_owned();
                error.push_str(decimal_text(count as u64).as_str());
                error.push_str(" tests, expected exactly one: ");
                error.push_str(overrides[i].target.as_str());
                error.push_str("|");
                error.push_str(overrides[i].test.as_str());
                return Err(error);
            }
        }
        i += 1;
    }
    Ok(())
}

/// The name of a target whose spec says what it is.
pub open spec fn display_in(spec: ExternalRunnerSpec) -> Option<Seq<char>> {
    match spec.target {
        Some(target) => if target.handle is Some {
            Some(spec::target_display(target.cell@, target.package@, target.target@))
        } else {
            None
        },
        None => None,
    }
}

/// The name of a target whose spec says what it is.
pub fn valid_spec_target_display(spec: &ExternalRunnerSpec) -> (r: Option<String>)
    ensures
        r is Some <==> display_in(*spec) is Some,
        r matches Some(display) ==> display_in(*spec) == Some(display@),
{
    match &spec.target {
        Some(target) => {
            if target.handle.is_some() {
                Some(
                    display_of(
                        target.cell.as_str(),
                        target.package.as_str(),
                        target.target.as_str(),
                    ),
                )
            } else {
                None
            }
        },
        None => None,
    }
}

/// The targets of overrides that were not received.
pub open spec fn missing_targets(
    overrides: Seq<CgroupMemoryMaxOverride>,
    received: Seq<String>,
) -> Set<Seq<char>> {
    Set::new(
        |target: Seq<char>|
            has_override(overrides, target) && !text::views(received).contains(target),
    )
}

/// The targets of overrides that were not received, each once, in order.
pub fn missing_cgroup_override_targets(config: &RunnerConfig, received: &[String]) -> (r: Vec<
    String,
>)
    ensures
        text::ascending(text::views(r@)),
        text::views(r@).to_set() == missing_targets(
            config.cgroup_memory_max_overrides@,
            received@,
        ),
{
    let overrides: &Vec<CgroupMemoryMaxOverride> = &config.cgroup_memory_max_overrides;
    let mut missing: ResourceSet = ResourceSet::new();
    let mut i: usize = 0;
    proof {
        assert(missing@ =~= missing_targets(overrides@.take(0), received@));
    }
    while i < overrides.len()
        invariant
            i <= overrides.len(),
            missing@ == missing_targets(overrides@.take(i as int), received@),
        decreases overrides.len() - i,
    {
        let ghost before = missing@;
        let target: &String = &overrides[i].target;
        if !holds_text(received, target.as_str()) {
            missing = missing.with(target.clone());
        }
        proof {
            let shorter = overrides@.take(i as int);
            let longer = overrides@.take(i + 1);
            assert forall|t: Seq<char>| has_override(longer, t) <==> (has_override(shorter, t)
                || overrides@[i as int].target@ == t) by {
                if has_override(longer, t) {
                    let k = choose|k: int|
                        0 <= k < longer.len() && (#[trigger] longer[k]).target@ == t;
                    if k < i {
                        assert(shorter[k].target@ == t);
                    }
                }
                if has_override(shorter, t) {
                    let k = choose|k: int|
                        0 <= k < shorter.len() && (#[trigger] shorter[k]).target@ == t;
                    assert(longer[k].target@ == t);
                }
                if overrides@[i as int].target@ == t {
                    assert(longer[i as int].target@ == t);
                }
            }
            assert(missing@ =~= missing_targets(longer, received@));
        }
        i += 1;
    }
    proof {
        assert(overrides@.take(i as int) =~= overrides@);
    }
    copy_strings(missing.names().as_slice())
}

} // verus!

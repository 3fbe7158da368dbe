//! The command, the environment and the mark of an action.

use vstd::prelude::*;
use vstd::utf8::*;

use crate::batching::TestSelection;
use crate::cli::RunnerConfig;
use crate::duration_db::DurationEstimate;
use crate::environment::{
    ConstraintConflictError, HardwareNeeds, ResourceSet, SchedulingProfile,
};
use crate::execution::{
    self, build_cmd, build_supervised_cmd, fnv1a, CgroupGranularity, CgroupMemoryMax,
    LogicalCommand, ResourceMarkerToken, TestingRequest,
};
use crate::laws::requests::{hands_back, lemma_most_nanos, lemma_verbatim, verbatim};
use crate::listing::IgnoredPolicy;
use crate::policy::RetryPolicy;
use crate::proto::{ArgValue, HostSharing, StageItem};
use crate::scheduler::discover::{self, prepare_listing, PreparedListing};
use crate::scheduler::group::{self, action_token, any_unseen, prepare_group, PreparedGroup};
use crate::scheduler::plan::TargetPlan;
use crate::spec::TargetSpec;
use crate::text;
use crate::time::Duration;
use crate::translator::{
    self, libtest_listing_args, FrameworkTranslator, ListFormat, Translator,
};

verus! {

// ---------------------------------------------------------------------------
// Scripts.

/// Arguments behind each other, each quoted for the shell.
pub open spec fn quoted_all(args: Seq<Seq<char>>) -> Seq<char>
    decreases args.len(),
{
    if args.len() == 0 {
        Seq::empty()
    } else {
        seq![' '] + execution::quoted(args[0]) + quoted_all(args.skip(1))
    }
}

/// The lines of a script that run some commands, one after the other.
pub open spec fn run_lines(commands: Seq<LogicalCommand>) -> Seq<char>
    decreases commands.len(),
{
    if commands.len() == 0 {
        Seq::empty()
    } else {
        "quokka_run_logical "@ + text::decimal(commands[0].index as nat) + " \"$@\""@ + quoted_all(
            text::views(commands[0].appended@),
        ) + " || overall_status=$?\n"@ + run_lines(commands.skip(1))
    }
}

/// The script of some commands: the supervision, its settings, and every command in order.
pub open spec fn script_of(
    supervisor: Seq<char>,
    granularity: CgroupGranularity,
    timeout: Duration,
    memory_max: CgroupMemoryMax,
    token: Seq<char>,
    lines: Seq<char>,
) -> Seq<char> {
    supervisor + "\nquokka_cgroup_granularity="@ + (if granularity is LogicalTest {
        "logical-test"@
    } else {
        "action"@
    }) + "\nquokka_logical_timeout_seconds="@ + text::decimal(timeout.spec_secs() as nat)
        + "\nquokka_memory_max_value="@ + execution::quoted(
        match memory_max {
            CgroupMemoryMax::Bytes(n) => text::decimal(n.spec_get() as nat),
            CgroupMemoryMax::Unlimited => "max"@,
        },
    ) + "\nquokka_resource_marker_token="@ + execution::quoted(token)
        + "\noverall_status=0\nquokka_begin_action\n"@ + lines
        + "quokka_finish_action \"$overall_status\"\n"@
}

proof fn lemma_quoted_push(args: Seq<Seq<char>>, last: Seq<char>)
    ensures
        quoted_all(args.push(last)) == quoted_all(args) + seq![' '] + execution::quoted(last),
    decreases args.len(),
{
    let all = args.push(last);
    if args.len() == 0 {
        assert(all.skip(1) =~= Seq::<Seq<char>>::empty());
        assert(quoted_all(all.skip(1)) =~= Seq::<char>::empty());
        assert(quoted_all(all) =~= quoted_all(args) + seq![' '] + execution::quoted(last));
    } else {
        assert(all.skip(1) =~= args.skip(1).push(last));
        lemma_quoted_push(args.skip(1), last);
        assert(quoted_all(all) =~= quoted_all(args) + seq![' '] + execution::quoted(last));
    }
}

proof fn lemma_quoted(args: Seq<String>)
    ensures
        execution::quoted_args(args) == quoted_all(text::views(args)),
    decreases args.len(),
{
    if args.len() > 0 {
        lemma_quoted(args.drop_last());
        assert(text::views(args) =~= text::views(args.drop_last()).push(args.last()@));
        lemma_quoted_push(text::views(args.drop_last()), args.last()@);
    } else {
        assert(text::views(args).len() == 0);
    }
}

proof fn lemma_lines_push(commands: Seq<LogicalCommand>, last: LogicalCommand)
    ensures
        run_lines(commands.push(last)) == run_lines(commands) + execution::logical_line(last),
    decreases commands.len(),
{
    lemma_quoted(last.appended@);
    let all = commands.push(last);
    if commands.len() == 0 {
        assert(all.skip(1) =~= Seq::<LogicalCommand>::empty());
        assert(run_lines(all.skip(1)) =~= Seq::<char>::empty());
        assert(run_lines(all) =~= run_lines(commands) + execution::logical_line(last));
    } else {
        assert(all.skip(1) =~= commands.skip(1).push(last));
        lemma_lines_push(commands.skip(1), last);
        assert(run_lines(all) =~= run_lines(commands) + execution::logical_line(last));
    }
}

proof fn lemma_lines(commands: Seq<LogicalCommand>)
    ensures
        execution::logical_lines(commands) == run_lines(commands),
    decreases commands.len(),
{
    if commands.len() > 0 {
        lemma_lines(commands.drop_last());
        assert(commands =~= commands.drop_last().push(commands.last()));
        lemma_lines_push(commands.drop_last(), commands.last());
    }
}

/// A script runs every command in order, each under its number and with all of its arguments
/// quoted, after the settings of the supervision.
pub proof fn law_scripts_run_every_command(
    base: Vec<ArgValue>,
    commands: Vec<LogicalCommand>,
    timeout: Duration,
    granularity: CgroupGranularity,
    memory_max: CgroupMemoryMax,
    token: &ResourceMarkerToken,
    supervisor: &str,
    r: Vec<ArgValue>,
)
    requires
        call_ensures(
            build_supervised_cmd,
            (base, commands, timeout, granularity, memory_max, token, supervisor),
            r,
        ),
        commands@.len() > 0,
    ensures
        verbatim(r@[2]) == Some(
            script_of(
                supervisor@,
                granularity,
                timeout,
                memory_max,
                token.0@,
                run_lines(commands@),
            ),
        ),
{
    lemma_verbatim(
        r@[2],
        execution::supervisor_script(
            supervisor@,
            commands@,
            timeout,
            granularity,
            memory_max,
            *token,
        ),
    );
    lemma_lines(commands@);
}

/// The command of a target is handed back as it came, with further arguments verbatim behind
/// it.
pub proof fn law_commands_are_handed_back(spec: &TargetSpec, appended: &[String], r: Vec<ArgValue>)
    requires
        call_ensures(build_cmd, (spec, appended), r),
    ensures
        r@.len() == spec.command@.len() + appended@.len(),
        forall|i: int|
            0 <= i < spec.command@.len() ==> hands_back(#[trigger] r@[i], spec.command@[i]),
        forall|i: int|
            0 <= i < appended@.len() ==> verbatim(#[trigger] r@[spec.command@.len() + i]) == Some(
                appended@[i]@,
            ),
{
    assert forall|i: int| 0 <= i < appended@.len() implies verbatim(
        #[trigger] r@[spec.command@.len() + i],
    ) == Some(appended@[i]@) by {
        lemma_verbatim(r@[spec.command@.len() + i], appended@[i]@);
    }
}

// ---------------------------------------------------------------------------
// Groups and listings.

/// Whether the command of a request is that of a target under one supervised command.
pub open spec fn runs_supervised(
    spec: TargetSpec,
    args: Seq<Seq<char>>,
    granularity: CgroupGranularity,
    timeout: Duration,
    memory_max: CgroupMemoryMax,
    token: Seq<char>,
    supervisor: Seq<char>,
    cmd: Seq<ArgValue>,
) -> bool {
    &&& cmd.len() == 4 + spec.command@.len()
    &&& verbatim(cmd[0]) == Some("/bin/sh"@)
    &&& verbatim(cmd[1]) == Some("-c"@)
    &&& verbatim(cmd[2]) == Some(
        script_of(
            supervisor,
            granularity,
            timeout,
            memory_max,
            token,
            "quokka_run_logical "@ + text::decimal(0) + " \"$@\""@ + quoted_all(args)
                + " || overall_status=$?\n"@,
        ),
    )
    &&& verbatim(cmd[3]) == Some("quokka-resource-supervisor"@)
    &&& forall|i: int|
        0 <= i < spec.command@.len() ==> hands_back(#[trigger] cmd[4 + i], spec.command@[i])
}

proof fn lemma_supervised(
    spec: TargetSpec,
    base: Seq<ArgValue>,
    commands: Seq<LogicalCommand>,
    granularity: CgroupGranularity,
    timeout: Duration,
    memory_max: CgroupMemoryMax,
    token: ResourceMarkerToken,
    supervisor: Seq<char>,
    cmd: Seq<ArgValue>,
)
    requires
        execution::is_cmd(spec, Seq::empty(), base),
        commands.len() == 1,
        commands[0].index == 0,
        execution::is_supervised(
            base,
            commands,
            execution::supervisor_script(
                supervisor,
                commands,
                timeout,
                granularity,
                memory_max,
                token,
            ),
            cmd,
        ),
    ensures
        runs_supervised(
            spec,
            text::views(commands[0].appended@),
            granularity,
            timeout,
            memory_max,
            token.0@,
            supervisor,
            cmd,
        ),
{
    let script = execution::supervisor_script(
        supervisor,
        commands,
        timeout,
        granularity,
        memory_max,
        token,
    );
    lemma_verbatim(cmd[0], "/bin/sh"@);
    lemma_verbatim(cmd[1], "-c"@);
    lemma_verbatim(cmd[2], script);
    lemma_verbatim(cmd[3], "quokka-resource-supervisor"@);
    lemma_lines(commands);
    let line = "quokka_run_logical "@ + text::decimal(0) + " \"$@\""@ + quoted_all(
        text::views(commands[0].appended@),
    ) + " || overall_status=$?\n"@;
    assert(run_lines(commands.skip(1)) =~= Seq::<char>::empty()) by {
        assert(commands.skip(1) =~= Seq::<LogicalCommand>::empty());
    }
    assert(run_lines(commands) =~= line);
    assert forall|i: int| 0 <= i < spec.command@.len() implies hands_back(
        #[trigger] cmd[4 + i],
        spec.command@[i],
    ) by {
        assert(cmd.skip(4)[i] == cmd[4 + i]);
        assert(base[i] == execution::echo(spec.command@[i]));
    }
}

/// What a group runs: the command of its target under supervision, with the arguments that
/// the framework gives its tests, and with the limits of the target and of the tests.
pub proof fn law_groups_run_their_own_tests(
    plan: &TargetPlan,
    config: &RunnerConfig,
    selection: &TestSelection<String>,
    names: &[String],
    repeat_index: u32,
    first: u32,
    infra: u32,
    estimates: &[DurationEstimate],
    supervisor: &str,
    overrides: &[execution::CgroupMemoryMaxOverride],
    display: &str,
    memory: Result<CgroupMemoryMax, String>,
    chosen: &[&str],
    user: Vec<String>,
    given: &[String],
    args: Vec<String>,
    r: PreparedGroup,
)
    requires
        call_ensures(
            prepare_group,
            (
                plan,
                config,
                selection,
                names,
                repeat_index,
                first,
                infra,
                estimates,
                supervisor,
            ),
            Ok::<PreparedGroup, String>(r),
        ),
        overrides@ == config.cgroup_memory_max_overrides@,
        display@ == plan.spec.display@,
        call_ensures(
            execution::cgroup_memory_max_for_action,
            (config.cgroup_memory_max, overrides, display, names),
            memory,
        ),
        selection is All ==> chosen@.len() == 0,
        selection matches TestSelection::Explicit(picked) ==> chosen@.len() == picked@.len()
            && forall|i: int| 0 <= i < chosen@.len() ==> (#[trigger] chosen@[i])@ == picked@[i]@,
        call_ensures(TargetPlan::user_args, (plan, config), user),
        given@ == user@,
        call_ensures(
            <FrameworkTranslator as Translator>::execution_args,
            (&plan.translator, chosen, plan.ignored, given),
            args,
        ),
    ensures
        memory is Ok,
        r.request.test_executable is Some,
        runs_supervised(
            plan.spec,
            text::views(args@),
            config.cgroup_granularity,
            plan.timeout,
            memory->Ok_0,
            r.token.0@,
            supervisor@,
            r.request.test_executable->0.cmd@,
        ),
        r.request.test_executable->0.env@.len() == plan.spec.env@.len() + config.extra_env@.len()
            + config.declared_output_env@.len(),
        selection is All ==> (r.request.test_executable->0.stage matches Some(stage)
            && stage.item matches Some(StageItem::Testing(testing)) && testing.testcases@.len()
            == 0),
{
    let caching = group::caching_for(
        *plan,
        *config,
        group::call_number(first, infra),
        group::bypasses_cache(*config, estimates@),
    );
    let memory_max = choose|memory_max: CgroupMemoryMax|
        group::is_memory_max(
            *plan,
            *config,
            names@,
            Ok::<CgroupMemoryMax, Seq<char>>(memory_max),
        ) && #[trigger] group::is_prepared(
            *plan,
            *config,
            *selection,
            repeat_index,
            caching,
            memory_max,
            supervisor@,
            r,
        );
    let req = choose|req: TestingRequest| #[trigger]
        group::is_group_request(
            *plan,
            *config,
            *selection,
            repeat_index,
            caching,
            memory_max,
            supervisor@,
            req,
        ) && execution::is_testing_request(req, r.request) && r.token
            == req.resource_marker_token;
    lemma_supervised(
        plan.spec,
        req.base_command@,
        req.commands@,
        config.cgroup_granularity,
        plan.timeout,
        memory_max,
        r.token,
        supervisor@,
        r.request.test_executable->0.cmd@,
    );
    assert(translator::name_texts(chosen@) =~= group::selected_names(*selection));
    assert(text::views(args@) == text::views(req.commands@[0].appended@));
}

/// What a listing runs: the command of its target under supervision with the arguments of a
/// listing, in the time for listings and a minute of grace; it is not kept in the cache.
pub proof fn law_listings_run_the_target(
    plan: &TargetPlan,
    config: &RunnerConfig,
    format: ListFormat,
    supervisor: &str,
    user: Vec<String>,
    given: &[String],
    args: Vec<String>,
    r: PreparedListing,
)
    requires
        call_ensures(prepare_listing, (plan, config, format, supervisor), r),
        call_ensures(TargetPlan::user_args, (plan, config), user),
        given@ == user@,
        call_ensures(libtest_listing_args, (plan.ignored, format, given), args),
    ensures
        r.request.test_executable is Some,
        runs_supervised(
            plan.spec,
            text::views(args@),
            config.cgroup_granularity,
            config.listing_timeout,
            config.cgroup_memory_max,
            r.token.0@,
            supervisor@,
            r.request.test_executable->0.cmd@,
        ),
        r.request.test_executable->0.stage matches Some(stage) && (stage.item matches Some(
            StageItem::Listing(listing),
        ) && listing.suite@ == plan.spec.suite@ && !listing.cacheable),
        r.request.test_executable->0.target matches Some(target) && target.id
            == plan.spec.handle.0,
        r.request.test_executable->0.env@.len() == plan.spec.env@.len() + config.extra_env@.len(),
        config.listing_timeout.total_nanos() + 60_000_000_000 < 0x7fff_ffff_ffff_ffff
            ==> (r.request.timeout matches Some(t) && t.seconds * 1_000_000_000 + t.nanos
            == config.listing_timeout.total_nanos() + 60_000_000_000),
        r.request.host_sharing_requirements matches Some(sharing) && sharing.requirements == Some(
            HostSharing::Shared { permits: 1 },
        ),
        plan.translator is CustomBinary && !config.local_debug ==> (
        r.request.executor_override matches Some(o) && o.name@ == "rust-listing"@),
        plan.translator is CustomBinary && config.local_debug ==> (
        r.request.executor_override matches Some(o) && o.name@ == "rust-local-debug"@),
        !(plan.translator is CustomBinary) ==> r.request.executor_override is None,
        r.request.required_local_resources@.len() == 0,
{
    let (profile, args0) = choose|profile: SchedulingProfile, args0: Seq<String>|
        discover::is_listing_profile(*plan, *config, profile) && text::views(args0)
            == discover::list_args(*plan, *config, format)
            && #[trigger] execution::is_listing_request(
            plan.spec,
            args0,
            profile,
            config.listing_timeout,
            config.cgroup_granularity,
            config.cgroup_memory_max,
            r.token,
            config.extra_env@,
            supervisor@,
            r.request,
        );
    let cmd = r.request.test_executable->0.cmd@;
    let (base, commands) = choose|base: Seq<ArgValue>, commands: Seq<LogicalCommand>|
        #![trigger execution::logical_lines(commands), base.len()]
        execution::is_cmd(plan.spec, Seq::empty(), base) && commands.len() == 1
            && commands[0].index == 0 && commands[0].appended@ == args0
            && execution::is_supervised(
            base,
            commands,
            execution::supervisor_script(
                supervisor@,
                commands,
                config.listing_timeout,
                config.cgroup_granularity,
                config.cgroup_memory_max,
                r.token,
            ),
            cmd,
        );
    lemma_supervised(
        plan.spec,
        base,
        commands,
        config.cgroup_granularity,
        config.listing_timeout,
        config.cgroup_memory_max,
        r.token,
        supervisor@,
        cmd,
    );
    let nanos = execution::action_timeout_nanos(config.listing_timeout, 1);
    assert(config.listing_timeout.total_nanos() * 1 == config.listing_timeout.total_nanos());
    assert(nanos == (nanos / 1_000_000_000) * 1_000_000_000 + nanos % 1_000_000_000);
    lemma_most_nanos();
    let names = execution::resource_names(r.request.required_local_resources@);
    if names.len() > 0 {
        assert(names.contains(names[0]));
        assert(names.to_set().contains(names[0]));
    }
}

/// Only a harness reads the user's harness flags.
pub proof fn law_only_harnesses_get_harness_flags(
    plan: &TargetPlan,
    config: &RunnerConfig,
    r: Vec<String>,
)
    requires
        call_ensures(TargetPlan::user_args, (plan, config), r),
    ensures
        plan.translator is CustomBinary ==> r@ == config.extra_test_args@,
        !(plan.translator is CustomBinary) ==> r@ == config.extra_test_args@
            + config.direct_libtest_args@,
{
}

/// A framework's arguments: those of the harness for the named tests, those of a whole target
/// for documentation tests, and for a binary of its own making the user's alone.
pub proof fn law_frameworks_have_their_own_arguments(
    t: FrameworkTranslator,
    names: &[&str],
    ignored: IgnoredPolicy,
    user: &[String],
    tests: Vec<String>,
    whole: Vec<String>,
    format: translator::RunFormat,
    r: Vec<String>,
)
    requires
        call_ensures(
            <FrameworkTranslator as Translator>::execution_args,
            (&t, names, ignored, user),
            r,
        ),
        t matches FrameworkTranslator::Libtest(l) ==> l.run_format == format,
        t matches FrameworkTranslator::Doctest(d) ==> d.run_format == format,
        call_ensures(translator::libtest_execution_args, (names, ignored, format, user), tests),
        call_ensures(translator::doctest_execution_args, (ignored, format, user), whole),
    ensures
        t is Libtest ==> text::views(r@) == text::views(tests@),
        t is Doctest ==> text::views(r@) == text::views(whole@),
        t is CustomBinary ==> text::views(r@) == text::views(user@),
{
}

/// A group with a test that has no history is one with an unseen test.
pub proof fn law_one_unseen_test_is_enough(estimates: &[DurationEstimate], r: bool)
    requires
        call_ensures(any_unseen, (estimates,), r),
    ensures
        r <==> exists|i: int| 0 <= i < estimates@.len() && (#[trigger] estimates@[i]) is Unseen,
{
}

// ---------------------------------------------------------------------------
// Marks.

/// A field with its length before it, in the bytes that are hashed.
pub open spec fn framed(field: Seq<char>) -> Seq<u8> {
    let bytes = encode_utf8(field);
    vstd::bytes::spec_u64_to_le_bytes(bytes.len() as u64).take((usize::BITS / 8) as int) + bytes
}

/// Fields behind each other, each with its length before it.
pub open spec fn all_framed(fields: Seq<Seq<char>>) -> Seq<u8>
    decreases fields.len(),
{
    if fields.len() == 0 {
        Seq::empty()
    } else {
        framed(fields[0]) + all_framed(fields.skip(1))
    }
}

proof fn lemma_fnv_joined(hash: u64, a: Seq<u8>, b: Seq<u8>)
    ensures
        execution::fnv(hash, a + b) == execution::fnv(execution::fnv(hash, a), b),
    decreases b.len(),
{
    if b.len() == 0 {
        assert(a + b =~= a);
    } else {
        assert((a + b).drop_last() =~= a + b.drop_last());
        lemma_fnv_joined(hash, a, b.drop_last());
    }
}

proof fn lemma_field(hash: u64, field: Seq<char>)
    ensures
        execution::field_hash(hash, field) == execution::fnv(hash, framed(field)),
{
    let bytes = encode_utf8(field);
    lemma_fnv_joined(hash, execution::length_bytes(bytes.len()), bytes);
}

proof fn lemma_framed_push(fields: Seq<Seq<char>>, last: Seq<char>)
    ensures
        all_framed(fields.push(last)) == all_framed(fields) + framed(last),
    decreases fields.len(),
{
    let all = fields.push(last);
    if fields.len() == 0 {
        assert(all.skip(1) =~= Seq::<Seq<char>>::empty());
        assert(all_framed(all.skip(1)) =~= Seq::<u8>::empty());
        assert(all_framed(all) =~= all_framed(fields) + framed(last));
    } else {
        assert(all.skip(1) =~= fields.skip(1).push(last));
        lemma_framed_push(fields.skip(1), last);
        assert(all_framed(all) =~= all_framed(fields) + framed(last));
    }
}

proof fn lemma_texts_hash(hash: u64, fields: Seq<Seq<char>>, n: nat)
    requires
        n <= fields.len(),
    ensures
        group::texts_hash(hash, fields, n) == execution::fnv(
            hash,
            all_framed(fields.take(n as int)),
        ),
    decreases n,
{
    if n > 0 {
        lemma_texts_hash(hash, fields, (n - 1) as nat);
        let before = fields.take(n - 1);
        assert(fields.take(n as int) =~= before.push(fields[n - 1]));
        lemma_framed_push(before, fields[n - 1]);
        lemma_field(execution::fnv(hash, all_framed(before)), fields[n - 1]);
        lemma_fnv_joined(hash, all_framed(before), framed(fields[n - 1]));
    }
}

/// The mark of an action is the FNV-1a hash, in sixteen hexadecimal digits, over the kind of
/// the action, its target and its arguments, each with its length before it.
pub proof fn law_actions_are_marked_by_what_they_run(
    domain: &str,
    target: &str,
    args: &[String],
    bytes: &[u8],
    hash: u64,
    r: ResourceMarkerToken,
)
    requires
        call_ensures(action_token, (domain, target, args), r),
        bytes@ == all_framed(seq![domain@, target@] + text::views(args@)),
        call_ensures(fnv1a, (0xcbf29ce484222325u64, bytes), hash),
    ensures
        r.0@ == text::hex(hash as nat, 16),
{
    let fields = seq![target@] + text::views(args@);
    let seed = 0xcbf29ce484222325u64;
    let all = seq![domain@, target@] + text::views(args@);
    assert(all[0] == domain@);
    assert(all.skip(1) =~= fields);
    lemma_field(seed, domain@);
    lemma_fnv_joined(seed, framed(domain@), all_framed(fields));
    lemma_texts_hash(execution::fnv(seed, framed(domain@)), fields, fields.len());
    assert(fields.take(fields.len() as int) =~= fields);
}

/// The mark of a group is that of a test action on its target, the mark of a listing that of
/// a listing on its target.
pub proof fn law_listings_have_their_own_mark(
    plan: &TargetPlan,
    config: &RunnerConfig,
    format: ListFormat,
    supervisor: &str,
    user: Vec<String>,
    given: &[String],
    args: Vec<String>,
    listed: &[String],
    domain: &str,
    display: &str,
    mark: ResourceMarkerToken,
    r: PreparedListing,
)
    requires
        call_ensures(prepare_listing, (plan, config, format, supervisor), r),
        call_ensures(TargetPlan::user_args, (plan, config), user),
        given@ == user@,
        call_ensures(libtest_listing_args, (plan.ignored, format, given), args),
        listed@ == args@,
        domain@ == "listing"@,
        display@ == plan.spec.display@,
        call_ensures(action_token, (domain, display, listed), mark),
    ensures
        r.token.0@ == mark.0@,
{
}

// ---------------------------------------------------------------------------
// Needs.

/// Needs together are what either asks for; a GPU and a large memory together are refused.
pub proof fn law_needs_add_up(
    a: HardwareNeeds,
    b: HardwareNeeds,
    r: Result<HardwareNeeds, ConstraintConflictError>,
)
    requires
        call_ensures(HardwareNeeds::combine, (a, b), r),
    ensures
        r is Err <==> (a.requires_gpu || b.requires_gpu) && (a.requires_large_mem
            || b.requires_large_mem),
        r is Err ==> r->Err_0.0@ == "Cannot satisfy both gpu and large-mem hardware needs."@,
        r matches Ok(both) ==> {
            &&& both.requires_gpu == (a.requires_gpu || b.requires_gpu)
            &&& both.requires_large_mem == (a.requires_large_mem || b.requires_large_mem)
            &&& both.network_isolated == (a.network_isolated || b.network_isolated)
            &&& both.listing_only == (a.listing_only || b.listing_only)
            &&& both.local_debug == (a.local_debug || b.local_debug)
        },
{
}

/// Profiles together have the needs and the resources of both, and a host to themselves
/// where either asks for that.
pub proof fn law_profiles_add_up(
    a: SchedulingProfile,
    b: SchedulingProfile,
    name: Seq<char>,
    r: Result<SchedulingProfile, ConstraintConflictError>,
)
    requires
        call_ensures(SchedulingProfile::combine, (a, b), r),
    ensures
        r is Err <==> (a.hardware.requires_gpu || b.hardware.requires_gpu) && (
        a.hardware.requires_large_mem || b.hardware.requires_large_mem),
        r matches Ok(both) ==> {
            &&& both.hardware.requires_gpu == (a.hardware.requires_gpu || b.hardware.requires_gpu)
            &&& both.hardware.requires_large_mem == (a.hardware.requires_large_mem
                || b.hardware.requires_large_mem)
            &&& both.hardware.network_isolated == (a.hardware.network_isolated
                || b.hardware.network_isolated)
            &&& both.hardware.listing_only == (a.hardware.listing_only || b.hardware.listing_only)
            &&& both.hardware.local_debug == (a.hardware.local_debug || b.hardware.local_debug)
            &&& both.exclusivity is Exclusive <==> a.exclusivity is Exclusive
                || b.exclusivity is Exclusive
            &&& both.local_resources@.contains(name) <==> a.local_resources@.contains(name)
                || b.local_resources@.contains(name)
        },
{
}

/// A policy grants at least one attempt, and a retry only with more than one.
pub proof fn law_one_attempt_is_no_retry(n: u32, policy: RetryPolicy, granted: u32, again: bool)
    requires
        call_ensures(RetryPolicy::new, (n,), policy),
        call_ensures(RetryPolicy::max_attempts, (policy,), granted),
        call_ensures(RetryPolicy::allows_retry, (policy,), again),
    ensures
        n >= 1 ==> granted == n,
        n == 0 ==> granted == 1,
        again <==> n >= 2,
{
}

/// A span several times over and more is exactly that long, or the longest that there is.
pub proof fn law_spans_are_multiplied(span: Duration, count: u32, extra: Duration, r: Duration)
    requires
        call_ensures(Duration::saturating_times_plus, (&span, count, &extra), r),
    ensures
        ({
            let longest = 0xffff_ffff_ffff_ffff * 1_000_000_000 + 999_999_999;
            let wanted = span.total_nanos() * count + extra.total_nanos();
            &&& wanted <= longest ==> r.total_nanos() == wanted
            &&& wanted > longest ==> r.total_nanos() == longest
        }),
{
}

/// A span has fewer than a thousand million nanoseconds beside its seconds.
pub proof fn law_spans_are_normal(secs: u64, nanos: u32, r: Option<Duration>)
    requires
        call_ensures(Duration::new, (secs, nanos), r),
    ensures
        r is Some <==> nanos < 1_000_000_000,
        r is Some ==> r->0.spec_secs() == secs && r->0.spec_nanos() == nanos,
{
}

// ---------------------------------------------------------------------------
// Resources.

/// Resources are a set: adding one adds it alone, two sets together hold what either holds,
/// and the names are those of the set, in order.
pub proof fn law_resources_are_a_set(
    a: ResourceSet,
    b: ResourceSet,
    name: String,
    other: Seq<char>,
    with: ResourceSet,
    both: ResourceSet,
    names: &Vec<String>,
    empty: bool,
)
    requires
        call_ensures(ResourceSet::with, (a, name), with),
        call_ensures(ResourceSet::union, (a, &b), both),
        call_ensures(ResourceSet::names, (&a,), names),
        call_ensures(ResourceSet::is_empty, (&a,), empty),
    ensures
        with@.contains(other) <==> other == name@ || a@.contains(other),
        both@.contains(other) <==> a@.contains(other) || b@.contains(other),
        (exists|i: int| 0 <= i < names@.len() && (#[trigger] names@[i])@ == other) <==> a@.contains(
            other,
        ),
        a@.contains(other) ==> !empty,
{
    let all = text::views(names@);
    if a@.contains(other) {
        assert(all.to_set().contains(other));
        let i = choose|i: int| 0 <= i < all.len() && all[i] == other;
        assert(names@[i]@ == other);
    }
    if exists|i: int| 0 <= i < names@.len() && (#[trigger] names@[i])@ == other {
        let i = choose|i: int| 0 <= i < names@.len() && (#[trigger] names@[i])@ == other;
        assert(all[i] == other);
        assert(all.contains(other));
        assert(all.to_set().contains(other));
    }
}

} // verus!

//! How the command line becomes a configuration.

use vstd::prelude::*;

use crate::batching::BatchMode;
use crate::cli::{
    self, invocation_from, outer_cli, outer_part, resolve_config, resolve_transport, tpx_config,
    tpx_part, tpx_table, CliError, DurationDbConfig, Invocation, OuterCli, RunnerConfig,
    SchedulerLimits, SessionContext, ShardSpec, Surroundings, TpxConfig, Transport,
};
use crate::execution::{CgroupMemoryMax, CgroupMemoryMaxOverride};
use crate::json;
use crate::listing::IgnoredPolicy;
use crate::options;
use crate::text;
use crate::translator::libtest_user_ignored_policies;

verus! {

// ---------------------------------------------------------------------------
// The argument list.

/// The first `--` parts the arguments: the outer flags stand before it, the runner's own
/// behind it. Without any behind it there is only the name of a program.
pub proof fn law_the_first_dashes_part_the_arguments(left: Seq<Seq<char>>, right: Seq<Seq<char>>)
    requires
        forall|i: int| 0 <= i < left.len() ==> #[trigger] left[i] != "--"@,
    ensures
        outer_part(left + seq!["--"@] + right) == left,
        right.len() > 0 ==> tpx_part(left + seq!["--"@] + right) == right,
        right.len() == 0 ==> tpx_part(left + seq!["--"@] + right) == seq!["tpx"@],
        outer_part(left) == left,
        tpx_part(left) == seq!["tpx"@],
{
    let all = left + seq!["--"@] + right;
    lemma_separator(all, left.len() as int, 0);
    lemma_no_separator(left, 0);
    assert(all.take(left.len() as int) =~= left);
    assert(all.skip(left.len() as int + 1) =~= right);
    assert(left.take(left.len() as int) =~= left);
}

proof fn lemma_separator(all: Seq<Seq<char>>, at: int, i: int)
    requires
        0 <= i <= at < all.len(),
        all[at] == "--"@,
        forall|k: int| 0 <= k < at ==> #[trigger] all[k] != "--"@,
    ensures
        cli::separator(all, i) == at,
    decreases at - i,
{
    if i < at {
        assert(all[i] != "--"@);
        lemma_separator(all, at, i + 1);
    }
}

proof fn lemma_no_separator(all: Seq<Seq<char>>, i: int)
    requires
        0 <= i <= all.len(),
        forall|k: int| 0 <= k < all.len() ==> #[trigger] all[k] != "--"@,
    ensures
        cli::separator(all, i) == all.len(),
    decreases all.len() - i,
{
    if i < all.len() {
        assert(all[i] != "--"@);
        lemma_no_separator(all, i + 1);
    }
}

/// Whether the options of the runner's part hold one of a name with a default.
pub open spec fn defaults_to(name: Seq<char>, default: Seq<char>) -> bool {
    exists|i: int|
        0 <= i < tpx_table().len() && (#[trigger] tpx_table()[i]).long == Some(name)
            && tpx_table()[i].id == name && tpx_table()[i].default == Some(default)
}

/// The defaults of the runner's options.
pub proof fn law_options_have_their_defaults()
    ensures
        defaults_to("timeout"@, "600"@),
        defaults_to("listing-timeout"@, "600"@),
        defaults_to("cgroup-granularity"@, "action"@),
        defaults_to("list-format"@, "json"@),
        defaults_to("run-format"@, "json"@),
        defaults_to("batch-mode"@, "fixed-chunk"@),
        defaults_to("chunk-size"@, "32"@),
        defaults_to("batch-threshold-ms"@, "20"@),
        defaults_to("batch-failure-policy"@, "isolate"@),
        defaults_to("variant"@, "default"@),
        defaults_to("stress"@, "0"@),
        defaults_to("stress-label-reps"@, "50"@),
        defaults_to("shard-index"@, "0"@),
        defaults_to("shard-count"@, "1"@),
        defaults_to("flaky-attempts"@, "3"@),
        defaults_to("cas-inline-limit"@, "65536"@),
        defaults_to("max-inflight-test-actions"@, "2000"@),
        defaults_to("max-inflight-listings"@, "256"@),
        defaults_to("max-inflight-per-target"@, "128"@),
{
    assert(tpx_table()[4].long == Some("timeout"@));
    assert(tpx_table()[5].long == Some("listing-timeout"@));
    assert(tpx_table()[6].long == Some("cgroup-granularity"@));
    assert(tpx_table()[11].long == Some("list-format"@));
    assert(tpx_table()[12].long == Some("run-format"@));
    assert(tpx_table()[13].long == Some("batch-mode"@));
    assert(tpx_table()[14].long == Some("chunk-size"@));
    assert(tpx_table()[15].long == Some("batch-threshold-ms"@));
    assert(tpx_table()[16].long == Some("batch-failure-policy"@));
    assert(tpx_table()[17].long == Some("variant"@));
    assert(tpx_table()[18].long == Some("stress"@));
    assert(tpx_table()[19].long == Some("stress-label-reps"@));
    assert(tpx_table()[20].long == Some("shard-index"@));
    assert(tpx_table()[21].long == Some("shard-count"@));
    assert(tpx_table()[23].long == Some("flaky-attempts"@));
    assert(tpx_table()[27].long == Some("cas-inline-limit"@));
    assert(tpx_table()[28].long == Some("max-inflight-test-actions"@));
    assert(tpx_table()[29].long == Some("max-inflight-listings"@));
    assert(tpx_table()[30].long == Some("max-inflight-per-target"@));
}

// ---------------------------------------------------------------------------
// Values.

/// Whether values give an option certain texts: the first that stand under its name.
pub open spec fn gives(
    values: Seq<(String, Vec<String>)>,
    id: Seq<char>,
    texts: Seq<Seq<char>>,
) -> bool {
    exists|i: int|
        0 <= i < values.len() && (#[trigger] values[i]).0@ == id && text::views(values[i].1@)
            == texts && forall|k: int| 0 <= k < i ==> (#[trigger] values[k]).0@ != id
}

proof fn lemma_gives(values: Seq<(String, Vec<String>)>, id: Seq<char>, texts: Seq<Seq<char>>)
    requires
        gives(values, id, texts),
    ensures
        options::texts_at(options::value_views(values), id) == texts,
{
    let i = choose|i: int|
        0 <= i < values.len() && (#[trigger] values[i]).0@ == id && text::views(values[i].1@)
            == texts && forall|k: int| 0 <= k < i ==> (#[trigger] values[k]).0@ != id;
    lemma_gives_from(values, id, i, 0);
    let all = options::value_views(values);
    assert(all.skip(0) =~= all);
}

proof fn lemma_gives_from(values: Seq<(String, Vec<String>)>, id: Seq<char>, at: int, i: int)
    requires
        0 <= i <= at < values.len(),
        values[at].0@ == id,
        forall|k: int| 0 <= k < at ==> (#[trigger] values[k]).0@ != id,
    ensures
        options::texts_at(options::value_views(values).skip(i), id) == text::views(values[at].1@),
    decreases at - i,
{
    let all = options::value_views(values);
    assert(all.skip(i)[0] == all[i]);
    assert(all.skip(i).skip(1) =~= all.skip(i + 1));
    if i < at {
        assert(values[i].0@ != id);
        lemma_gives_from(values, id, at, i + 1);
    }
}

/// The outer flags are read under their own names.
pub proof fn law_outer_flags_are_read_under_their_names(
    values: &[(String, Vec<String>)],
    c: OuterCli,
    texts: Seq<Seq<char>>,
)
    requires
        call_ensures(outer_cli, (values,), Ok::<OuterCli, CliError>(c)),
        texts.len() > 0,
    ensures
        gives(values@, "buck-trace-id"@, texts) ==> (c.buck_trace_id matches Some(t) && t@
            == texts[0]),
        gives(values@, "config-entry"@, texts) ==> text::views(c.config_entry@) == texts,
        gives(values@, "executor-addr"@, texts) ==> (c.executor_addr matches Some(t) && t@
            == texts[0]),
        gives(values@, "orchestrator-addr"@, texts) ==> (c.orchestrator_addr matches Some(t) && t@
            == texts[0]),
        forall|n: nat|
            n <= 0x7fff_ffff && gives(values@, "executor-fd"@, texts) && texts[0]
                == #[trigger] text::decimal(n) ==> c.executor_fd == Some(n as i32),
        forall|n: nat|
            n <= 0x7fff_ffff && gives(values@, "orchestrator-fd"@, texts) && texts[0]
                == #[trigger] text::decimal(n) ==> c.orchestrator_fd == Some(n as i32),
{
    if gives(values@, "buck-trace-id"@, texts) {
        lemma_gives(values@, "buck-trace-id"@, texts);
    }
    if gives(values@, "config-entry"@, texts) {
        lemma_gives(values@, "config-entry"@, texts);
    }
    if gives(values@, "executor-addr"@, texts) {
        lemma_gives(values@, "executor-addr"@, texts);
    }
    if gives(values@, "orchestrator-addr"@, texts) {
        lemma_gives(values@, "orchestrator-addr"@, texts);
    }
    if gives(values@, "executor-fd"@, texts) {
        lemma_gives(values@, "executor-fd"@, texts);
    }
    if gives(values@, "orchestrator-fd"@, texts) {
        lemma_gives(values@, "orchestrator-fd"@, texts);
    }
    assert forall|n: nat|
        n <= 0x7fff_ffff && texts[0] == #[trigger] text::decimal(n) implies options::integer_between(
        texts[0],
        -0x8000_0000,
        0x7fff_ffff,
    ) == Some(n as int) by {
        lemma_number(n, 0x7fff_ffff);
    }
}

/// A number in its usual spelling is read as that number.
pub proof fn lemma_number(n: nat, max: nat)
    requires
        n <= max,
    ensures
        text::parse_unsigned(text::decimal(n), max) == Some(n),
        text::decimal(n).len() > 0 && text::decimal(n)[0] != '-',
{
    text::lemma_decimal_reads_back(n);
    let s = text::decimal(n);
    assert(text::is_digit(s[0]));
    assert(text::unsigned_body(s) == s);
}

/// The runner's options are read under their own names.
pub proof fn law_options_are_read_under_their_names(
    values: &[(String, Vec<String>)],
    c: TpxConfig,
    texts: Seq<Seq<char>>,
)
    requires
        call_ensures(tpx_config, (values,), Ok::<TpxConfig, CliError>(c)),
        texts.len() > 0,
    ensures
        gives(values@, "env"@, texts) ==> text::views(c.env@) == texts,
        gives(values@, "declared-output-env"@, texts) ==> text::views(c.declared_output_env@)
            == texts,
        gives(values@, "test-arg"@, texts) ==> text::views(c.test_arg@) == texts,
        gives(values@, "cgroup-granularity"@, texts) ==> c.cgroup_granularity@ == texts[0],
        gives(values@, "cgroup-memory-max-override"@, texts) ==> text::views(
            c.cgroup_memory_max_overrides@,
        ) == texts,
        gives(values@, "list-format"@, texts) ==> c.list_format@ == texts[0],
        gives(values@, "run-format"@, texts) ==> c.run_format@ == texts[0],
        gives(values@, "batch-mode"@, texts) ==> c.batch_mode@ == texts[0],
        gives(values@, "batch-failure-policy"@, texts) ==> c.batch_failure_policy@ == texts[0],
        gives(values@, "variant"@, texts) ==> c.variant@ == texts[0],
        gives(values@, "duration-db"@, texts) ==> (c.duration_db matches Some(t) && t@ == texts[0]),
        gives(values@, "ci-test-report-json"@, texts) ==> (c.ci_test_report_json matches Some(t)
            && t@ == texts[0]),
        gives(values@, "logfile"@, texts) ==> (c.libtest_logfile matches Some(t) && t@ == texts[0]),
        gives(values@, "test-threads"@, texts) ==> (c.libtest_test_threads matches Some(t) && t@
            == texts[0]),
        gives(values@, "skip"@, texts) ==> text::views(c.libtest_skip@) == texts,
        gives(values@, "color"@, texts) ==> (c.libtest_color matches Some(t) && t@ == texts[0]),
        gives(values@, "format"@, texts) ==> (c.libtest_format matches Some(t) && t@ == texts[0]),
        gives(values@, "Z"@, texts) ==> text::views(c.libtest_unstable_options@) == texts,
        gives(values@, "shuffle-seed"@, texts) ==> (c.libtest_shuffle_seed matches Some(t) && t@
            == texts[0]),
        gives(values@, "FILTER"@, texts) ==> text::views(c.libtest_filters@) == texts,
{
    lemma_if_given(values@, "env"@, texts);
    lemma_if_given(values@, "declared-output-env"@, texts);
    lemma_if_given(values@, "test-arg"@, texts);
    lemma_if_given(values@, "cgroup-granularity"@, texts);
    lemma_if_given(values@, "cgroup-memory-max-override"@, texts);
    lemma_if_given(values@, "list-format"@, texts);
    lemma_if_given(values@, "run-format"@, texts);
    lemma_if_given(values@, "batch-mode"@, texts);
    lemma_if_given(values@, "batch-failure-policy"@, texts);
    lemma_if_given(values@, "variant"@, texts);
    lemma_if_given(values@, "duration-db"@, texts);
    lemma_if_given(values@, "ci-test-report-json"@, texts);
    lemma_if_given(values@, "logfile"@, texts);
    lemma_if_given(values@, "test-threads"@, texts);
    lemma_if_given(values@, "skip"@, texts);
    lemma_if_given(values@, "color"@, texts);
    lemma_if_given(values@, "format"@, texts);
    lemma_if_given(values@, "Z"@, texts);
    lemma_if_given(values@, "shuffle-seed"@, texts);
    lemma_if_given(values@, "FILTER"@, texts);
}

proof fn lemma_if_given(values: Seq<(String, Vec<String>)>, id: Seq<char>, texts: Seq<Seq<char>>)
    ensures
        gives(values, id, texts) ==> options::texts_at(options::value_views(values), id) == texts,
{
    if gives(values, id, texts) {
        lemma_gives(values, id, texts);
    }
}

/// Numbers are read under their own names, as they are spelled.
pub proof fn law_numbers_are_read_under_their_names(
    values: &[(String, Vec<String>)],
    c: TpxConfig,
    n: nat,
)
    requires
        call_ensures(tpx_config, (values,), Ok::<TpxConfig, CliError>(c)),
        n <= 0xffff,
    ensures
        ({
            let texts = seq![text::decimal(n)];
            &&& gives(values@, "timeout"@, texts) ==> c.timeout == n
            &&& gives(values@, "listing-timeout"@, texts) ==> c.listing_timeout == n
            &&& gives(values@, "chunk-size"@, texts) ==> c.chunk_size == n
            &&& gives(values@, "batch-threshold-ms"@, texts) ==> c.batch_threshold_ms == n
            &&& gives(values@, "stress"@, texts) ==> c.stress == n
            &&& gives(values@, "stress-label-reps"@, texts) ==> c.stress_label_reps == n
            &&& gives(values@, "shard-index"@, texts) ==> c.shard_index == n
            &&& gives(values@, "shard-count"@, texts) ==> c.shard_count == n
            &&& gives(values@, "flaky-attempts"@, texts) ==> c.flaky_attempts == n
            &&& gives(values@, "cas-inline-limit"@, texts) ==> c.cas_inline_limit == n
            &&& gives(values@, "max-inflight-test-actions"@, texts) ==> c.max_inflight_test_actions
                == n
            &&& gives(values@, "max-inflight-listings"@, texts) ==> c.max_inflight_listings == n
            &&& gives(values@, "max-inflight-per-target"@, texts) ==> c.max_inflight_per_target
                == n
        }),
{
    let texts = seq![text::decimal(n)];
    assert(texts[0] == text::decimal(n));
    lemma_number(n, u64::MAX as nat);
    lemma_number(n, usize::MAX as nat);
    lemma_number(n, u32::MAX as nat);
    lemma_number(n, u16::MAX as nat);
    lemma_if_given(values@, "timeout"@, texts);
    lemma_if_given(values@, "listing-timeout"@, texts);
    lemma_if_given(values@, "chunk-size"@, texts);
    lemma_if_given(values@, "batch-threshold-ms"@, texts);
    lemma_if_given(values@, "stress"@, texts);
    lemma_if_given(values@, "stress-label-reps"@, texts);
    lemma_if_given(values@, "shard-index"@, texts);
    lemma_if_given(values@, "shard-count"@, texts);
    lemma_if_given(values@, "flaky-attempts"@, texts);
    lemma_if_given(values@, "cas-inline-limit"@, texts);
    lemma_if_given(values@, "max-inflight-test-actions"@, texts);
    lemma_if_given(values@, "max-inflight-listings"@, texts);
    lemma_if_given(values@, "max-inflight-per-target"@, texts);
}

/// Flags are read under their own names: each is on only where its text says so.
pub proof fn law_flags_are_read_under_their_names(
    values: &[(String, Vec<String>)],
    c: TpxConfig,
    said: Seq<char>,
)
    requires
        call_ensures(tpx_config, (values,), Ok::<TpxConfig, CliError>(c)),
    ensures
        ({
            let texts = seq![said];
            let on = said == "true"@;
            &&& gives(values@, "include-ignored"@, texts) ==> c.include_ignored == on
            &&& gives(values@, "ignored"@, texts) ==> c.ignored == on
            &&& gives(values@, "ignored-only"@, texts) ==> c.ignored_only == on
            &&& gives(values@, "local-debug"@, texts) ==> c.local_debug == on
            &&& gives(values@, "no-duration-db"@, texts) ==> c.no_duration_db == on
            &&& gives(values@, "force-run-in-process"@, texts) ==> c.libtest_force_run_in_process
                == on
            &&& gives(values@, "exclude-should-panic"@, texts) ==> c.libtest_exclude_should_panic
                == on
            &&& gives(values@, "test"@, texts) ==> c.libtest_test == on
            &&& gives(values@, "bench"@, texts) ==> c.libtest_bench == on
            &&& gives(values@, "list"@, texts) ==> c.libtest_list == on
            &&& gives(values@, "fail-fast"@, texts) ==> c.libtest_fail_fast == on
            &&& gives(values@, "help"@, texts) ==> c.libtest_help == on
            &&& gives(values@, "no-capture"@, texts) ==> c.libtest_no_capture == on
            &&& gives(values@, "quiet"@, texts) ==> c.libtest_quiet == on
            &&& gives(values@, "exact"@, texts) ==> c.libtest_exact == on
            &&& gives(values@, "show-output"@, texts) ==> c.libtest_show_output == on
            &&& gives(values@, "report-time"@, texts) ==> c.libtest_report_time == on
            &&& gives(values@, "ensure-time"@, texts) ==> c.libtest_ensure_time == on
            &&& gives(values@, "shuffle"@, texts) ==> c.libtest_shuffle == on
        }),
{
    let texts = seq![said];
    assert(texts[0] == said);
    lemma_if_given(values@, "include-ignored"@, texts);
    lemma_if_given(values@, "ignored"@, texts);
    lemma_if_given(values@, "ignored-only"@, texts);
    lemma_if_given(values@, "local-debug"@, texts);
    lemma_if_given(values@, "no-duration-db"@, texts);
    lemma_if_given(values@, "force-run-in-process"@, texts);
    lemma_if_given(values@, "exclude-should-panic"@, texts);
    lemma_if_given(values@, "test"@, texts);
    lemma_if_given(values@, "bench"@, texts);
    lemma_if_given(values@, "list"@, texts);
    lemma_if_given(values@, "fail-fast"@, texts);
    lemma_if_given(values@, "help"@, texts);
    lemma_if_given(values@, "no-capture"@, texts);
    lemma_if_given(values@, "quiet"@, texts);
    lemma_if_given(values@, "exact"@, texts);
    lemma_if_given(values@, "show-output"@, texts);
    lemma_if_given(values@, "report-time"@, texts);
    lemma_if_given(values@, "ensure-time"@, texts);
    lemma_if_given(values@, "shuffle"@, texts);
}

// ---------------------------------------------------------------------------
// What the arguments come to.

/// The two channels are connected by file descriptors where both are there, else by
/// addresses where both are there, else not at all.
pub proof fn law_descriptors_go_before_addresses(outer: &OuterCli, r: Result<Transport, CliError>)
    requires
        call_ensures(resolve_transport, (outer,), r),
    ensures
        outer.executor_fd is Some && outer.orchestrator_fd is Some ==> r is Ok && r->Ok_0 == (
        Transport::UnixFds {
            executor_fd: outer.executor_fd->0,
            orchestrator_fd: outer.orchestrator_fd->0,
        }),
        !(outer.executor_fd is Some && outer.orchestrator_fd is Some) && outer.executor_addr is Some
            && outer.orchestrator_addr is Some ==> (r matches Ok(Transport::Tcp {
            executor_addr,
            orchestrator_addr,
        }) && executor_addr@ == outer.executor_addr->0@ && orchestrator_addr@
            == outer.orchestrator_addr->0@),
        r is Err <==> (outer.executor_fd is None || outer.orchestrator_fd is None) && (
        outer.executor_addr is None || outer.orchestrator_addr is None),
        r is Err ==> r->Err_0 is MissingTransport,
{
}

/// A shard is one of several where there is more than one.
pub proof fn law_one_shard_is_no_sharding(shard: ShardSpec, r: bool)
    requires
        call_ensures(ShardSpec::is_sharded, (&shard,), r),
    ensures
        r <==> shard.count >= 2,
{
}

/// The limits that nothing was said of.
pub proof fn law_default_limits(r: SchedulerLimits)
    requires
        call_ensures(SchedulerLimits::default, (), r),
    ensures
        r.max_inflight_listings == 256,
        r.max_inflight_test_actions == 2000,
        r.max_inflight_per_target == 128,
        r.max_report_queue == 1024,
{
}

/// Only a history that was left to the program's choice takes its path from there.
pub proof fn law_a_chosen_history_stays(c: &mut DurationDbConfig, path: Option<String>)
    requires
        call_ensures(DurationDbConfig::resolve_auto, (c, path), ()),
    ensures
        !(*old(c) is Auto) ==> *final(c) == *old(c),
        *old(c) is Auto && path is None ==> *final(c) is Auto,
        *old(c) is Auto && path is Some ==> *final(c) is Persistent && (*final(c))->Persistent_0
            == path->0,
{
}

/// Only a history on disk has a directory, and only with one is the cache kept from tests
/// that have none.
pub proof fn law_a_history_on_disk_has_a_directory(
    c: DurationDbConfig,
    path: Option<&str>,
    busts: bool,
)
    requires
        call_ensures(DurationDbConfig::persistent_path, (&c,), path),
        call_ensures(DurationDbConfig::cache_busts_unseen_tests, (&c,), busts),
    ensures
        path is Some <==> c is Persistent,
        path matches Some(p) ==> p@ == c->Persistent_0@,
        busts <==> c is Persistent,
{
}

/// The harness gets the arguments for every framework first, then its own.
pub proof fn law_harness_arguments_come_last(c: RunnerConfig, r: Vec<String>)
    requires
        call_ensures(RunnerConfig::effective_libtest_args, (&c,), r),
    ensures
        r@ == c.extra_test_args@ + c.direct_libtest_args@,
{
}

/// Numbers of the configuration: timeouts are seconds, and nothing that counts work falls
/// below one.
pub proof fn law_counts_are_at_least_one(
    outer: &OuterCli,
    t: TpxConfig,
    around: &Surroundings,
    c: RunnerConfig,
    s: SessionContext,
)
    requires
        call_ensures(
            resolve_config,
            (outer, t, around),
            Ok::<(RunnerConfig, SessionContext), CliError>((c, s)),
        ),
    ensures
        c.per_test_timeout.total_nanos() == t.timeout * 1_000_000_000,
        c.listing_timeout.total_nanos() == t.listing_timeout * 1_000_000_000,
        t.stress == 0 <==> c.stress is Once,
        t.stress > 0 ==> c.stress.spec_count() == t.stress,
        t.stress_label_reps >= 1 ==> c.stress_label_reps.spec_get() == t.stress_label_reps,
        t.stress_label_reps == 0 ==> c.stress_label_reps.spec_get() == 1,
        c.shard.index == t.shard_index,
        t.shard_count >= 1 ==> c.shard.count == t.shard_count,
        t.shard_count == 0 ==> c.shard.count == 1,
        c.shard.index < c.shard.count,
        t.flaky_attempts >= 1 ==> c.flaky_attempts == t.flaky_attempts,
        t.flaky_attempts == 0 ==> c.flaky_attempts == 1,
        t.max_inflight_listings >= 1 ==> c.limits.max_inflight_listings == t.max_inflight_listings,
        t.max_inflight_listings == 0 ==> c.limits.max_inflight_listings == 1,
        t.max_inflight_test_actions >= 1 ==> c.limits.max_inflight_test_actions
            == t.max_inflight_test_actions,
        t.max_inflight_test_actions == 0 ==> c.limits.max_inflight_test_actions == 1,
        t.max_inflight_per_target >= 1 ==> c.limits.max_inflight_per_target
            == t.max_inflight_per_target,
        t.max_inflight_per_target == 0 ==> c.limits.max_inflight_per_target == 1,
        c.limits.max_report_queue == 1024,
        c.cas_inline_limit == t.cas_inline_limit,
        c.local_debug == t.local_debug,
        c.extra_test_args@ == t.test_arg@,
        c.ci_test_report_json == t.ci_test_report_json,
        c.quokka_config == around.quokka_config,
        s.trace_id == outer.buck_trace_id,
{
}

/// Words of the configuration stand for what they say.
pub proof fn law_words_stand_for_what_they_say(
    outer: &OuterCli,
    t: TpxConfig,
    around: &Surroundings,
    c: RunnerConfig,
    s: SessionContext,
)
    requires
        call_ensures(
            resolve_config,
            (outer, t, around),
            Ok::<(RunnerConfig, SessionContext), CliError>((c, s)),
        ),
    ensures
        t.list_format@ == "text"@ || t.list_format@ == "json"@,
        c.list_format is Text <==> t.list_format@ == "text"@,
        t.run_format@ == "text"@ || t.run_format@ == "json"@,
        c.run_format is Text <==> t.run_format@ == "text"@,
        c.batch_mode is PerTest <==> t.batch_mode@ == "per-test"@,
        c.batch_mode is DurationBucketed <==> t.batch_mode@ == "duration-bucketed"@,
        c.batch_mode is FixedChunk <==> t.batch_mode@ == "fixed-chunk"@,
        c.batch_mode is Target <==> t.batch_mode@ == "target"@,
        c.batch_mode matches BatchMode::DurationBucketed { p50_lt_ms } ==> p50_lt_ms
            == t.batch_threshold_ms,
        c.batch_mode matches BatchMode::FixedChunk { size } ==> (t.chunk_size >= 1
            ==> size.spec_get() == t.chunk_size) && (t.chunk_size == 0 ==> size.spec_get() == 1),
        t.batch_failure_policy@ == "isolate"@ || t.batch_failure_policy@ == "fail-all"@,
        c.batch_failure_policy is FailAll <==> t.batch_failure_policy@ == "fail-all"@,
        t.cgroup_granularity@ == "logical-test"@ || t.cgroup_granularity@ == "action"@,
        c.cgroup_granularity is LogicalTest <==> t.cgroup_granularity@ == "logical-test"@,
        !(t.no_duration_db && t.duration_db is Some),
        c.duration_db is Disabled <==> t.no_duration_db,
        c.duration_db is Persistent <==> t.duration_db is Some,
        c.duration_db matches DurationDbConfig::Persistent(path) ==> t.duration_db == Some(path),
        !(c.ignored is IgnoredOnly && c.list_format is Text),
{
    lemma_words();
}

proof fn lemma_words()
    ensures
        "text"@ != "json"@,
        "per-test"@ != "duration-bucketed"@,
        "per-test"@ != "fixed-chunk"@,
        "per-test"@ != "target"@,
        "duration-bucketed"@ != "fixed-chunk"@,
        "duration-bucketed"@ != "target"@,
        "fixed-chunk"@ != "target"@,
        "isolate"@ != "fail-all"@,
        "logical-test"@ != "action"@,
{
    reveal_strlit("text");
    reveal_strlit("json");
    assert("text"@[0] == 't' && "json"@[0] == 'j');
    reveal_strlit("per-test");
    reveal_strlit("duration-bucketed");
    reveal_strlit("fixed-chunk");
    reveal_strlit("target");
    assert("per-test"@[0] == 'p' && "duration-bucketed"@[0] == 'd' && "fixed-chunk"@[0] == 'f'
        && "target"@[0] == 't');
    reveal_strlit("isolate");
    reveal_strlit("fail-all");
    assert("isolate"@[0] == 'i' && "fail-all"@[0] == 'f');
    reveal_strlit("logical-test");
    reveal_strlit("action");
    assert("logical-test"@[0] == 'l' && "action"@[0] == 'a');
}

/// Ignored tests run by what is said, on the runner's side and on the harness's: with both
/// sides' word for all tests, with their word for the ignored ones alone, or, with no word, not
/// at all. Words that contradict each other are refused.
pub proof fn law_words_on_ignored_tests_agree(
    outer: &OuterCli,
    t: TpxConfig,
    around: &Surroundings,
    args: &[String],
    direct: Vec<String>,
    named: Vec<IgnoredPolicy>,
    r: Result<(RunnerConfig, SessionContext), CliError>,
)
    requires
        call_ensures(resolve_config, (outer, t, around), r),
        call_ensures(TpxConfig::direct_libtest_args, (&t,), direct),
        args@ == t.test_arg@ + direct@,
        call_ensures(libtest_user_ignored_policies, (args,), named),
    ensures
        ({
            let all = t.include_ignored || named@.contains(IgnoredPolicy::IncludeIgnored);
            let only = t.ignored || t.ignored_only || named@.contains(IgnoredPolicy::IgnoredOnly);
            &&& all && only ==> r is Err
            &&& r matches Ok(resolved) ==> {
                &&& resolved.0.ignored is IncludeIgnored <==> all
                &&& resolved.0.ignored is IgnoredOnly <==> only
                &&& resolved.0.ignored is ExcludeIgnored <==> !all && !only
            }
        }),
{
    assert(text::views(args@) =~= text::views(t.test_arg@) + text::views(direct@));
    let own = (if t.include_ignored {
        seq![IgnoredPolicy::IncludeIgnored]
    } else {
        Seq::empty()
    }) + (if t.ignored || t.ignored_only {
        seq![IgnoredPolicy::IgnoredOnly]
    } else {
        Seq::empty()
    });
    let policies = cli::named_policies(t);
    assert(policies == own + named@);
    lemma_agreed(policies, policies.len());
    let all = IgnoredPolicy::IncludeIgnored;
    let only = IgnoredPolicy::IgnoredOnly;
    if t.include_ignored {
        assert(own[0] == all);
        assert(policies[0] == all);
    }
    if t.ignored || t.ignored_only {
        assert(own[own.len() - 1] == only);
        assert(policies[own.len() - 1] == only);
    }
    assert forall|p: IgnoredPolicy| named@.contains(p) implies #[trigger] policies.contains(p) by {
        let i = choose|i: int| 0 <= i < named@.len() && named@[i] == p;
        assert(policies[own.len() + i] == p);
    }
    assert forall|p: IgnoredPolicy| #[trigger] policies.contains(p) implies own.contains(p)
        || named@.contains(p) by {
        let i = choose|i: int| 0 <= i < policies.len() && policies[i] == p;
        if i < own.len() {
            assert(own[i] == p);
        } else {
            assert(named@[i - own.len()] == p);
        }
    }
    assert(policies.contains(all) <==> t.include_ignored || named@.contains(all));
    assert(policies.contains(only) <==> t.ignored || t.ignored_only || named@.contains(only));
}

proof fn lemma_agreed(policies: Seq<IgnoredPolicy>, n: nat)
    requires
        n <= policies.len(),
    ensures
        ({
            let seen = policies.take(n as int);
            match cli::agreed(policies, n) {
                Some(IgnoredPolicy::ExcludeIgnored) => !seen.contains(IgnoredPolicy::IncludeIgnored)
                    && !seen.contains(IgnoredPolicy::IgnoredOnly),
                Some(IgnoredPolicy::IncludeIgnored) => seen.contains(IgnoredPolicy::IncludeIgnored)
                    && !seen.contains(IgnoredPolicy::IgnoredOnly),
                Some(IgnoredPolicy::IgnoredOnly) => !seen.contains(IgnoredPolicy::IncludeIgnored)
                    && seen.contains(IgnoredPolicy::IgnoredOnly),
                None => true,
            }
        }),
        n == policies.len() ==> policies.take(n as int) == policies,
    decreases n,
{
    if n > 0 {
        lemma_agreed(policies, (n - 1) as nat);
        let before = policies.take(n - 1);
        let seen = policies.take(n as int);
        assert(seen =~= before.push(policies[n - 1]));
        assert(seen[n - 1] == policies[n - 1]);
        assert forall|p: IgnoredPolicy| #[trigger] seen.contains(p) <==> before.contains(p)
            || policies[n - 1] == p by {
            if before.contains(p) {
                let i = choose|i: int| 0 <= i < before.len() && before[i] == p;
                assert(seen[i] == p);
            }
            if seen.contains(p) {
                let i = choose|i: int| 0 <= i < seen.len() && seen[i] == p;
                if i < n - 1 {
                    assert(before[i] == p);
                }
            }
        }
    }
}

/// Extra variables are spelled `NAME=VALUE`: the name ends at the first `=`.
pub proof fn law_extra_variables_are_cut_at_the_first_sign(
    outer: &OuterCli,
    t: TpxConfig,
    around: &Surroundings,
    c: RunnerConfig,
    s: SessionContext,
    i: int,
)
    requires
        call_ensures(
            resolve_config,
            (outer, t, around),
            Ok::<(RunnerConfig, SessionContext), CliError>((c, s)),
        ),
    ensures
        c.extra_env@.len() == t.env@.len(),
        c.declared_output_env@.len() == t.declared_output_env@.len(),
        0 <= i < t.env@.len() ==> {
            &&& t.env@[i]@ == c.extra_env@[i].0@ + "="@ + c.extra_env@[i].1@
            &&& !c.extra_env@[i].0@.contains('=')
        },
        0 <= i < t.declared_output_env@.len() ==> {
            let pair = c.declared_output_env@[i];
            &&& t.declared_output_env@[i]@ == pair.0@ + "="@ + pair.1@
            &&& !pair.0@.contains('=')
            &&& pair.0@.len() > 0
            &&& pair.1@.len() > 0
        },
{
    reveal_strlit("=");
    assert("="@ =~= seq!['=']);
    if 0 <= i < t.env@.len() {
        assert(text::split_once(t.env@[i]@, '=') == Some(
            (c.extra_env@[i].0@, c.extra_env@[i].1@),
        ));
        lemma_cut(t.env@[i]@, '=');
    }
    if 0 <= i < t.declared_output_env@.len() {
        let e = t.declared_output_env@;
        assert(text::split_once(e[i]@, '=') == Some(
            (c.declared_output_env@[i].0@, c.declared_output_env@[i].1@),
        ));
        lemma_cut(e[i]@, '=');
        lemma_refused(e, e.len());
        assert(cli::is_output_entry(e[i]@));
    }
}

proof fn lemma_cut(s: Seq<char>, c: char)
    requires
        text::split_once(s, c) is Some,
    ensures
        ({
            let p = text::split_once(s, c)->0;
            s == p.0 + seq![c] + p.1 && !p.0.contains(c)
        }),
{
    let at = text::find_from(s, c, 0);
    text::lemma_find_from(s, c, 0);
    let p = text::split_once(s, c)->0;
    assert(s =~= p.0 + seq![c] + p.1);
    if p.0.contains(c) {
        let k = choose|k: int| 0 <= k < p.0.len() && p.0[k] == c;
        assert(s[k] == c);
    }
}

proof fn lemma_refused(entries: Seq<String>, n: nat)
    requires
        cli::refused_entry(entries, true, n) is None,
        n <= entries.len(),
    ensures
        forall|i: int| 0 <= i < n ==> cli::is_output_entry((#[trigger] entries[i])@),
    decreases n,
{
    if n > 0 {
        lemma_refused(entries, (n - 1) as nat);
    }
}

/// A variable that is no `NAME=VALUE` is refused, and the refusal names the first such one.
pub proof fn law_variables_without_a_sign_are_refused(
    outer: &OuterCli,
    t: TpxConfig,
    around: &Surroundings,
    r: Result<(RunnerConfig, SessionContext), CliError>,
    i: int,
)
    requires
        call_ensures(resolve_config, (outer, t, around), r),
        0 <= i < t.env@.len(),
        !t.env@[i]@.contains('='),
    ensures
        r is Err,
        r->Err_0 matches CliError::InvalidEnv(entry) ==> !entry@.contains('=') && exists|k: int|
            0 <= k <= i && (#[trigger] t.env@[k])@ == entry@ && forall|j: int|
                0 <= j < k ==> (#[trigger] t.env@[j])@.contains('='),
{
    lemma_first_refused(t.env@, t.env@.len(), i);
}

proof fn lemma_sign(s: Seq<char>)
    ensures
        cli::is_env_entry(s) <==> s.contains('='),
{
    text::lemma_find_from(s, '=', 0);
    let at = text::find_from(s, '=', 0);
    if s.contains('=') {
        let k = choose|k: int| 0 <= k < s.len() && s[k] == '=';
        assert(at <= k);
    }
    if at < s.len() {
        assert(s[at] == '=');
    }
}

proof fn lemma_first_refused(entries: Seq<String>, n: nat, i: int)
    requires
        0 <= i < n <= entries.len(),
        !entries[i]@.contains('='),
    ensures
        ({
            let first = cli::refused_entry(entries, false, n);
            &&& first is Some
            &&& 0 <= first->0 <= i
            &&& !entries[first->0]@.contains('=')
            &&& forall|j: int| 0 <= j < first->0 ==> (#[trigger] entries[j])@.contains('=')
        }),
    decreases n,
{
    lemma_sign(entries[n - 1]@);
    if i < n - 1 {
        lemma_first_refused(entries, (n - 1) as nat, i);
    } else {
        lemma_refused_so_far(entries, (n - 1) as nat);
    }
}

proof fn lemma_refused_so_far(entries: Seq<String>, n: nat)
    requires
        n <= entries.len(),
    ensures
        cli::refused_entry(entries, false, n) is None ==> forall|j: int|
            0 <= j < n ==> (#[trigger] entries[j])@.contains('='),
        cli::refused_entry(entries, false, n) matches Some(first) ==> {
            &&& 0 <= first < n
            &&& !entries[first]@.contains('=')
            &&& forall|j: int| 0 <= j < first ==> (#[trigger] entries[j])@.contains('=')
        },
    decreases n,
{
    if n > 0 {
        lemma_refused_so_far(entries, (n - 1) as nat);
        lemma_sign(entries[n - 1]@);
    }
}

/// The host platform is what the first `host=` entry says.
pub proof fn law_the_first_host_entry_counts(
    outer: &OuterCli,
    t: TpxConfig,
    around: &Surroundings,
    c: RunnerConfig,
    s: SessionContext,
    i: int,
    host: Seq<char>,
)
    requires
        call_ensures(
            resolve_config,
            (outer, t, around),
            Ok::<(RunnerConfig, SessionContext), CliError>((c, s)),
        ),
        0 <= i < outer.config_entry@.len(),
        outer.config_entry@[i]@ == "host="@ + host,
        forall|k: int|
            0 <= k < i ==> !"host="@.is_prefix_of((#[trigger] outer.config_entry@[k])@),
    ensures
        s.host_platform matches Some(h) && h@ == host,
{
    lemma_host(outer.config_entry@, outer.config_entry@.len(), i, host);
}

proof fn lemma_host(entries: Seq<String>, n: nat, i: int, host: Seq<char>)
    requires
        0 <= i < n <= entries.len(),
        entries[i]@ == "host="@ + host,
        forall|k: int| 0 <= k < i ==> !"host="@.is_prefix_of((#[trigger] entries[k])@),
    ensures
        cli::host_platform(entries, n) == Some(host),
    decreases n,
{
    if n - 1 > i {
        lemma_host(entries, (n - 1) as nat, i, host);
    } else {
        lemma_no_host(entries, (n - 1) as nat);
        let all = entries[i]@;
        let p = "host="@;
        assert(all.take(p.len() as int) =~= p);
        assert(all.skip(p.len() as int) =~= host);
        assert(all.subrange(0, p.len() as int) =~= p);
    }
}

proof fn lemma_no_host(entries: Seq<String>, n: nat)
    requires
        n <= entries.len(),
        forall|k: int| 0 <= k < n ==> !"host="@.is_prefix_of((#[trigger] entries[k])@),
    ensures
        cli::host_platform(entries, n) is None,
    decreases n,
{
    if n > 0 {
        lemma_no_host(entries, (n - 1) as nat);
        assert(!"host="@.is_prefix_of(entries[n - 1]@));
    }
}

/// Without a `host=` entry there is no host platform.
pub proof fn law_without_a_host_entry_there_is_no_host(
    outer: &OuterCli,
    t: TpxConfig,
    around: &Surroundings,
    c: RunnerConfig,
    s: SessionContext,
)
    requires
        call_ensures(
            resolve_config,
            (outer, t, around),
            Ok::<(RunnerConfig, SessionContext), CliError>((c, s)),
        ),
        forall|k: int|
            0 <= k < outer.config_entry@.len() ==> !"host="@.is_prefix_of(
                (#[trigger] outer.config_entry@[k])@,
            ),
    ensures
        s.host_platform is None,
{
    lemma_no_host(outer.config_entry@, outer.config_entry@.len());
}

/// The memory limit is the one that the environment gives, and 1500 MiB without one.
pub proof fn law_the_memory_limit_comes_from_the_environment(
    outer: &OuterCli,
    t: TpxConfig,
    around: &Surroundings,
    value: &str,
    parsed: Option<CgroupMemoryMax>,
    r: Result<(RunnerConfig, SessionContext), CliError>,
)
    requires
        call_ensures(resolve_config, (outer, t, around), r),
        call_ensures(CgroupMemoryMax::parse, (value,), parsed),
    ensures
        around.memory_max is NotUnicode ==> r is Err,
        around.memory_max is Value && around.memory_max->Value_0@ == value@ && parsed is None
            ==> r is Err,
        r matches Ok(resolved) ==> {
            &&& around.memory_max is NotPresent ==> resolved.0.cgroup_memory_max.limit() == Some(
                1_572_864_000nat,
            )
            &&& around.memory_max is Value && around.memory_max->Value_0@ == value@
                ==> parsed is Some && resolved.0.cgroup_memory_max.limit() == parsed->0.limit()
        },
{
    lemma_number(1_572_864_000nat, u64::MAX as nat);
    reveal_strlit("max");
    text::lemma_decimal_reads_back(1_572_864_000nat);
    if text::decimal(1_572_864_000nat) == "max"@ {
        assert(text::is_digit("max"@[0]));
    }
}

/// Memory overrides are kept in their order, each as it is spelled; one that does not read as
/// an override is refused, and so are two of one test.
pub proof fn law_memory_overrides_are_kept(
    outer: &OuterCli,
    t: TpxConfig,
    around: &Surroundings,
    i: int,
    j: int,
    raw: &str,
    other: &str,
    a: Option<CgroupMemoryMaxOverride>,
    b: Option<CgroupMemoryMaxOverride>,
    r: Result<(RunnerConfig, SessionContext), CliError>,
)
    requires
        call_ensures(resolve_config, (outer, t, around), r),
        0 <= i < j < t.cgroup_memory_max_overrides@.len(),
        raw@ == t.cgroup_memory_max_overrides@[i]@,
        other@ == t.cgroup_memory_max_overrides@[j]@,
        call_ensures(CgroupMemoryMaxOverride::parse, (raw,), a),
        call_ensures(CgroupMemoryMaxOverride::parse, (other,), b),
    ensures
        a is None || b is None ==> r is Err,
        a is Some && b is Some && a->0.target@ == b->0.target@ && a->0.test@ == b->0.test@
            ==> r is Err,
        r matches Ok(resolved) ==> {
            let kept = resolved.0.cgroup_memory_max_overrides@;
            &&& kept.len() == t.cgroup_memory_max_overrides@.len()
            &&& kept[i].target@ == a->0.target@
            &&& kept[i].test@ == a->0.test@
            &&& kept[i].memory_max.limit() == a->0.memory_max.limit()
            &&& kept[j].target@ == b->0.target@
            &&& kept[j].test@ == b->0.test@
            &&& kept[j].memory_max.limit() == b->0.memory_max.limit()
        },
{
    let raws = t.cgroup_memory_max_overrides@;
    if cli::refused_override(raws, raws.len()) is None {
        lemma_no_refusal(raws, raws.len());
        assert(!cli::override_refused(raws, i));
        assert(!cli::override_refused(raws, j));
        assert(!cli::same_test(raws[i]@, raws[j]@));
    }
    if let Ok(resolved) = r {
        let kept = resolved.0.cgroup_memory_max_overrides@;
        assert(cli::is_spelled(raws[i]@, kept[i]));
        assert(cli::is_spelled(raws[j]@, kept[j]));
    }
}

proof fn lemma_no_refusal(raws: Seq<String>, n: nat)
    requires
        cli::refused_override(raws, n) is None,
        n <= raws.len(),
    ensures
        forall|i: int| 0 <= i < n ==> !#[trigger] cli::override_refused(raws, i),
    decreases n,
{
    if n > 0 {
        lemma_no_refusal(raws, (n - 1) as nat);
    }
}

/// An error names the value that is at fault, and the value is at fault.
pub proof fn law_errors_name_the_value_at_fault(
    outer: &OuterCli,
    t: TpxConfig,
    around: &Surroundings,
    error: CliError,
)
    requires
        call_ensures(
            resolve_config,
            (outer, t, around),
            Err::<(RunnerConfig, SessionContext), CliError>(error),
        ),
    ensures
        error matches CliError::InvalidValue { field, value } ==> {
            &&& field@ == "list-format"@ ==> value@ == t.list_format@ && value@ != "text"@ && value@
                != "json"@
            &&& field@ == "run-format"@ ==> value@ == t.run_format@ && value@ != "text"@ && value@
                != "json"@
            &&& field@ == "batch-mode"@ ==> value@ == t.batch_mode@ && value@ != "per-test"@
                && value@ != "duration-bucketed"@ && value@ != "fixed-chunk"@ && value@
                != "target"@
            &&& field@ == "batch-failure-policy"@ ==> value@ == t.batch_failure_policy@ && value@
                != "isolate"@ && value@ != "fail-all"@
            &&& field@ == "cgroup-granularity"@ ==> value@ == t.cgroup_granularity@ && value@
                != "logical-test"@ && value@ != "action"@
        },
        error is ConflictingDurationDbFlags ==> t.no_duration_db && t.duration_db is Some,
        error is IgnoredOnlyNeedsJsonListing ==> t.list_format@ == "text"@,
        error matches CliError::ShardOutOfRange { index, count } ==> index == t.shard_index && index
            >= count && (t.shard_count >= 1 ==> count == t.shard_count) && (t.shard_count == 0
            ==> count == 1),
        error matches CliError::InvalidDeclaredOutputEnv(entry) ==> exists|k: int|
            0 <= k < t.declared_output_env@.len() && (#[trigger] t.declared_output_env@[k])@
                == entry@,
        !(error is MissingTransport) && !(error is Parse),
{
    lemma_fields();
    let e = t.declared_output_env@;
    lemma_refused_at(e, e.len());
    lemma_words();
}

proof fn lemma_refused_at(entries: Seq<String>, n: nat)
    requires
        n <= entries.len(),
    ensures
        cli::refused_entry(entries, true, n) matches Some(i) ==> 0 <= i < n,
    decreases n,
{
    if n > 0 {
        lemma_refused_at(entries, (n - 1) as nat);
    }
}

proof fn lemma_fields()
    ensures
        "ignored"@.len() == 7,
        "list-format"@.len() == 11,
        "run-format"@.len() == 10 && "run-format"@[0] == 'r',
        "batch-mode"@.len() == 10 && "batch-mode"@[0] == 'b',
        "batch-failure-policy"@.len() == 20,
        "cgroup-granularity"@.len() == 18,
        "NOBIE_RUST_TEST_CGROUP_MEMORY_MAX_BYTES"@.len() == 39,
        "cgroup-memory-max-override"@.len() == 26,
{
    reveal_strlit("ignored");
    reveal_strlit("list-format");
    reveal_strlit("run-format");
    reveal_strlit("batch-mode");
    reveal_strlit("batch-failure-policy");
    reveal_strlit("cgroup-granularity");
    reveal_strlit("NOBIE_RUST_TEST_CGROUP_MEMORY_MAX_BYTES");
    reveal_strlit("cgroup-memory-max-override");
}

/// Configurations without a fault are accepted.
pub proof fn law_sound_configurations_are_accepted(
    outer: &OuterCli,
    t: TpxConfig,
    around: &Surroundings,
    r: Result<(RunnerConfig, SessionContext), CliError>,
)
    requires
        call_ensures(resolve_config, (outer, t, around), r),
        cli::ignored_policy(t) is Some,
        t.list_format@ == "json"@,
        t.run_format@ == "text"@ || t.run_format@ == "json"@,
        t.batch_mode@ == "per-test"@ || t.batch_mode@ == "duration-bucketed"@ || t.batch_mode@
            == "fixed-chunk"@ || t.batch_mode@ == "target"@,
        t.batch_failure_policy@ == "isolate"@ || t.batch_failure_policy@ == "fail-all"@,
        !t.no_duration_db || t.duration_db is None,
        t.cgroup_granularity@ == "logical-test"@ || t.cgroup_granularity@ == "action"@,
        around.memory_max is NotPresent,
        t.cgroup_memory_max_overrides@.len() == 0,
        t.shard_index == 0 || t.shard_index < t.shard_count,
        forall|k: int| 0 <= k < t.env@.len() ==> (#[trigger] t.env@[k])@.contains('='),
        t.declared_output_env@.len() == 0,
    ensures
        r is Ok,
{
    lemma_words();
    lemma_number(1_572_864_000nat, u64::MAX as nat);
    lemma_refused_so_far(t.env@, t.env@.len());
}

/// What is said of an error.
pub proof fn law_errors_are_told(error: CliError, r: String)
    requires
        call_ensures(CliError::message, (&error,), r),
    ensures
        error matches CliError::InvalidValue { field, value } ==> r@ == "invalid "@ + field@ + ": `"@
            + value@ + "`"@,
        error matches CliError::InvalidEnv(entry) ==> r@ == "invalid --env entry `"@ + entry@
            + "` (expected NAME=VALUE)"@,
        error matches CliError::InvalidDeclaredOutputEnv(entry) ==> r@
            == "invalid --declared-output-env entry `"@ + entry@
            + "` (expected NAME=OUTPUT_DIR with both sides non-empty)"@,
        error matches CliError::ShardOutOfRange { index, count } ==> r@ == "--shard-index "@
            + text::decimal(index as nat) + " is out of range for --shard-count "@ + text::decimal(
            count as nat,
        ),
        error is ConflictingDurationDbFlags ==> r@
            == "--duration-db and --no-duration-db cannot be used together"@,
        error is MissingTransport ==> r@
            == "missing transport: provide --executor-fd/--orchestrator-fd or --executor-addr/--orchestrator-addr"@,
        error matches CliError::Parse(message) ==> r@ == message@,
{
}

/// A refused part of the arguments refuses them all, with its message; the outer part goes
/// first. A configuration without a way to reach the services is refused.
pub proof fn law_refused_arguments_are_told(
    outer: Result<Vec<(String, Vec<String>)>, String>,
    tpx: Result<Vec<(String, Vec<String>)>, String>,
    around: &Surroundings,
    r: Result<Invocation, CliError>,
)
    requires
        call_ensures(invocation_from, (outer, tpx, around), r),
    ensures
        outer matches Err(message) ==> (r matches Err(CliError::Parse(told)) && told@ == message@),
        outer is Ok && tpx is Err ==> (r matches Err(CliError::Parse(told)) && told@
            == tpx->Err_0@),
        r is Ok ==> outer is Ok && tpx is Ok,
{
}

/// An invocation connects as its outer arguments say and is configured as the others say.
pub proof fn law_invocations_are_what_their_arguments_say(
    outer: Vec<(String, Vec<String>)>,
    tpx: Vec<(String, Vec<String>)>,
    around: &Surroundings,
    executor: Seq<char>,
    orchestrator: Seq<char>,
    said: Seq<char>,
    n: nat,
    inv: Invocation,
)
    requires
        call_ensures(
            invocation_from,
            (
                Ok::<Vec<(String, Vec<String>)>, String>(outer),
                Ok::<Vec<(String, Vec<String>)>, String>(tpx),
                around,
            ),
            Ok::<Invocation, CliError>(inv),
        ),
        n <= 0xffff,
    ensures
        gives(outer@, "executor-addr"@, seq![executor]) && gives(
            outer@,
            "orchestrator-addr"@,
            seq![orchestrator],
        ) && inv.transport is Tcp ==> inv.transport->executor_addr@ == executor
            && inv.transport->orchestrator_addr@ == orchestrator,
        gives(tpx@, "local-debug"@, seq![said]) ==> inv.config.local_debug == (said == "true"@),
        gives(tpx@, "timeout"@, seq![text::decimal(n)])
            ==> inv.config.per_test_timeout.total_nanos() == n * 1_000_000_000,
        gives(tpx@, "listing-timeout"@, seq![text::decimal(n)])
            ==> inv.config.listing_timeout.total_nanos() == n * 1_000_000_000,
        gives(tpx@, "shard-index"@, seq![text::decimal(n)]) ==> inv.config.shard.index == n,
        gives(tpx@, "flaky-attempts"@, seq![text::decimal(n)]) && n > 0
            ==> inv.config.flaky_attempts == n,
        gives(tpx@, "list-format"@, seq![said]) ==> (inv.config.list_format is Text <==> said
            == "text"@),
        gives(tpx@, "run-format"@, seq![said]) ==> (inv.config.run_format is Text <==> said
            == "text"@),
{
    let (values, others) = (options::value_views(outer@), options::value_views(tpx@));
    let (o, t) = choose|o: OuterCli, t: TpxConfig| #[trigger]
        cli::resolved_as(values, others, o, t, *around, Ok::<Invocation, CliError>(inv));
    lemma_words();
    let number = seq![text::decimal(n)];
    assert(number[0] == text::decimal(n));
    lemma_number(n, u64::MAX as nat);
    lemma_number(n, u32::MAX as nat);
    lemma_number(n, u16::MAX as nat);
    assert(seq![said][0] == said && seq![executor][0] == executor && seq![orchestrator][0]
        == orchestrator);
    lemma_if_given(outer@, "executor-addr"@, seq![executor]);
    lemma_if_given(outer@, "orchestrator-addr"@, seq![orchestrator]);
    lemma_if_given(tpx@, "local-debug"@, seq![said]);
    lemma_if_given(tpx@, "list-format"@, seq![said]);
    lemma_if_given(tpx@, "run-format"@, seq![said]);
    lemma_if_given(tpx@, "timeout"@, number);
    lemma_if_given(tpx@, "listing-timeout"@, number);
    lemma_if_given(tpx@, "shard-index"@, number);
    lemma_if_given(tpx@, "flaky-attempts"@, number);
}

// ---------------------------------------------------------------------------
// The harness's own flags.

/// One where something is given.
pub open spec fn one_if(given: bool) -> int {
    if given {
        1
    } else {
        0
    }
}

/// Two where something is given.
pub open spec fn two_if(given: bool) -> int {
    if given {
        2
    } else {
        0
    }
}

/// Whether a flag is followed by a value in some arguments.
pub open spec fn followed(args: Seq<Seq<char>>, flag: Seq<char>, value: Seq<char>) -> bool {
    exists|i: int| 0 <= i < args.len() - 1 && #[trigger] args[i] == flag && args[i + 1] == value
}

/// Flags of the harness that stand behind the separator are handed on, with the value behind
/// each that has one, and nothing else is; filters come first.
pub proof fn law_harness_flags_are_handed_on(t: TpxConfig, r: Vec<String>)
    requires
        call_ensures(TpxConfig::direct_libtest_args, (&t,), r),
    ensures
        ({
            let given = text::views(r@);
            &&& given.len() == t.libtest_filters@.len() + one_if(t.libtest_exact)
                + 2 * t.libtest_skip@.len() + one_if(t.libtest_force_run_in_process)
                + one_if(t.libtest_exclude_should_panic) + one_if(t.libtest_test)
                + one_if(t.libtest_bench) + one_if(t.libtest_list) + one_if(t.libtest_fail_fast)
                + one_if(t.libtest_help) + two_if(t.libtest_logfile is Some)
                + one_if(t.libtest_no_capture) + two_if(t.libtest_test_threads is Some)
                + one_if(t.libtest_quiet) + two_if(t.libtest_color is Some)
                + two_if(t.libtest_format is Some) + one_if(t.libtest_show_output)
                + 2 * t.libtest_unstable_options@.len() + one_if(t.libtest_report_time)
                + one_if(t.libtest_ensure_time) + one_if(t.libtest_shuffle)
                + two_if(t.libtest_shuffle_seed is Some)
            &&& text::views(t.libtest_filters@).is_prefix_of(given)
            &&& t.libtest_exact ==> given.contains("--exact"@)
            &&& t.libtest_force_run_in_process ==> given.contains("--force-run-in-process"@)
            &&& t.libtest_exclude_should_panic ==> given.contains("--exclude-should-panic"@)
            &&& t.libtest_test ==> given.contains("--test"@)
            &&& t.libtest_bench ==> given.contains("--bench"@)
            &&& t.libtest_list ==> given.contains("--list"@)
            &&& t.libtest_fail_fast ==> given.contains("--fail-fast"@)
            &&& t.libtest_help ==> given.contains("--help"@)
            &&& t.libtest_no_capture ==> given.contains("--no-capture"@)
            &&& t.libtest_quiet ==> given.contains("--quiet"@)
            &&& t.libtest_show_output ==> given.contains("--show-output"@)
            &&& t.libtest_report_time ==> given.contains("--report-time"@)
            &&& t.libtest_ensure_time ==> given.contains("--ensure-time"@)
            &&& t.libtest_shuffle ==> given.contains("--shuffle"@)
            &&& t.libtest_logfile matches Some(v) ==> followed(given, "--logfile"@, v@)
            &&& t.libtest_test_threads matches Some(v) ==> followed(given, "--test-threads"@, v@)
            &&& t.libtest_color matches Some(v) ==> followed(given, "--color"@, v@)
            &&& t.libtest_format matches Some(v) ==> followed(given, "--format"@, v@)
            &&& t.libtest_shuffle_seed matches Some(v) ==> followed(given, "--shuffle-seed"@, v@)
            &&& forall|i: int|
                0 <= i < t.libtest_skip@.len() ==> followed(
                    given,
                    "--skip"@,
                    (#[trigger] t.libtest_skip@[i])@,
                )
            &&& forall|i: int|
                0 <= i < t.libtest_unstable_options@.len() ==> followed(
                    given,
                    "-Z"@,
                    (#[trigger] t.libtest_unstable_options@[i])@,
                )
        }),
{
    lemma_direct(t);
    let given = text::views(r@);
    let skip = text::views(t.libtest_skip@);
    assert forall|i: int| 0 <= i < t.libtest_skip@.len() implies followed(
        given,
        "--skip"@,
        (#[trigger] t.libtest_skip@[i])@,
    ) by {
        assert(skip[i] == t.libtest_skip@[i]@);
        lemma_pairs("--skip"@, skip, i);
    }
    let unstable = text::views(t.libtest_unstable_options@);
    assert forall|i: int| 0 <= i < t.libtest_unstable_options@.len() implies followed(
        given,
        "-Z"@,
        (#[trigger] t.libtest_unstable_options@[i])@,
    ) by {
        assert(unstable[i] == t.libtest_unstable_options@[i]@);
        lemma_pairs("-Z"@, unstable, i);
    }
}

proof fn lemma_pairs_len(flag: Seq<char>, values: Seq<Seq<char>>)
    ensures
        cli::pairs(flag, values).len() == 2 * values.len(),
    decreases values.len(),
{
    if values.len() > 0 {
        lemma_pairs_len(flag, values.drop_last());
    }
}

proof fn lemma_pairs(flag: Seq<char>, values: Seq<Seq<char>>, i: int)
    requires
        0 <= i < values.len(),
    ensures
        followed(cli::pairs(flag, values), flag, values[i]),
    decreases values.len(),
{
    let all = cli::pairs(flag, values);
    let before = cli::pairs(flag, values.drop_last());
    if i < values.len() - 1 {
        lemma_pairs(flag, values.drop_last(), i);
        let k = choose|k: int|
            0 <= k < before.len() - 1 && #[trigger] before[k] == flag && before[k + 1]
                == values.drop_last()[i];
        assert(all[k] == flag && all[k + 1] == values[i]);
    } else {
        let k = before.len() as int;
        assert(all[k] == flag && all[k + 1] == values[i]);
    }
}

proof fn lemma_join(a: Seq<Seq<char>>, b: Seq<Seq<char>>)
    ensures
        forall|x: Seq<char>| a.contains(x) || b.contains(x) ==> #[trigger] (a + b).contains(x),
        forall|f: Seq<char>, v: Seq<char>|
            followed(a, f, v) || followed(b, f, v) ==> #[trigger] followed(a + b, f, v),
        forall|p: Seq<Seq<char>>| p.is_prefix_of(a) ==> #[trigger] p.is_prefix_of(a + b),
{
    let all = a + b;
    assert forall|x: Seq<char>| a.contains(x) || b.contains(x) implies #[trigger] (a + b).contains(
        x,
    ) by {
        if a.contains(x) {
            let i = choose|i: int| 0 <= i < a.len() && a[i] == x;
            assert(all[i] == x);
        }
        if b.contains(x) {
            let i = choose|i: int| 0 <= i < b.len() && b[i] == x;
            assert(all[a.len() + i] == x);
        }
    }
    assert forall|f: Seq<char>, v: Seq<char>|
        followed(a, f, v) || followed(b, f, v) implies #[trigger] followed(a + b, f, v) by {
        if followed(a, f, v) {
            let i = choose|i: int|
                0 <= i < a.len() - 1 && #[trigger] a[i] == f && a[i + 1] == v;
            assert(all[i] == f && all[i + 1] == v);
        } else {
            let i = choose|i: int|
                0 <= i < b.len() - 1 && #[trigger] b[i] == f && b[i + 1] == v;
            let k = a.len() + i;
            assert(all[k] == f && all[k + 1] == v);
        }
    }
    assert forall|p: Seq<Seq<char>>| p.is_prefix_of(a) implies #[trigger] p.is_prefix_of(a + b) by {
        assert(p =~= all.subrange(0, p.len() as int));
    }
}

proof fn lemma_when(given: bool, flag: Seq<char>)
    ensures
        given ==> cli::when(given, flag).contains(flag),
        cli::when(given, flag).len() == one_if(given),
{
    if given {
        assert(cli::when(given, flag)[0] == flag);
    }
}

proof fn lemma_pair(flag: Seq<char>, value: Option<Seq<char>>)
    ensures
        value matches Some(v) ==> followed(cli::pair(flag, value), flag, v),
        cli::pair(flag, value).len() == two_if(value is Some),
{
    if let Some(v) = value {
        let p = cli::pair(flag, value);
        assert(p[0] == flag && p[1] == v);
    }
}

/// The arguments for the harness up to a point.
#[verifier::opaque]
pub open spec fn direct_start(t: TpxConfig) -> Seq<Seq<char>> {
    text::views(t.libtest_filters@) + cli::when(t.libtest_exact, "--exact"@)
        + cli::pairs("--skip"@, text::views(t.libtest_skip@))
        + cli::when(t.libtest_force_run_in_process, "--force-run-in-process"@)
        + cli::when(t.libtest_exclude_should_panic, "--exclude-should-panic"@)
        + cli::when(t.libtest_test, "--test"@) + cli::when(t.libtest_bench, "--bench"@)
        + cli::when(t.libtest_list, "--list"@)
}

/// The arguments for the harness up to a later point.
#[verifier::opaque]
pub open spec fn direct_middle(t: TpxConfig) -> Seq<Seq<char>> {
    direct_start(t) + cli::when(t.libtest_fail_fast, "--fail-fast"@)
        + cli::when(t.libtest_help, "--help"@)
        + cli::pair("--logfile"@, json::text_view(t.libtest_logfile))
        + cli::when(t.libtest_no_capture, "--no-capture"@)
        + cli::pair("--test-threads"@, json::text_view(t.libtest_test_threads))
        + cli::when(t.libtest_quiet, "--quiet"@)
        + cli::pair("--color"@, json::text_view(t.libtest_color))
}

#[verifier::rlimit(60)]
proof fn lemma_direct_start(t: TpxConfig)
    ensures
        ({
            let given = direct_start(t);
            let filters = text::views(t.libtest_filters@);
            let skip = cli::pairs("--skip"@, text::views(t.libtest_skip@));
            &&& given.len() == t.libtest_filters@.len() + one_if(t.libtest_exact)
                + 2 * t.libtest_skip@.len() + one_if(t.libtest_force_run_in_process)
                + one_if(t.libtest_exclude_should_panic) + one_if(t.libtest_test)
                + one_if(t.libtest_bench) + one_if(t.libtest_list)
            &&& filters.is_prefix_of(given)
            &&& forall|f: Seq<char>, v: Seq<char>| #[trigger]
                followed(skip, f, v) ==> followed(given, f, v)
            &&& t.libtest_exact ==> given.contains("--exact"@)
            &&& t.libtest_force_run_in_process ==> given.contains("--force-run-in-process"@)
            &&& t.libtest_exclude_should_panic ==> given.contains("--exclude-should-panic"@)
            &&& t.libtest_test ==> given.contains("--test"@)
            &&& t.libtest_bench ==> given.contains("--bench"@)
            &&& t.libtest_list ==> given.contains("--list"@)
        }),
{
    reveal(direct_start);
    let a0 = text::views(t.libtest_filters@);
    assert(a0 =~= a0.subrange(0, a0.len() as int));
    let b1 = cli::when(t.libtest_exact, "--exact"@);
    lemma_when(t.libtest_exact, "--exact"@);
    lemma_join(a0, b1);
    let a1 = a0 + b1;
    let b2 = cli::pairs("--skip"@, text::views(t.libtest_skip@));
    lemma_pairs_len("--skip"@, text::views(t.libtest_skip@));
    lemma_join(a1, b2);
    let a2 = a1 + b2;
    let b3 = cli::when(t.libtest_force_run_in_process, "--force-run-in-process"@);
    lemma_when(t.libtest_force_run_in_process, "--force-run-in-process"@);
    lemma_join(a2, b3);
    let a3 = a2 + b3;
    let b4 = cli::when(t.libtest_exclude_should_panic, "--exclude-should-panic"@);
    lemma_when(t.libtest_exclude_should_panic, "--exclude-should-panic"@);
    lemma_join(a3, b4);
    let a4 = a3 + b4;
    let b5 = cli::when(t.libtest_test, "--test"@);
    lemma_when(t.libtest_test, "--test"@);
    lemma_join(a4, b5);
    let a5 = a4 + b5;
    let b6 = cli::when(t.libtest_bench, "--bench"@);
    lemma_when(t.libtest_bench, "--bench"@);
    lemma_join(a5, b6);
    let a6 = a5 + b6;
    let b7 = cli::when(t.libtest_list, "--list"@);
    lemma_when(t.libtest_list, "--list"@);
    lemma_join(a6, b7);
    let a7 = a6 + b7;
    assert(direct_start(t) == a7);
}

#[verifier::rlimit(60)]
proof fn lemma_direct_middle(t: TpxConfig)
    ensures
        ({
            let given = direct_middle(t);
            let filters = text::views(t.libtest_filters@);
            let skip = cli::pairs("--skip"@, text::views(t.libtest_skip@));
            &&& given.len() == t.libtest_filters@.len() + one_if(t.libtest_exact)
                + 2 * t.libtest_skip@.len() + one_if(t.libtest_force_run_in_process)
                + one_if(t.libtest_exclude_should_panic) + one_if(t.libtest_test)
                + one_if(t.libtest_bench) + one_if(t.libtest_list) + one_if(t.libtest_fail_fast)
                + one_if(t.libtest_help) + two_if(t.libtest_logfile is Some)
                + one_if(t.libtest_no_capture) + two_if(t.libtest_test_threads is Some)
                + one_if(t.libtest_quiet) + two_if(t.libtest_color is Some)
            &&& filters.is_prefix_of(given)
            &&& forall|f: Seq<char>, v: Seq<char>| #[trigger]
                followed(skip, f, v) ==> followed(given, f, v)
            &&& t.libtest_exact ==> given.contains("--exact"@)
            &&& t.libtest_force_run_in_process ==> given.contains("--force-run-in-process"@)
            &&& t.libtest_exclude_should_panic ==> given.contains("--exclude-should-panic"@)
            &&& t.libtest_test ==> given.contains("--test"@)
            &&& t.libtest_bench ==> given.contains("--bench"@)
            &&& t.libtest_list ==> given.contains("--list"@)
            &&& t.libtest_fail_fast ==> given.contains("--fail-fast"@)
            &&& t.libtest_help ==> given.contains("--help"@)
            &&& t.libtest_no_capture ==> given.contains("--no-capture"@)
            &&& t.libtest_quiet ==> given.contains("--quiet"@)
            &&& t.libtest_logfile matches Some(v) ==> followed(given, "--logfile"@, v@)
            &&& t.libtest_test_threads matches Some(v) ==> followed(given, "--test-threads"@, v@)
            &&& t.libtest_color matches Some(v) ==> followed(given, "--color"@, v@)
        }),
{
    lemma_direct_start(t);
    reveal(direct_middle);
    let a0 = direct_start(t);
    let b1 = cli::when(t.libtest_fail_fast, "--fail-fast"@);
    lemma_when(t.libtest_fail_fast, "--fail-fast"@);
    lemma_join(a0, b1);
    let a1 = a0 + b1;
    let b2 = cli::when(t.libtest_help, "--help"@);
    lemma_when(t.libtest_help, "--help"@);
    lemma_join(a1, b2);
    let a2 = a1 + b2;
    let b3 = cli::pair("--logfile"@, json::text_view(t.libtest_logfile));
    lemma_pair("--logfile"@, json::text_view(t.libtest_logfile));
    lemma_join(a2, b3);
    let a3 = a2 + b3;
    let b4 = cli::when(t.libtest_no_capture, "--no-capture"@);
    lemma_when(t.libtest_no_capture, "--no-capture"@);
    lemma_join(a3, b4);
    let a4 = a3 + b4;
    let b5 = cli::pair("--test-threads"@, json::text_view(t.libtest_test_threads));
    lemma_pair("--test-threads"@, json::text_view(t.libtest_test_threads));
    lemma_join(a4, b5);
    let a5 = a4 + b5;
    let b6 = cli::when(t.libtest_quiet, "--quiet"@);
    lemma_when(t.libtest_quiet, "--quiet"@);
    lemma_join(a5, b6);
    let a6 = a5 + b6;
    let b7 = cli::pair("--color"@, json::text_view(t.libtest_color));
    lemma_pair("--color"@, json::text_view(t.libtest_color));
    lemma_join(a6, b7);
    let a7 = a6 + b7;
    assert(direct_middle(t) == a7);
}

#[verifier::rlimit(60)]
proof fn lemma_direct(t: TpxConfig)
    ensures
        ({
            let given = cli::direct_args(t);
            let filters = text::views(t.libtest_filters@);
            let skip = cli::pairs("--skip"@, text::views(t.libtest_skip@));
            let unstable = cli::pairs("-Z"@, text::views(t.libtest_unstable_options@));
            &&& given.len() == t.libtest_filters@.len() + one_if(t.libtest_exact)
                + 2 * t.libtest_skip@.len() + one_if(t.libtest_force_run_in_process)
                + one_if(t.libtest_exclude_should_panic) + one_if(t.libtest_test)
                + one_if(t.libtest_bench) + one_if(t.libtest_list) + one_if(t.libtest_fail_fast)
                + one_if(t.libtest_help) + two_if(t.libtest_logfile is Some)
                + one_if(t.libtest_no_capture) + two_if(t.libtest_test_threads is Some)
                + one_if(t.libtest_quiet) + two_if(t.libtest_color is Some)
                + two_if(t.libtest_format is Some) + one_if(t.libtest_show_output)
                + 2 * t.libtest_unstable_options@.len() + one_if(t.libtest_report_time)
                + one_if(t.libtest_ensure_time) + one_if(t.libtest_shuffle)
                + two_if(t.libtest_shuffle_seed is Some)
            &&& filters.is_prefix_of(given)
            &&& forall|f: Seq<char>, v: Seq<char>| #[trigger]
                followed(skip, f, v) ==> followed(given, f, v)
            &&& forall|f: Seq<char>, v: Seq<char>| #[trigger]
                followed(unstable, f, v) ==> followed(given, f, v)
            &&& t.libtest_exact ==> given.contains("--exact"@)
            &&& t.libtest_force_run_in_process ==> given.contains("--force-run-in-process"@)
            &&& t.libtest_exclude_should_panic ==> given.contains("--exclude-should-panic"@)
            &&& t.libtest_test ==> given.contains("--test"@)
            &&& t.libtest_bench ==> given.contains("--bench"@)
            &&& t.libtest_list ==> given.contains("--list"@)
            &&& t.libtest_fail_fast ==> given.contains("--fail-fast"@)
            &&& t.libtest_help ==> given.contains("--help"@)
            &&& t.libtest_no_capture ==> given.contains("--no-capture"@)
            &&& t.libtest_quiet ==> given.contains("--quiet"@)
            &&& t.libtest_show_output ==> given.contains("--show-output"@)
            &&& t.libtest_report_time ==> given.contains("--report-time"@)
            &&& t.libtest_ensure_time ==> given.contains("--ensure-time"@)
            &&& t.libtest_shuffle ==> given.contains("--shuffle"@)
            &&& t.libtest_logfile matches Some(v) ==> followed(given, "--logfile"@, v@)
            &&& t.libtest_test_threads matches Some(v) ==> followed(given, "--test-threads"@, v@)
            &&& t.libtest_color matches Some(v) ==> followed(given, "--color"@, v@)
            &&& t.libtest_format matches Some(v) ==> followed(given, "--format"@, v@)
            &&& t.libtest_shuffle_seed matches Some(v) ==> followed(given, "--shuffle-seed"@, v@)
        }),
{
    lemma_direct_middle(t);
    let a0 = direct_middle(t);
    let b1 = cli::pair("--format"@, json::text_view(t.libtest_format));
    lemma_pair("--format"@, json::text_view(t.libtest_format));
    lemma_join(a0, b1);
    let a1 = a0 + b1;
    let b2 = cli::when(t.libtest_show_output, "--show-output"@);
    lemma_when(t.libtest_show_output, "--show-output"@);
    lemma_join(a1, b2);
    let a2 = a1 + b2;
    let b3 = cli::pairs("-Z"@, text::views(t.libtest_unstable_options@));
    lemma_pairs_len("-Z"@, text::views(t.libtest_unstable_options@));
    lemma_join(a2, b3);
    let a3 = a2 + b3;
    let b4 = cli::when(t.libtest_report_time, "--report-time"@);
    lemma_when(t.libtest_report_time, "--report-time"@);
    lemma_join(a3, b4);
    let a4 = a3 + b4;
    let b5 = cli::when(t.libtest_ensure_time, "--ensure-time"@);
    lemma_when(t.libtest_ensure_time, "--ensure-time"@);
    lemma_join(a4, b5);
    let a5 = a4 + b5;
    let b6 = cli::when(t.libtest_shuffle, "--shuffle"@);
    lemma_when(t.libtest_shuffle, "--shuffle"@);
    lemma_join(a5, b6);
    let a6 = a5 + b6;
    let b7 = cli::pair("--shuffle-seed"@, json::text_view(t.libtest_shuffle_seed));
    lemma_pair("--shuffle-seed"@, json::text_view(t.libtest_shuffle_seed));
    lemma_join(a6, b7);
    let a7 = a6 + b7;
    assert(cli::direct_args(t) == a7) by {
        reveal(direct_start);
        reveal(direct_middle);
    }
}

} // verus!

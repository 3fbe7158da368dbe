//! What is written down: logs of the history, listings and messages.

use vstd::bytes::*;
use vstd::prelude::*;
use vstd::relations::*;
use vstd::utf8::*;

use crate::duration_db::{
    DurationDb, DurationEstimate, DurationSample, Environment, FlakeEntry, PendingLogs, PerfEntry,
};
use crate::environment::ConstraintConflictError;
use crate::executor_server::{envelope_of, DeliveryError, SpecEnvelope};
use crate::ids::{TestNameId, TestNameInterner};
use crate::json::{self, JsonField, JsonView};
use crate::laws::decode::{lemma_member, lemma_says, says, silent_on, tells};
use crate::laws::history::{are_newest, has_failed, is_estimate, lemma_estimate, lemma_newest,
    recorded};
use crate::listing::{self, ListingParseError, TestCase, TestCaseKind};
use crate::names::NameMap;
use crate::num::{NonZeroU32, NonZeroU64, NonZeroUsize};
use crate::order::{self, Ranked};
use crate::proto::ExternalRunnerSpec;
use crate::result::{identities_of, FailureClass, IdentityView, TestIdentity};
use crate::scheduler::action::flakes_at;
use crate::scheduler::batches::{estimates_at, names_of};
use crate::scheduler::ci_report::{
    disabled_detail, finalize_failure, integrity_text, report_header, start_failure,
};
use crate::scheduler::discover::list_only_output;
use crate::scheduler::finish::{upload_file_name, upload_message};
use crate::scheduler::observe::ResultIntegrity;
use crate::scheduler::plan::TargetPlan;
use crate::scheduler::report::{
    fail_console_line, lost_action_reason, lost_target_reason, malformed_spec_reason,
    missing_override_reason,
};
use crate::cli::{RunnerConfig, SessionContext};
use crate::execution::fnv1a;
use crate::spec::{can_be_read, SpecError};
use crate::text;
use crate::time::Duration;
use crate::translator::{
    self, libtest_list_output, read_listed_case, LibtestListOutputFormat, LibtestUserArgs,
};
use crate::variant::Variant;

verus! {

// ---------------------------------------------------------------------------
// Logs.

/// The byte of an environment.
pub open spec fn env_byte(env: Environment) -> u8 {
    if env is Local {
        0
    } else {
        1
    }
}

/// The byte of a kind of failure.
pub open spec fn class_byte(class: Option<FailureClass>) -> u8 {
    match class {
        None => 0,
        Some(FailureClass::Fail) => 1,
        Some(FailureClass::Fatal) => 2,
        Some(FailureClass::Timeout) => 3,
        Some(FailureClass::Infra) => 4,
    }
}

/// Durations in the log: the environment, the key, the time and the duration of each, numbers
/// with their lowest byte first.
pub open spec fn duration_log(es: Seq<PerfEntry>) -> Seq<u8>
    decreases es.len(),
{
    if es.len() == 0 {
        Seq::empty()
    } else {
        seq![env_byte(es[0].env)] + spec_u64_to_le_bytes(es[0].key) + spec_u64_to_le_bytes(
            es[0].timestamp_ms,
        ) + spec_u64_to_le_bytes(es[0].duration_ms) + duration_log(es.skip(1))
    }
}

/// Runs in the log: the environment, the key, whether it failed, the kind of failure and the
/// time of each.
pub open spec fn run_log(es: Seq<FlakeEntry>) -> Seq<u8>
    decreases es.len(),
{
    if es.len() == 0 {
        Seq::empty()
    } else {
        let failed: u8 = if es[0].failed {
            1
        } else {
            0
        };
        seq![env_byte(es[0].env)] + spec_u64_to_le_bytes(es[0].key) + seq![
            failed,
            class_byte(es[0].class),
        ] + spec_u64_to_le_bytes(es[0].timestamp_ms) + run_log(es.skip(1))
    }
}

/// A text in the log: its length in four bytes, then its bytes.
pub open spec fn logged_text(s: Seq<char>) -> Seq<u8> {
    spec_u32_to_le_bytes(encode_utf8(s).len() as u32) + encode_utf8(s)
}

/// Names in the log: the key, the target, the name and the variant of each.
pub open spec fn name_log(es: Seq<(u64, IdentityView)>) -> Seq<u8>
    decreases es.len(),
{
    if es.len() == 0 {
        Seq::empty()
    } else {
        spec_u64_to_le_bytes(es[0].0) + logged_text(es[0].1.target) + logged_text(es[0].1.name)
            + logged_text(es[0].1.variant) + name_log(es.skip(1))
    }
}

proof fn lemma_duration_log_push(es: Seq<PerfEntry>, e: PerfEntry)
    ensures
        duration_log(es.push(e)) == duration_log(es) + crate::db_codec::perf_entry_bytes(e),
    decreases es.len(),
{
    let all = es.push(e);
    if es.len() == 0 {
        assert(all.skip(1) =~= Seq::<PerfEntry>::empty());
        assert(duration_log(all.skip(1)) =~= Seq::<u8>::empty());
    } else {
        assert(all.skip(1) =~= es.skip(1).push(e));
        lemma_duration_log_push(es.skip(1), e);
    }
    assert(duration_log(all) =~= duration_log(es) + crate::db_codec::perf_entry_bytes(e));
}

proof fn lemma_duration_log(es: Seq<PerfEntry>)
    ensures
        crate::db_codec::perf_log_bytes(es) == duration_log(es),
    decreases es.len(),
{
    if es.len() > 0 {
        lemma_duration_log(es.drop_last());
        assert(es =~= es.drop_last().push(es.last()));
        lemma_duration_log_push(es.drop_last(), es.last());
    }
}

proof fn lemma_run_log_push(es: Seq<FlakeEntry>, e: FlakeEntry)
    ensures
        run_log(es.push(e)) == run_log(es) + crate::db_codec::flake_entry_bytes(e),
    decreases es.len(),
{
    let all = es.push(e);
    if es.len() == 0 {
        assert(all.skip(1) =~= Seq::<FlakeEntry>::empty());
        assert(run_log(all.skip(1)) =~= Seq::<u8>::empty());
    } else {
        assert(all.skip(1) =~= es.skip(1).push(e));
        lemma_run_log_push(es.skip(1), e);
    }
    assert(run_log(all) =~= run_log(es) + crate::db_codec::flake_entry_bytes(e));
}

proof fn lemma_run_log(es: Seq<FlakeEntry>)
    ensures
        crate::db_codec::flake_log_bytes(es) == run_log(es),
    decreases es.len(),
{
    if es.len() > 0 {
        lemma_run_log(es.drop_last());
        assert(es =~= es.drop_last().push(es.last()));
        lemma_run_log_push(es.drop_last(), es.last());
    }
}

proof fn lemma_name_log_push(es: Seq<(u64, IdentityView)>, e: (u64, IdentityView))
    ensures
        name_log(es.push(e)) == name_log(es) + crate::db_codec::name_entry_bytes(e),
    decreases es.len(),
{
    let all = es.push(e);
    if es.len() == 0 {
        assert(all.skip(1) =~= Seq::<(u64, IdentityView)>::empty());
        assert(name_log(all.skip(1)) =~= Seq::<u8>::empty());
    } else {
        assert(all.skip(1) =~= es.skip(1).push(e));
        lemma_name_log_push(es.skip(1), e);
    }
    assert(name_log(all) =~= name_log(es) + crate::db_codec::name_entry_bytes(e));
}

proof fn lemma_name_log(es: Seq<(u64, IdentityView)>)
    ensures
        crate::db_codec::names_log_bytes(es) == name_log(es),
    decreases es.len(),
{
    if es.len() > 0 {
        lemma_name_log(es.drop_last());
        assert(es =~= es.drop_last().push(es.last()));
        lemma_name_log_push(es.drop_last(), es.last());
    }
}

/// A flush writes what was added since the last one, in the layout of the logs, and nothing
/// of it a second time; where nothing was added it writes nothing.
pub proof fn law_flushes_write_what_is_new(db: &mut DurationDb, r: PendingLogs)
    requires
        call_ensures(DurationDb::flush, (db,), r),
    ensures
        r.perf is Some <==> old(db)@.new_perf.len() > 0,
        r.perf matches Some(bytes) ==> bytes@ == duration_log(old(db)@.new_perf),
        r.flake is Some <==> old(db)@.new_flake.len() > 0,
        r.flake matches Some(bytes) ==> bytes@ == run_log(old(db)@.new_flake),
        r.names is Some <==> old(db)@.new_names.len() > 0,
        r.names matches Some(bytes) ==> bytes@ == name_log(old(db)@.new_names),
        final(db)@.new_perf.len() == 0,
        final(db)@.new_flake.len() == 0,
        final(db)@.new_names.len() == 0,
        final(db)@.local == old(db)@.local,
        final(db)@.remote == old(db)@.remote,
        final(db)@.names == old(db)@.names,
{
    lemma_duration_log(old(db)@.new_perf);
    lemma_run_log(old(db)@.new_flake);
    lemma_name_log(old(db)@.new_names);
}

/// What a run adds to the logs: itself, as it was; and the name of its test the first time.
pub proof fn law_runs_are_logged_as_they_were(
    db: &mut DurationDb,
    env: Environment,
    key: u64,
    id: &TestIdentity,
    duration: Duration,
    failed: bool,
    class: Option<FailureClass>,
    at: u64,
)
    requires
        call_ensures(DurationDb::record_by_key, (db, env, key, id, duration, failed, class, at), ()),
    ensures
        final(db)@.new_flake == old(db)@.new_flake.push(
            FlakeEntry { env, key, failed, class, timestamp_ms: at },
        ),
        !old(db)@.names.contains_key(key) ==> final(db)@.new_names == old(db)@.new_names.push(
            (key, id@),
        ),
        old(db)@.names.contains_key(key) ==> final(db)@.new_names == old(db)@.new_names,
{
}

/// The samples of a key are the newest that were recorded.
pub proof fn law_samples_are_the_newest(
    db: &DurationDb,
    env: Option<Environment>,
    key: u64,
    r: Vec<DurationSample>,
)
    requires
        call_ensures(DurationDb::get_perf_samples, (db, env, key), r),
    ensures
        are_newest(recorded(*db, env, key), r@),
{
    lemma_newest(recorded(*db, env, key));
    assert(recorded(*db, env, key) =~= db@.samples(env, key));
}

/// Under keys, too, flags and estimates are of the key itself.
pub proof fn law_keys_have_their_own_history(
    db: &DurationDb,
    keys: &[u64],
    flaky: Vec<bool>,
    estimates: Vec<DurationEstimate>,
    i: int,
)
    requires
        call_ensures(flakes_at, (db, keys), flaky),
        call_ensures(estimates_at, (db, keys), estimates),
    ensures
        flaky@.len() == keys@.len(),
        estimates@.len() == keys@.len(),
        0 <= i < keys@.len() ==> flaky@[i] == has_failed(*db, keys@[i]) && is_estimate(
            recorded(*db, None, keys@[i]),
            estimates@[i],
        ),
{
    if 0 <= i < keys@.len() {
        let key = keys@[i];
        lemma_estimate(recorded(*db, None, key));
        assert(recorded(*db, None, key) =~= db@.samples(None, key));
        assert(estimates@[i] == crate::duration_db::estimate_from(db@.samples(None, key)));
        assert(flaky@[i] == has_failed(*db, key));
    }
}

// ---------------------------------------------------------------------------
// Collections.

/// Sorting keeps the items and puts them in order.
pub proof fn law_sorting_keeps_the_items<T: Ranked>(items: Vec<T>, r: Vec<T>)
    requires
        call_ensures(order::sort::<T>, (items,), r),
    ensures
        r@.to_multiset() == items@.to_multiset(),
        forall|i: int, j: int|
            0 <= i < j < r@.len() ==> (#[trigger] r@[i]).ranks(#[trigger] r@[j]),
{
    order::lemma_ranked(items@);
    let leq = |a: T, b: T| a.ranks(b);
    assert forall|i: int, j: int| 0 <= i < j < r@.len() implies (#[trigger] r@[i]).ranks(
        #[trigger] r@[j],
    ) by {
        assert(leq(r@[i], r@[j]));
    }
}

/// Of two samples the newer ranks first; of two of one time, the longer.
pub proof fn law_newer_samples_rank_first(a: DurationSample, b: DurationSample, r: bool)
    requires
        call_ensures(<DurationSample as Ranked>::comes_first, (&a, &b), r),
    ensures
        a.timestamp_ms > b.timestamp_ms ==> r,
        a.timestamp_ms < b.timestamp_ms ==> !r,
        a.timestamp_ms == b.timestamp_ms ==> (r <==> a.duration_ms >= b.duration_ms),
{
}

/// A name has one id: a known name keeps its own and adds nothing, a new one gets the next.
pub proof fn law_names_have_one_id(names: &mut TestNameInterner, name: &str, r: TestNameId)
    requires
        call_ensures(TestNameInterner::intern, (names, name), r),
    ensures
        old(names)@.contains(name@) ==> final(names)@ == old(names)@,
        !old(names)@.contains(name@) ==> final(names)@ == old(names)@.push(name@) && r.0
            == old(names)@.len(),
        final(names)@[r.0 as int] == name@,
{
    if !old(names)@.contains(name@) {
        assert(final(names)@[old(names)@.len() as int] == name@);
    }
}

/// What stands under a name is what was put there last.
pub proof fn law_names_hold_what_was_put_last<V>(
    map: &mut NameMap<V>,
    name: &str,
    value: V,
    other: Seq<char>,
)
    requires
        call_ensures(NameMap::<V>::insert, (map, name, value), ()),
    ensures
        final(map)@.contains_key(name@) && final(map)@[name@] == value,
        other != name@ ==> final(map)@.contains_key(other) == old(map)@.contains_key(other)
            && final(map)@[other] == old(map)@[other],
{
}

/// The identities of some tests: the target and the variant of all, the name of each.
pub proof fn law_identities_have_the_own_name(
    target: &str,
    names: &[String],
    variant: &Variant,
    r: Vec<TestIdentity>,
)
    requires
        call_ensures(identities_of, (target, names, variant), r),
    ensures
        r@.len() == names@.len(),
        forall|i: int|
            0 <= i < r@.len() ==> (#[trigger] r@[i]).target@ == target@ && r@[i].name@
                == names@[i]@ && r@[i].variant == *variant,
{
}

/// The names of tests are those of the tests, in order.
pub proof fn law_names_are_those_of_the_tests(tests: &[TestCase], r: Vec<String>)
    requires
        call_ensures(names_of, (tests,), r),
    ensures
        r@.len() == tests@.len(),
        forall|i: int| 0 <= i < r@.len() ==> (#[trigger] r@[i])@ == tests@[i].name@,
{
}

// ---------------------------------------------------------------------------
// Specs on their way in.

/// A spec can be read where every value of its command and environment is there; a spec
/// without a target or a handle is refused before its values are looked at.
pub proof fn law_specs_without_values_cannot_be_read(spec: &ExternalRunnerSpec, r: bool)
    requires
        call_ensures(can_be_read, (spec,), r),
    ensures
        spec.target is None || spec.target->0.handle is None ==> r,
        spec.target is Some && spec.target->0.handle is Some ==> (r <==> (forall|i: int|
            0 <= i < spec.command@.len() ==> (#[trigger] spec.command@[i]).value is Some) && (
        forall|i: int|
            0 <= i < spec.env@.len() ==> (#[trigger] spec.env@[i]).1.value is Some)),
{
}

/// A request without a spec is refused; any other hands its spec on.
pub proof fn law_requests_hand_their_spec_on(
    spec: Option<ExternalRunnerSpec>,
    r: Result<SpecEnvelope, DeliveryError>,
)
    requires
        call_ensures(envelope_of, (spec,), r),
    ensures
        r is Err <==> spec is None,
        r is Err ==> r->Err_0 is MissingSpec,
        r matches Ok(SpecEnvelope::Spec(s)) ==> spec == Some(*s),
{
}

// ---------------------------------------------------------------------------
// Listings.

/// An object of a listing is a test where it says so: of type `test` or `benchmark`, with a
/// name, and discovered if it says what happened. It is ignored where it says that.
pub proof fn law_objects_of_a_listing_are_tests(
    fields: &[(String, JsonField)],
    kind: Seq<char>,
    event: Option<Seq<char>>,
    name: Option<Seq<char>>,
    message: Option<Seq<char>>,
    ignored: bool,
    r: Option<TestCase>,
)
    requires
        call_ensures(read_listed_case, (fields,), r),
        says(json::field_views(fields@), "type"@, Some(kind)),
        says(json::field_views(fields@), "event"@, event),
        says(json::field_views(fields@), "name"@, name),
        says(json::field_views(fields@), "ignore_message"@, message),
        tells(json::field_views(fields@), "ignore"@, JsonView::Bool(ignored)) || (!ignored
            && silent_on(json::field_views(fields@), "ignore"@)),
        silent_on(json::field_views(fields@), "source_path"@),
        silent_on(json::field_views(fields@), "start_line"@),
        silent_on(json::field_views(fields@), "start_col"@),
        silent_on(json::field_views(fields@), "end_line"@),
        silent_on(json::field_views(fields@), "end_col"@),
    ensures
        r is Some <==> (kind == "test"@ || kind == "benchmark"@) && name is Some && (event is None
            || event->0 == "discovered"@),
        r matches Some(case) ==> {
            &&& case.name@ == name->0
            &&& case.kind is Benchmark <==> kind == "benchmark"@
            &&& case.ignored == ignored
            &&& message is Some <==> case.metadata.ignore_message is Some
            &&& message is Some ==> case.metadata.ignore_message->0@ == message->0
            &&& case.metadata.location is None
        },
{
    let f = json::field_views(fields@);
    reveal_strlit("test");
    reveal_strlit("benchmark");
    assert("test"@.len() == 4 && "benchmark"@.len() == 9);
    lemma_says(f, "type"@);
    lemma_says(f, "event"@);
    lemma_says(f, "name"@);
    lemma_says(f, "ignore_message"@);
    lemma_says(f, "source_path"@);
    assert(says(f, "source_path"@, None));
    lemma_member(f, "ignore"@);
    lemma_member(f, "start_line"@);
    lemma_member(f, "start_col"@);
    lemma_member(f, "end_line"@);
    lemma_member(f, "end_col"@);
}

/// How a listing is shown: as JSON where that format is asked for, else as text, with a
/// summary unless it is to be terse.
pub proof fn law_terse_listings_have_no_summary(user: LibtestUserArgs, r: LibtestListOutputFormat)
    requires
        call_ensures(LibtestUserArgs::list_output_format, (&user,), r),
    ensures
        r is Json <==> user.output_format is Json,
        user.output_format is Terse ==> r == (LibtestListOutputFormat::Text { summary: false }),
        user.output_format is Pretty || user.output_format is Junit ==> r == (
        LibtestListOutputFormat::Text { summary: true }),
{
}

/// The lines of a text listing.
pub open spec fn shown_lines(tests: Seq<TestCase>) -> Seq<char>
    decreases tests.len(),
{
    if tests.len() == 0 {
        Seq::empty()
    } else {
        tests[0].name@ + (if tests[0].kind is Benchmark {
            ": benchmark\n"@
        } else {
            ": test\n"@
        }) + shown_lines(tests.skip(1))
    }
}

proof fn lemma_shown_push(tests: Seq<TestCase>, last: TestCase)
    ensures
        shown_lines(tests.push(last)) == shown_lines(tests) + translator::text_line(last@),
    decreases tests.len(),
{
    let all = tests.push(last);
    if tests.len() == 0 {
        assert(all.skip(1) =~= Seq::<TestCase>::empty());
        assert(shown_lines(all.skip(1)) =~= Seq::<char>::empty());
    } else {
        assert(all.skip(1) =~= tests.skip(1).push(last));
        lemma_shown_push(tests.skip(1), last);
    }
    assert(shown_lines(all) =~= shown_lines(tests) + translator::text_line(last@));
}

proof fn lemma_shown(tests: Seq<TestCase>)
    ensures
        translator::text_lines(listing::case_views(tests)) == shown_lines(tests),
    decreases tests.len(),
{
    let cases = listing::case_views(tests);
    if tests.len() > 0 {
        lemma_shown(tests.drop_last());
        assert(cases.drop_last() =~= listing::case_views(tests.drop_last()));
        assert(tests =~= tests.drop_last().push(tests.last()));
        lemma_shown_push(tests.drop_last(), tests.last());
    }
}

/// A count and what is counted, in the singular for one.
pub open spec fn number_of(count: nat, one: Seq<char>, several: Seq<char>) -> Seq<char> {
    text::decimal(count) + " "@ + (if count == 1 {
        one
    } else {
        several
    })
}

proof fn lemma_kind_count(tests: Seq<TestCase>, kind: TestCaseKind)
    ensures
        translator::kind_count(listing::case_views(tests), kind) == tests.filter(
            |t: TestCase| t.kind == kind,
        ).len(),
    decreases tests.len(),
{
    reveal(Seq::filter);
    let cases = listing::case_views(tests);
    if tests.len() > 0 {
        lemma_kind_count(tests.drop_last(), kind);
        assert(cases.drop_last() =~= listing::case_views(tests.drop_last()));
        assert(cases.last().kind == tests.last().kind);
    }
}

/// A text listing names every test on a line of its own, in order, and closes with the number
/// of tests and of benchmarks unless it is to be terse.
pub proof fn law_listings_name_every_test(
    args: &[String],
    tests: &[TestCase],
    user: LibtestUserArgs,
    r: String,
)
    requires
        call_ensures(LibtestUserArgs::parse, (args,), user),
        call_ensures(libtest_list_output, (args, tests), r),
    ensures
        user.output_format is Terse ==> r@ == shown_lines(tests@),
        user.output_format is Pretty || user.output_format is Junit ==> r@ == shown_lines(tests@) + (
        "\n"@ + number_of(
            tests@.filter(|t: TestCase| t.kind == TestCaseKind::Test).len(),
            "test"@,
            "tests"@,
        ) + ", "@ + number_of(
            tests@.filter(|t: TestCase| t.kind == TestCaseKind::Benchmark).len(),
            "benchmark"@,
            "benchmarks"@,
        ) + "\n"@),
{
    lemma_shown(tests@);
    lemma_kind_count(tests@, TestCaseKind::Test);
    lemma_kind_count(tests@, TestCaseKind::Benchmark);
    if user.output_format is Terse {
        assert(r@ =~= shown_lines(tests@));
    }
}

/// Tests are only shown where a listing alone is asked for.
pub proof fn law_only_listings_are_shown(
    config: &RunnerConfig,
    tests: &[TestCase],
    args: &[String],
    shown: String,
    r: Option<String>,
)
    requires
        call_ensures(list_only_output, (config, tests), r),
        args@ == config.extra_test_args@ + config.direct_libtest_args@,
        call_ensures(libtest_list_output, (args, tests), shown),
    ensures
        r is Some <==> config.libtest_list_only,
        r matches Some(output) ==> output@ == shown@,
{
}

// ---------------------------------------------------------------------------
// Messages.

/// What the console says of a failed test.
pub proof fn law_failures_are_shown_with_their_details(name: &str, details: &str, r: String)
    requires
        call_ensures(fail_console_line, (name, details), r),
    ensures
        details@.len() == 0 ==> r@ == "FAIL "@ + name@,
        details@.len() > 0 ==> r@ == "FAIL "@ + name@ + "\n"@ + details@,
{
}

/// A log that is uploaded is named by the process and by what it holds.
pub proof fn law_uploads_are_named_by_what_they_hold(
    process: u32,
    details: &str,
    bytes: &[u8],
    hash: u64,
    r: String,
)
    requires
        call_ensures(upload_file_name, (process, details), r),
        bytes@ == encode_utf8(details@),
        call_ensures(fnv1a, (0xcbf29ce484222325u64, bytes), hash),
    ensures
        r@ == "brtr-log-"@ + text::decimal(process as nat) + "-"@ + text::decimal(hash as nat)
            + ".txt"@,
{
}

/// What is left of a log that was uploaded: its size and where it is.
pub proof fn law_uploads_tell_their_size(details: &str, hash: &str, size: i64, r: String)
    requires
        call_ensures(upload_message, (details, hash, size), r),
    ensures
        r@ == "[log "@ + text::decimal(encode_utf8(details@).len()) + " bytes uploaded to CAS: "@
            + hash@ + "/"@ + text::signed_decimal(size as int) + "]"@,
{
}

/// Why a run fails beside its tests.
pub proof fn law_reasons_are_told(
    target: &str,
    message: Option<&str>,
    missing: String,
    lost: String,
    lost_action: String,
)
    requires
        call_ensures(missing_override_reason, (target,), missing),
        call_ensures(lost_target_reason, (target, message), lost),
        call_ensures(lost_action_reason, (), lost_action),
    ensures
        missing@ == "cgroup memory override target was not received: "@ + target@,
        message is Some ==> lost@ == "target "@ + target@ + " panicked: "@ + message->0@,
        message is None ==> lost@ == "target "@ + target@ + " panicked: "@
            + "non-string panic payload"@,
        lost_action@ == "a test action task panicked"@,
{
}

/// What is said of a spec that is dropped.
pub proof fn law_dropped_specs_are_told(
    display: Option<String>,
    error: SpecError,
    message: String,
    r: String,
)
    requires
        call_ensures(malformed_spec_reason, (display, error), r),
        call_ensures(SpecError::message, (&error,), message),
    ensures
        display is Some ==> r@ == "dropping malformed spec for "@ + display->0@ + ": "@ + message@,
        display is None ==> r@ == "dropping malformed spec for "@ + "<unknown target>"@ + ": "@
            + message@,
{
}

/// What is said of a report for CI that cannot be written.
pub proof fn law_lost_reports_are_told(
    path: &str,
    error: &str,
    leftover: Option<&str>,
    started: String,
    disabled: String,
    finalized: String,
)
    requires
        call_ensures(start_failure, (path, error), started),
        call_ensures(disabled_detail, (error, leftover), disabled),
        call_ensures(finalize_failure, (error,), finalized),
    ensures
        started@ == "failed to start "@ + path@ + ": "@ + error@,
        leftover is None ==> disabled@ == "CI test report disabled: "@ + error@,
        leftover is Some ==> disabled@ == "CI test report disabled: "@ + error@
            + "; failed to remove temporary report: "@ + leftover->0@,
        finalized@ == "failed to finalize CI test report: "@ + error@,
{
    if leftover is None {
        assert(disabled@ =~= "CI test report disabled: "@ + error@);
    }
    if leftover is Some {
        assert(disabled@ =~= "CI test report disabled: "@ + error@
            + "; failed to remove temporary report: "@ + leftover->0@);
    }
}

/// The head of a report names its schema, the host and the trace.
pub proof fn law_reports_name_their_host(context: &SessionContext, r: String)
    requires
        call_ensures(report_header, (context,), r),
    ensures
        ({
            let host = match context.host_platform {
                Some(host) => json::json_quoted(host@),
                None => "null"@,
            };
            let trace = match context.trace_id {
                Some(trace) => json::json_quoted(trace@),
                None => "null"@,
            };
            r@ == "{\"schema\":\"quokka.ci-test-report.v1\",\"host_platform\":"@ + host
                + ",\"trace_id\":"@ + trace + ",\"tests\":["@
        }),
{
}

/// How a report calls whether a result was seen to its end.
pub proof fn law_integrity_has_its_names(integrity: ResultIntegrity, r: &'static str)
    requires
        call_ensures(integrity_text, (integrity,), r),
    ensures
        integrity is Complete ==> r@ == "complete"@,
        integrity is MissingTerminalResult ==> r@ == "missing_terminal_result"@,
{
}

/// What is said of a delivery that is refused, of needs that nothing meets, and of a listing
/// that is no text.
pub proof fn law_refusals_are_told(
    delivery: DeliveryError,
    a: String,
    conflict: ConstraintConflictError,
    b: String,
    listing: ListingParseError,
    c: String,
)
    requires
        call_ensures(DeliveryError::message, (&delivery,), a),
        call_ensures(ConstraintConflictError::message, (&conflict,), b),
        call_ensures(ListingParseError::message, (&listing,), c),
    ensures
        delivery is MissingSpec ==> a@ == "ExternalRunnerSpecRequest missing test_spec"@,
        delivery is IntakeClosed ==> a@ == "test runner scheduler is no longer accepting specs"@,
        b@ == "Constraint conflict: "@ + conflict.0@,
        c@ == "listing output was not valid UTF-8"@,
{
}

/// A test starts out with its name, its kind and whether it is ignored, and nothing else.
pub proof fn law_fresh_tests_have_no_metadata(
    name: String,
    kind: TestCaseKind,
    ignored: bool,
    r: TestCase,
)
    requires
        call_ensures(TestCase::new, (name, kind, ignored), r),
    ensures
        r.name@ == name@,
        r.kind == kind,
        r.ignored == ignored,
        r.metadata.ignore_message is None,
        r.metadata.location is None,
{
}

/// Numbers that are not zero are all but zero.
pub proof fn law_zero_is_left_out(
    n: u32,
    m: usize,
    k: u64,
    a: Option<NonZeroU32>,
    b: Option<NonZeroUsize>,
    c: Option<NonZeroU64>,
)
    requires
        call_ensures(NonZeroU32::new, (n,), a),
        call_ensures(NonZeroUsize::new, (m,), b),
        call_ensures(NonZeroU64::new, (k,), c),
    ensures
        n == 0 ==> a is None,
        n > 0 ==> a is Some && a->0.spec_get() == n,
        m == 0 ==> b is None,
        m > 0 ==> b is Some && b->0.spec_get() == m,
        k == 0 ==> c is None,
        k > 0 ==> c is Some && c->0.spec_get() == k,
{
}

/// A plan is quarantined where its target is, and runs as a whole unless its tests are listed.
pub proof fn law_only_listed_targets_are_split(
    plan: &TargetPlan,
    quarantined: bool,
    whole: bool,
)
    requires
        call_ensures(TargetPlan::quarantined, (plan,), quarantined),
        call_ensures(TargetPlan::runs_as_a_whole, (plan,), whole),
    ensures
        quarantined <==> plan.quarantine is Quarantined,
        whole <==> !(plan.translator is Libtest),
{
}

} // verus!

//! The command line of the runner.
//!
//! The build tool invokes the runner as:
//! ```text
//! <runner> --buck-trace-id <id> --config-entry host=<p> [--config-entry ...] \
//!          --executor-fd <N> --orchestrator-fd <N> -- <tpx_args...>
//! ```
//! (TCP mode has `--executor-addr`/`--orchestrator-addr` in place of the fds.)
//! The tpx args always begin `["ignored", "--buck-test-info", "ignored", ...]`,
//! where the first `ignored` stands for a program name.
//!
//! The argument list is split on the first `--`: the left are the outer flags, the
//! right the tpx args, and each part is read by its own table of options.

use vstd::prelude::*;

use crate::batching::{BatchFailurePolicy, BatchMode};
use crate::config::QuokkaConfig;
use crate::execution::{
    self, CgroupGranularity, CgroupMemoryMax, CgroupMemoryMaxOverride,
    DEFAULT_CGROUP_MEMORY_MAX_BYTES,
};
use crate::json;
use crate::listing::IgnoredPolicy;
use crate::num::{NonZeroU32, NonZeroUsize};
use crate::options::{
    self, defaulted, flag, get_flag, get_text, get_texts, parse_between, push_option,
    read_arguments, valued, OptionSpec, Takes,
};
use crate::text::{
    self, chars_of, copy_strings, decimal_text, parse_unsigned_chars, split_once_chars, str_eq,
    string_of, strip_prefix_chars,
};
use crate::time::Duration;
use crate::translator::{
    self, libtest_user_ignored_policies, libtest_user_requests_help,
    libtest_user_requests_listing_only, libtest_user_usage_error, ListFormat, RunFormat,
};
use crate::variant::{RepeatKind, Variant};

verus! {

/// Outer flags before `--`.
#[derive(Debug)]
pub struct OuterCli {
    pub buck_trace_id: Option<String>,
    /// Repeated `key=value` context entries.
    pub config_entry: Vec<String>,
    pub executor_fd: Option<i32>,
    pub orchestrator_fd: Option<i32>,
    pub executor_addr: Option<String>,
    pub orchestrator_addr: Option<String>,
}

/// Args behind `--`: what the build tool sends, and the flags of the runner and of
/// the test harness that the user adds.
#[derive(Debug)]
pub struct TpxConfig {
    /// Accepted and not read; the build tool always sends it.
    pub buck_test_info: Option<String>,
    /// Extra environment, `--env NAME=VALUE`, added to every test.
    pub env: Vec<String>,
    /// Declared output env, `--declared-output-env NAME=OUTPUT_DIR`, added to every
    /// test action as a variable whose value is a declared output directory.
    pub declared_output_env: Vec<String>,
    /// Extra verbatim args appended to every test command.
    pub test_arg: Vec<String>,
    /// Default per-test timeout, seconds.
    pub timeout: u64,
    /// Listing action timeout, seconds.
    pub listing_timeout: u64,
    /// Memory-cgroup unit: `logical-test` or `action`.
    pub cgroup_granularity: String,
    /// Exact `target|test|memory.max` overrides for singleton test actions.
    pub cgroup_memory_max_overrides: Vec<String>,
    pub include_ignored: bool,
    pub ignored: bool,
    pub ignored_only: bool,
    /// `text` or `json`.
    pub list_format: String,
    /// `text` or `json`.
    pub run_format: String,
    /// `fixed-chunk`, `per-test`, `duration-bucketed`, or `target`.
    pub batch_mode: String,
    /// Tests per action for fixed chunks (clamped to at least one).
    pub chunk_size: usize,
    pub batch_threshold_ms: u64,
    /// What to do when a batch fails to attribute a result to every member:
    /// `isolate` (re-run failing members singly) or `fail-all`.
    pub batch_failure_policy: String,
    pub variant: String,
    /// Stress repetitions (0 = run once).
    pub stress: u32,
    /// Repetitions of a target with the `rust:stress` label when no global
    /// `--stress` is set.
    pub stress_label_reps: u32,
    pub shard_index: u16,
    pub shard_count: u16,
    /// Force every action onto the local-debug executor.
    pub local_debug: bool,
    /// Attempts granted to flaky targets (at least one).
    pub flaky_attempts: u32,
    /// Directory of the advisory duration/flake metadata store.
    pub duration_db: Option<String>,
    /// Disable the advisory store, and with it cache busting for unseen tests.
    pub no_duration_db: bool,
    /// Write one structured result for this session.
    pub ci_test_report_json: Option<String>,
    /// Captured logs larger than this many bytes are uploaded.
    pub cas_inline_limit: usize,
    pub max_inflight_test_actions: usize,
    pub max_inflight_listings: usize,
    pub max_inflight_per_target: usize,
    pub libtest_force_run_in_process: bool,
    pub libtest_exclude_should_panic: bool,
    pub libtest_test: bool,
    pub libtest_bench: bool,
    pub libtest_list: bool,
    pub libtest_fail_fast: bool,
    pub libtest_help: bool,
    pub libtest_logfile: Option<String>,
    pub libtest_no_capture: bool,
    pub libtest_test_threads: Option<String>,
    pub libtest_skip: Vec<String>,
    pub libtest_quiet: bool,
    pub libtest_exact: bool,
    pub libtest_color: Option<String>,
    pub libtest_format: Option<String>,
    pub libtest_show_output: bool,
    pub libtest_unstable_options: Vec<String>,
    pub libtest_report_time: bool,
    pub libtest_ensure_time: bool,
    pub libtest_shuffle: bool,
    pub libtest_shuffle_seed: Option<String>,
    pub libtest_filters: Vec<String>,
}

/// How the two service channels of the runner are connected.
#[derive(Debug, Clone)]
pub enum Transport {
    UnixFds { executor_fd: i32, orchestrator_fd: i32 },
    Tcp { executor_addr: String, orchestrator_addr: String },
}

/// CI shard selection.
#[derive(Debug, Clone, Copy, PartialEq, Eq, Structural)]
pub struct ShardSpec {
    pub index: u16,
    pub count: u16,
}

impl ShardSpec {
    pub fn is_sharded(&self) -> (r: bool)
        ensures
            r == (self.count > 1),
    {
        self.count > 1
    }
}

/// Concurrency limits for the scheduler.
#[derive(Debug, Clone, Copy, PartialEq, Eq, Structural)]
pub struct SchedulerLimits {
    pub max_inflight_listings: usize,
    pub max_inflight_test_actions: usize,
    pub max_inflight_per_target: usize,
    pub max_report_queue: usize,
}

impl Default for SchedulerLimits {
    fn default() -> (r: Self)
        ensures
            r.max_inflight_listings == 256,
            r.max_inflight_test_actions == 2_000,
            r.max_inflight_per_target == 128,
            r.max_report_queue == 1_024,
    {
        SchedulerLimits {
            max_inflight_listings: 256,
            max_inflight_test_actions: 2_000,
            max_inflight_per_target: 128,
            max_report_queue: 1_024,
        }
    }
}

/// Where the duration database is, after the command line and the defaults of the
/// program are read.
#[derive(Debug, Clone, PartialEq, Eq)]
pub enum DurationDbConfig {
    Auto,
    Persistent(String),
    Disabled,
}

impl DurationDbConfig {
    /// Puts the default of the program in place of `Auto`.
    pub fn resolve_auto(&mut self, path: Option<String>)
        ensures
            *final(self) == (match (*old(self), path) {
                (DurationDbConfig::Auto, Some(path)) => DurationDbConfig::Persistent(path),
                _ => *old(self),
            }),
    {
        if matches!(self, DurationDbConfig::Auto) {
            if let Some(path) = path {
                *self = DurationDbConfig::Persistent(path);
            }
        }
    }

    /// The directory of the database, if there is one.
    pub fn persistent_path(&self) -> (r: Option<&str>)
        ensures
            r is Some <==> *self is Persistent,
            r matches Some(path) ==> (self matches DurationDbConfig::Persistent(p) && p@ == path@),
    {
        match self {
            DurationDbConfig::Persistent(path) => Some(path.as_str()),
            DurationDbConfig::Auto | DurationDbConfig::Disabled => None,
        }
    }

    /// Whether a test without history is kept from being served from the cache.
    pub fn cache_busts_unseen_tests(&self) -> (r: bool)
        ensures
            r == (*self is Persistent),
    {
        matches!(self, DurationDbConfig::Persistent(_))
    }
}

/// Fully resolved, typed runner configuration.
#[derive(Debug)]
pub struct RunnerConfig {
    pub per_test_timeout: Duration,
    pub listing_timeout: Duration,
    pub cgroup_granularity: CgroupGranularity,
    pub cgroup_memory_max: CgroupMemoryMax,
    pub cgroup_memory_max_overrides: Vec<CgroupMemoryMaxOverride>,
    pub ignored: IgnoredPolicy,
    pub list_format: ListFormat,
    pub run_format: RunFormat,
    pub batch_mode: BatchMode,
    pub batch_failure_policy: BatchFailurePolicy,
    pub variant: Variant,
    pub stress: RepeatKind,
    /// Repetitions of a `rust:stress`-labelled target when `--stress` is unset.
    pub stress_label_reps: NonZeroU32,
    pub shard: ShardSpec,
    pub local_debug: bool,
    pub flaky_attempts: u32,
    pub limits: SchedulerLimits,
    pub cas_inline_limit: usize,
    pub duration_db: DurationDbConfig,
    pub ci_test_report_json: Option<String>,
    pub libtest_help_only: bool,
    pub libtest_usage_error: Option<String>,
    pub libtest_list_only: bool,
    /// Libtest flags written directly behind the runner's separator. These are
    /// only forwarded to libtest and doctest targets, unlike `--test-arg`, which
    /// is deliberately framework-agnostic.
    pub direct_libtest_args: Vec<String>,
    pub extra_test_args: Vec<String>,
    pub extra_env: Vec<(String, String)>,
    pub declared_output_env: Vec<(String, String)>,
    pub quokka_config: QuokkaConfig,
}

impl RunnerConfig {
    /// What libtest and doctest targets get: the framework-agnostic arguments, then
    /// the direct ones.
    pub open spec fn spec_effective_libtest_args(self) -> Seq<String> {
        self.extra_test_args@ + self.direct_libtest_args@
    }

    /// What libtest and doctest targets get.
    pub fn effective_libtest_args(&self) -> (r: Vec<String>)
        ensures
            r@ == self.spec_effective_libtest_args(),
    {
        joined(self.extra_test_args.as_slice(), self.direct_libtest_args.as_slice())
    }
}

/// Texts, then further texts.
fn joined(a: &[String], b: &[String]) -> (r: Vec<String>)
    ensures
        r@ == a@ + b@,
{
    let mut out: Vec<String> = copy_strings(a);
    let mut i: usize = 0;
    proof {
        assert(a@ + b@.take(0) =~= a@);
    }
    while i < b.len()
        invariant
            i <= b.len(),
            out@ == a@ + b@.take(i as int),
        decreases b.len() - i,
    {
        out.push(b[i].clone());
        proof {
            assert(a@ + b@.take(i + 1) =~= (a@ + b@.take(i as int)).push(b@[i as int]));
        }
        i += 1;
    }
    proof {
        assert(b@.take(i as int) =~= b@);
    }
    out
}

/// Contextual metadata of the test session.
#[derive(Debug, Clone)]
pub struct SessionContext {
    pub host_platform: Option<String>,
    pub trace_id: Option<String>,
}

/// A parsed invocation: how to connect, and the resolved config.
#[derive(Debug)]
pub struct Invocation {
    pub transport: Transport,
    pub config: RunnerConfig,
    pub context: SessionContext,
}

/// What the environment says of the memory limit of a test.
#[derive(Debug, Clone)]
pub enum MemoryMaxEnv {
    NotPresent,
    Value(String),
    /// Not Unicode; the text shows it with replacement characters.
    NotUnicode(String),
}

/// What the runner reads beside its arguments.
#[derive(Debug, Clone)]
pub struct Surroundings {
    pub memory_max: MemoryMaxEnv,
    pub quokka_config: QuokkaConfig,
}

/// Why an argument list is refused.
#[derive(Debug)]
pub enum CliError {
    MissingTransport,
    InvalidValue { field: &'static str, value: String },
    IgnoredOnlyNeedsJsonListing,
    InvalidEnv(String),
    InvalidDeclaredOutputEnv(String),
    ShardOutOfRange { index: u16, count: u16 },
    ConflictingDurationDbFlags,
    /// The options do not admit the arguments; the text says why.
    Parse(String),
}

/// Why an argument list is refused, as a mathematical value.
pub enum CliErrorView {
    MissingTransport,
    InvalidValue { field: Seq<char>, value: Seq<char> },
    IgnoredOnlyNeedsJsonListing,
    InvalidEnv(Seq<char>),
    InvalidDeclaredOutputEnv(Seq<char>),
    ShardOutOfRange { index: u16, count: u16 },
    ConflictingDurationDbFlags,
    Parse(Seq<char>),
}

impl View for CliError {
    type V = CliErrorView;

    open spec fn view(&self) -> CliErrorView {
        match *self {
            CliError::MissingTransport => CliErrorView::MissingTransport,
            CliError::InvalidValue { field, value } => CliErrorView::InvalidValue {
                field: field@,
                value: value@,
            },
            CliError::IgnoredOnlyNeedsJsonListing => CliErrorView::IgnoredOnlyNeedsJsonListing,
            CliError::InvalidEnv(entry) => CliErrorView::InvalidEnv(entry@),
            CliError::InvalidDeclaredOutputEnv(entry) => CliErrorView::InvalidDeclaredOutputEnv(
                entry@,
            ),
            CliError::ShardOutOfRange { index, count } => CliErrorView::ShardOutOfRange {
                index,
                count,
            },
            CliError::ConflictingDurationDbFlags => CliErrorView::ConflictingDurationDbFlags,
            CliError::Parse(message) => CliErrorView::Parse(message@),
        }
    }
}

impl CliErrorView {
    /// The message of the error.
    pub open spec fn message(self) -> Seq<char> {
        match self {
            CliErrorView::MissingTransport => "missing transport: provide --executor-fd/--orchestrator-fd or --executor-addr/--orchestrator-addr"@,
            CliErrorView::InvalidValue { field, value } => "invalid "@ + field + ": `"@ + value
                + "`"@,
            CliErrorView::IgnoredOnlyNeedsJsonListing => "--ignored-only requires --list-format json: stable text `--list` cannot report a test's ignored status, so an ignored-only run would list and run zero tests"@,
            CliErrorView::InvalidEnv(entry) => "invalid --env entry `"@ + entry
                + "` (expected NAME=VALUE)"@,
            CliErrorView::InvalidDeclaredOutputEnv(entry) => "invalid --declared-output-env entry `"@
                + entry + "` (expected NAME=OUTPUT_DIR with both sides non-empty)"@,
            CliErrorView::ShardOutOfRange { index, count } => "--shard-index "@ + text::decimal(
                index as nat,
            ) + " is out of range for --shard-count "@ + text::decimal(count as nat),
            CliErrorView::ConflictingDurationDbFlags => "--duration-db and --no-duration-db cannot be used together"@,
            CliErrorView::Parse(message) => message,
        }
    }
}

impl CliError {
    /// The message of the error.
    pub fn message(&self) -> (r: String)
        ensures
            r@ == self@.message(),
    {
        match self {
            CliError::MissingTransport => {
                "missing transport: provide --executor-fd/--orchestrator-fd or --executor-addr/--orchestrator-addr".to_owned()
            },
            CliError::InvalidValue { field, value } => {
                let mut out: String = "invalid ".to_owned();
                out.push_str(field);
                out.push_str(": `");
                out.push_str(value.as_str());
                out.push_str("`");
                out
            },
            CliError::IgnoredOnlyNeedsJsonListing => {
                "--ignored-only requires --list-format json: stable text `--list` cannot report a test's ignored status, so an ignored-only run would list and run zero tests".to_owned()
            },
            CliError::InvalidEnv(entry) => {
                let mut out: String = "invalid --env entry `".to_owned();
                out.push_str(entry.as_str());
                out.push_str("` (expected NAME=VALUE)");
                out
            },
            CliError::InvalidDeclaredOutputEnv(entry) => {
                let mut out: String = "invalid --declared-output-env entry `".to_owned();
                out.push_str(entry.as_str());
                out.push_str("` (expected NAME=OUTPUT_DIR with both sides non-empty)");
                out
            },
            CliError::ShardOutOfRange { index, count } => {
                let mut out: String = "--shard-index ".to_owned();
                out.push_str(decimal_text(*index as u64).as_str());
                out.push_str(" is out of range for --shard-count ");
                out.push_str(decimal_text(*count as u64).as_str());
                out
            },
            CliError::ConflictingDurationDbFlags => {
                "--duration-db and --no-duration-db cannot be used together".to_owned()
            },
            CliError::Parse(message) => message.clone(),
        }
    }
}

// ---------------------------------------------------------------------------
// The two tables of options.

/// The range of a file descriptor.
pub open spec fn fd_range() -> Takes {
    Takes::Between { min: -0x8000_0000i64, max: 0x7fff_ffff }
}

/// The options before `--`.
pub open spec fn outer_table() -> Seq<options::OptionView> {
    seq![
        options::valued_view("buck-trace-id"@, "BUCK_TRACE_ID"@, Takes::Text, None),
        options::valued_view("config-entry"@, "CONFIG_ENTRY"@, Takes::Texts, None),
        options::valued_view("executor-fd"@, "EXECUTOR_FD"@, fd_range(), None),
        options::valued_view("orchestrator-fd"@, "ORCHESTRATOR_FD"@, fd_range(), None),
        options::valued_view("executor-addr"@, "EXECUTOR_ADDR"@, Takes::Text, None),
        options::valued_view("orchestrator-addr"@, "ORCHESTRATOR_ADDR"@, Takes::Text, None),
    ]
}

fn outer_options() -> (r: Vec<OptionSpec>)
    ensures
        options::option_views(r@) == outer_table(),
{
    let mut table: Vec<OptionSpec> = Vec::new();
    proof {
        assert(options::option_views(table@) =~= Seq::<options::OptionView>::empty());
    }
    push_option(&mut table, valued("buck-trace-id", "BUCK_TRACE_ID", Takes::Text));
    push_option(&mut table, valued("config-entry", "CONFIG_ENTRY", Takes::Texts));
    push_option(&mut table, valued("executor-fd", "EXECUTOR_FD", Takes::Between { min: -0x8000_0000, max: 0x7fff_ffff }));
    push_option(&mut table, valued("orchestrator-fd", "ORCHESTRATOR_FD", Takes::Between { min: -0x8000_0000, max: 0x7fff_ffff }));
    push_option(&mut table, valued("executor-addr", "EXECUTOR_ADDR", Takes::Text));
    push_option(&mut table, valued("orchestrator-addr", "ORCHESTRATOR_ADDR", Takes::Text));
    table
}

/// The options behind `--`.
pub open spec fn tpx_table() -> Seq<options::OptionView> {
    seq![
        options::valued_view("buck-test-info"@, "BUCK_TEST_INFO"@, Takes::Text, None),
        options::valued_view("env"@, "ENV"@, Takes::Texts, None),
        options::valued_view("declared-output-env"@, "DECLARED_OUTPUT_ENV"@, Takes::Texts, None),
        (options::OptionView { hyphens: true, ..options::valued_view("test-arg"@, "TEST_ARG"@, Takes::Texts, None) }),
        options::valued_view("timeout"@, "TIMEOUT"@, Takes::U64, Some("600"@)),
        options::valued_view("listing-timeout"@, "LISTING_TIMEOUT"@, Takes::U64, Some("600"@)),
        options::valued_view("cgroup-granularity"@, "CGROUP_GRANULARITY"@, Takes::Text, Some("action"@)),
        options::valued_view("cgroup-memory-max-override"@, "CGROUP_MEMORY_MAX_OVERRIDES"@, Takes::Texts, None),
        options::flag_view("include-ignored"@),
        options::flag_view("ignored"@),
        options::flag_view("ignored-only"@),
        options::valued_view("list-format"@, "LIST_FORMAT"@, Takes::Text, Some("json"@)),
        options::valued_view("run-format"@, "RUN_FORMAT"@, Takes::Text, Some("json"@)),
        options::valued_view("batch-mode"@, "BATCH_MODE"@, Takes::Text, Some("fixed-chunk"@)),
        options::valued_view("chunk-size"@, "CHUNK_SIZE"@, Takes::Size { max: usize::MAX }, Some("32"@)),
        options::valued_view("batch-threshold-ms"@, "BATCH_THRESHOLD_MS"@, Takes::U64, Some("20"@)),
        options::valued_view("batch-failure-policy"@, "BATCH_FAILURE_POLICY"@, Takes::Text, Some("isolate"@)),
        options::valued_view("variant"@, "VARIANT"@, Takes::Text, Some("default"@)),
        options::valued_view("stress"@, "STRESS"@, Takes::Between { min: 0, max: 0xffff_ffff }, Some("0"@)),
        options::valued_view("stress-label-reps"@, "STRESS_LABEL_REPS"@, Takes::Between { min: 0, max: 0xffff_ffff }, Some("50"@)),
        options::valued_view("shard-index"@, "SHARD_INDEX"@, Takes::Between { min: 0, max: 0xffff }, Some("0"@)),
        options::valued_view("shard-count"@, "SHARD_COUNT"@, Takes::Between { min: 0, max: 0xffff }, Some("1"@)),
        options::flag_view("local-debug"@),
        options::valued_view("flaky-attempts"@, "FLAKY_ATTEMPTS"@, Takes::Between { min: 0, max: 0xffff_ffff }, Some("3"@)),
        options::valued_view("duration-db"@, "DURATION_DB"@, Takes::Path, None),
        options::flag_view("no-duration-db"@),
        options::valued_view("ci-test-report-json"@, "CI_TEST_REPORT_JSON"@, Takes::Path, None),
        options::valued_view("cas-inline-limit"@, "CAS_INLINE_LIMIT"@, Takes::Size { max: usize::MAX }, Some("65536"@)),
        options::valued_view("max-inflight-test-actions"@, "MAX_INFLIGHT_TEST_ACTIONS"@, Takes::Size { max: usize::MAX }, Some("2000"@)),
        options::valued_view("max-inflight-listings"@, "MAX_INFLIGHT_LISTINGS"@, Takes::Size { max: usize::MAX }, Some("256"@)),
        options::valued_view("max-inflight-per-target"@, "MAX_INFLIGHT_PER_TARGET"@, Takes::Size { max: usize::MAX }, Some("128"@)),
        options::flag_view("force-run-in-process"@),
        options::flag_view("exclude-should-panic"@),
        options::flag_view("test"@),
        options::flag_view("bench"@),
        options::flag_view("list"@),
        options::flag_view("fail-fast"@),
        (options::OptionView { short: Some('h'), ..options::flag_view("help"@) }),
        options::valued_view("logfile"@, "LIBTEST_LOGFILE"@, Takes::Text, None),
        (options::OptionView { alias: Some("nocapture"@), ..options::flag_view("no-capture"@) }),
        options::valued_view("test-threads"@, "LIBTEST_TEST_THREADS"@, Takes::Text, None),
        options::valued_view("skip"@, "LIBTEST_SKIP"@, Takes::Texts, None),
        (options::OptionView { short: Some('q'), ..options::flag_view("quiet"@) }),
        options::flag_view("exact"@),
        options::valued_view("color"@, "LIBTEST_COLOR"@, Takes::Text, None),
        options::valued_view("format"@, "LIBTEST_FORMAT"@, Takes::Text, None),
        options::flag_view("show-output"@),
        (options::OptionView { short: Some('Z'), long: None, ..options::valued_view("Z"@, "FLAG"@, Takes::Texts, None) }),
        options::flag_view("report-time"@),
        options::flag_view("ensure-time"@),
        options::flag_view("shuffle"@),
        options::valued_view("shuffle-seed"@, "LIBTEST_SHUFFLE_SEED"@, Takes::Text, None),
        (options::OptionView { long: None, ..options::valued_view("FILTER"@, "FILTER"@, Takes::Positionals, None) }),
    ]
}

fn tpx_options() -> (r: Vec<OptionSpec>)
    ensures
        options::option_views(r@) == tpx_table(),
{
    let mut table: Vec<OptionSpec> = Vec::new();
    proof {
        assert(options::option_views(table@) =~= Seq::<options::OptionView>::empty());
    }
    push_option(&mut table, valued("buck-test-info", "BUCK_TEST_INFO", Takes::Text));
    push_option(&mut table, valued("env", "ENV", Takes::Texts));
    push_option(&mut table, valued("declared-output-env", "DECLARED_OUTPUT_ENV", Takes::Texts));
    push_option(&mut table, OptionSpec { hyphens: true, ..valued("test-arg", "TEST_ARG", Takes::Texts) });
    push_option(&mut table, defaulted("timeout", "TIMEOUT", Takes::U64, "600"));
    push_option(&mut table, defaulted("listing-timeout", "LISTING_TIMEOUT", Takes::U64, "600"));
    push_option(&mut table, defaulted("cgroup-granularity", "CGROUP_GRANULARITY", Takes::Text, "action"));
    push_option(&mut table, valued("cgroup-memory-max-override", "CGROUP_MEMORY_MAX_OVERRIDES", Takes::Texts));
    push_option(&mut table, flag("include-ignored"));
    push_option(&mut table, flag("ignored"));
    push_option(&mut table, flag("ignored-only"));
    push_option(&mut table, defaulted("list-format", "LIST_FORMAT", Takes::Text, "json"));
    push_option(&mut table, defaulted("run-format", "RUN_FORMAT", Takes::Text, "json"));
    push_option(&mut table, defaulted("batch-mode", "BATCH_MODE", Takes::Text, "fixed-chunk"));
    push_option(&mut table, defaulted("chunk-size", "CHUNK_SIZE", Takes::Size { max: usize::MAX }, "32"));
    push_option(&mut table, defaulted("batch-threshold-ms", "BATCH_THRESHOLD_MS", Takes::U64, "20"));
    push_option(&mut table, defaulted("batch-failure-policy", "BATCH_FAILURE_POLICY", Takes::Text, "isolate"));
    push_option(&mut table, defaulted("variant", "VARIANT", Takes::Text, "default"));
    push_option(&mut table, defaulted("stress", "STRESS", Takes::Between { min: 0, max: 0xffff_ffff }, "0"));
    push_option(&mut table, defaulted("stress-label-reps", "STRESS_LABEL_REPS", Takes::Between { min: 0, max: 0xffff_ffff }, "50"));
    push_option(&mut table, defaulted("shard-index", "SHARD_INDEX", Takes::Between { min: 0, max: 0xffff }, "0"));
    push_option(&mut table, defaulted("shard-count", "SHARD_COUNT", Takes::Between { min: 0, max: 0xffff }, "1"));
    push_option(&mut table, flag("local-debug"));
    push_option(&mut table, defaulted("flaky-attempts", "FLAKY_ATTEMPTS", Takes::Between { min: 0, max: 0xffff_ffff }, "3"));
    push_option(&mut table, valued("duration-db", "DURATION_DB", Takes::Path));
    push_option(&mut table, flag("no-duration-db"));
    push_option(&mut table, valued("ci-test-report-json", "CI_TEST_REPORT_JSON", Takes::Path));
    push_option(&mut table, defaulted("cas-inline-limit", "CAS_INLINE_LIMIT", Takes::Size { max: usize::MAX }, "65536"));
    push_option(&mut table, defaulted("max-inflight-test-actions", "MAX_INFLIGHT_TEST_ACTIONS", Takes::Size { max: usize::MAX }, "2000"));
    push_option(&mut table, defaulted("max-inflight-listings", "MAX_INFLIGHT_LISTINGS", Takes::Size { max: usize::MAX }, "256"));
    push_option(&mut table, defaulted("max-inflight-per-target", "MAX_INFLIGHT_PER_TARGET", Takes::Size { max: usize::MAX }, "128"));
    push_option(&mut table, flag("force-run-in-process"));
    push_option(&mut table, flag("exclude-should-panic"));
    push_option(&mut table, flag("test"));
    push_option(&mut table, flag("bench"));
    push_option(&mut table, flag("list"));
    push_option(&mut table, flag("fail-fast"));
    push_option(&mut table, OptionSpec { short: Some('h'), ..flag("help") });
    push_option(&mut table, valued("logfile", "LIBTEST_LOGFILE", Takes::Text));
    push_option(&mut table, OptionSpec { alias: Some("nocapture"), ..flag("no-capture") });
    push_option(&mut table, valued("test-threads", "LIBTEST_TEST_THREADS", Takes::Text));
    push_option(&mut table, valued("skip", "LIBTEST_SKIP", Takes::Texts));
    push_option(&mut table, OptionSpec { short: Some('q'), ..flag("quiet") });
    push_option(&mut table, flag("exact"));
    push_option(&mut table, valued("color", "LIBTEST_COLOR", Takes::Text));
    push_option(&mut table, valued("format", "LIBTEST_FORMAT", Takes::Text));
    push_option(&mut table, flag("show-output"));
    push_option(&mut table, OptionSpec { short: Some('Z'), long: None, ..valued("Z", "FLAG", Takes::Texts) });
    push_option(&mut table, flag("report-time"));
    push_option(&mut table, flag("ensure-time"));
    push_option(&mut table, flag("shuffle"));
    push_option(&mut table, valued("shuffle-seed", "LIBTEST_SHUFFLE_SEED", Takes::Text));
    push_option(&mut table, OptionSpec { long: None, ..valued("FILTER", "FILTER", Takes::Positionals) });
    table
}

// ---------------------------------------------------------------------------
// From the texts that the options were given to typed values.

/// What the options were given, by name.
pub type ValuesView = Seq<(Seq<char>, Seq<Seq<char>>)>;

/// The text under a name that has a default.
pub open spec fn text_or_empty(values: ValuesView, id: Seq<char>) -> Seq<char> {
    match options::text_at(values, id) {
        Some(t) => t,
        None => Seq::empty(),
    }
}

/// The unsigned integer under a name that has a default.
pub open spec fn unsigned_at(values: ValuesView, id: Seq<char>, max: nat) -> Option<nat> {
    text::parse_unsigned(text_or_empty(values, id), max)
}

/// The integer from zero on under a name that has a default.
pub open spec fn small_at(values: ValuesView, id: Seq<char>, max: int) -> Option<int> {
    options::integer_between(text_or_empty(values, id), 0, max)
}

/// The file descriptor under a name: absent, or a number that can be read.
pub open spec fn fd_at(values: ValuesView, id: Seq<char>) -> Option<Option<int>> {
    match options::text_at(values, id) {
        Some(t) => match options::integer_between(t, -0x8000_0000, 0x7fff_ffff) {
            Some(n) => Some(Some(n)),
            None => None,
        },
        None => Some(None),
    }
}

/// The complaint about the text under a name that is no number of its option.
pub open spec fn unreadable(values: ValuesView, id: Seq<char>) -> CliErrorView {
    CliErrorView::InvalidValue { field: id, value: text_or_empty(values, id) }
}

fn get_text_or_empty(values: &[(String, Vec<String>)], id: &str) -> (r: String)
    ensures
        r@ == text_or_empty(options::value_views(values@), id@),
{
    match get_text(values, id) {
        Some(t) => t,
        None => String::new(),
    }
}

fn get_unsigned(values: &[(String, Vec<String>)], id: &'static str, max: u64) -> (r: Result<
    u64,
    CliError,
>)
    ensures
        r matches Ok(n) ==> unsigned_at(options::value_views(values@), id@, max as nat) == Some(
            n as nat,
        ) && n <= max,
        r matches Err(e) ==> e@ == unreadable(options::value_views(values@), id@) && unsigned_at(
            options::value_views(values@),
            id@,
            max as nat,
        ) is None,
{
    let given: String = get_text_or_empty(values, id);
    let cs: Vec<char> = chars_of(given.as_str());
    match parse_unsigned_chars(cs.as_slice(), max) {
        Some(n) => Ok(n),
        None => Err(CliError::InvalidValue { field: id, value: given }),
    }
}

fn get_small(values: &[(String, Vec<String>)], id: &'static str, max: i64) -> (r: Result<
    i64,
    CliError,
>)
    requires
        max >= 0,
    ensures
        r matches Ok(n) ==> small_at(options::value_views(values@), id@, max as int) == Some(
            n as int,
        ) && 0 <= n <= max,
        r matches Err(e) ==> e@ == unreadable(options::value_views(values@), id@) && small_at(
            options::value_views(values@),
            id@,
            max as int,
        ) is None,
{
    let given: String = get_text_or_empty(values, id);
    match parse_between(given.as_str(), 0, max) {
        Some(n) => Ok(n),
        None => Err(CliError::InvalidValue { field: id, value: given }),
    }
}

fn get_fd(values: &[(String, Vec<String>)], id: &'static str) -> (r: Result<Option<i32>, CliError>)
    ensures
        r matches Ok(Some(n)) ==> fd_at(options::value_views(values@), id@) == Some(
            Some(n as int),
        ),
        r matches Ok(None) ==> fd_at(options::value_views(values@), id@) == Some(None::<int>),
        r matches Err(e) ==> e@ == unreadable(options::value_views(values@), id@) && fd_at(
            options::value_views(values@),
            id@,
        ) is None,
{
    match get_text(values, id) {
        Some(given) => match parse_between(given.as_str(), -0x8000_0000, 0x7fff_ffff) {
            Some(n) => Ok(Some(n as i32)),
            None => Err(CliError::InvalidValue { field: id, value: given }),
        },
        None => Ok(None),
    }
}

/// The view of an optional number.
pub open spec fn int_view(n: Option<i32>) -> Option<int> {
    match n {
        Some(n) => Some(n as int),
        None => None,
    }
}

/// Whether the outer flags are those that were given.
pub open spec fn is_outer(values: ValuesView, c: OuterCli) -> bool {
    &&& json::text_view(c.buck_trace_id) == options::text_at(values, "buck-trace-id"@)
    &&& text::views(c.config_entry@) == options::texts_at(values, "config-entry"@)
    &&& fd_at(values, "executor-fd"@) == Some(int_view(c.executor_fd))
    &&& fd_at(values, "orchestrator-fd"@) == Some(int_view(c.orchestrator_fd))
    &&& json::text_view(c.executor_addr) == options::text_at(values, "executor-addr"@)
    &&& json::text_view(c.orchestrator_addr) == options::text_at(values, "orchestrator-addr"@)
}

/// The complaint about the first number before `--` that cannot be read.
pub open spec fn outer_error(values: ValuesView) -> Option<CliErrorView> {
    if fd_at(values, "executor-fd"@) is None {
        Some(unreadable(values, "executor-fd"@))
    } else if fd_at(values, "orchestrator-fd"@) is None {
        Some(unreadable(values, "orchestrator-fd"@))
    } else {
        None
    }
}

/// Types the outer flags.
pub fn outer_cli(values: &[(String, Vec<String>)]) -> (r: Result<OuterCli, CliError>)
    ensures
        r is Ok <==> outer_error(options::value_views(values@)) is None,
        r matches Ok(c) ==> is_outer(options::value_views(values@), c),
        r matches Err(e) ==> outer_error(options::value_views(values@)) == Some(e@),
{
    let executor_fd: Option<i32> = match get_fd(values, "executor-fd") {
        Ok(fd) => fd,
        Err(e) => {
            return Err(e);
        },
    };
    let orchestrator_fd: Option<i32> = match get_fd(values, "orchestrator-fd") {
        Ok(fd) => fd,
        Err(e) => {
            return Err(e);
        },
    };
    Ok(
        OuterCli {
            buck_trace_id: get_text(values, "buck-trace-id"),
            config_entry: get_texts(values, "config-entry"),
            executor_fd,
            orchestrator_fd,
            executor_addr: get_text(values, "executor-addr"),
            orchestrator_addr: get_text(values, "orchestrator-addr"),
        },
    )
}

/// Whether the tpx args are those that were given.
pub open spec fn is_tpx(values: ValuesView, c: TpxConfig) -> bool {
    &&& json::text_view(c.buck_test_info) == options::text_at(values, "buck-test-info"@)
    &&& text::views(c.env@) == options::texts_at(values, "env"@)
    &&& text::views(c.declared_output_env@) == options::texts_at(values, "declared-output-env"@)
    &&& text::views(c.test_arg@) == options::texts_at(values, "test-arg"@)
    &&& unsigned_at(values, "timeout"@, u64::MAX as nat) == Some(c.timeout as nat)
    &&& unsigned_at(values, "listing-timeout"@, u64::MAX as nat) == Some(c.listing_timeout as nat)
    &&& c.cgroup_granularity@ == text_or_empty(values, "cgroup-granularity"@)
    &&& text::views(c.cgroup_memory_max_overrides@) == options::texts_at(values, "cgroup-memory-max-override"@)
    &&& c.include_ignored == options::flag_at(values, "include-ignored"@)
    &&& c.ignored == options::flag_at(values, "ignored"@)
    &&& c.ignored_only == options::flag_at(values, "ignored-only"@)
    &&& c.list_format@ == text_or_empty(values, "list-format"@)
    &&& c.run_format@ == text_or_empty(values, "run-format"@)
    &&& c.batch_mode@ == text_or_empty(values, "batch-mode"@)
    &&& unsigned_at(values, "chunk-size"@, usize::MAX as nat) == Some(c.chunk_size as nat)
    &&& unsigned_at(values, "batch-threshold-ms"@, u64::MAX as nat) == Some(c.batch_threshold_ms as nat)
    &&& c.batch_failure_policy@ == text_or_empty(values, "batch-failure-policy"@)
    &&& c.variant@ == text_or_empty(values, "variant"@)
    &&& small_at(values, "stress"@, u32::MAX as int) == Some(c.stress as int)
    &&& small_at(values, "stress-label-reps"@, u32::MAX as int) == Some(c.stress_label_reps as int)
    &&& small_at(values, "shard-index"@, u16::MAX as int) == Some(c.shard_index as int)
    &&& small_at(values, "shard-count"@, u16::MAX as int) == Some(c.shard_count as int)
    &&& c.local_debug == options::flag_at(values, "local-debug"@)
    &&& small_at(values, "flaky-attempts"@, u32::MAX as int) == Some(c.flaky_attempts as int)
    &&& json::text_view(c.duration_db) == options::text_at(values, "duration-db"@)
    &&& c.no_duration_db == options::flag_at(values, "no-duration-db"@)
    &&& json::text_view(c.ci_test_report_json) == options::text_at(values, "ci-test-report-json"@)
    &&& unsigned_at(values, "cas-inline-limit"@, usize::MAX as nat) == Some(c.cas_inline_limit as nat)
    &&& unsigned_at(values, "max-inflight-test-actions"@, usize::MAX as nat) == Some(c.max_inflight_test_actions as nat)
    &&& unsigned_at(values, "max-inflight-listings"@, usize::MAX as nat) == Some(c.max_inflight_listings as nat)
    &&& unsigned_at(values, "max-inflight-per-target"@, usize::MAX as nat) == Some(c.max_inflight_per_target as nat)
    &&& c.libtest_force_run_in_process == options::flag_at(values, "force-run-in-process"@)
    &&& c.libtest_exclude_should_panic == options::flag_at(values, "exclude-should-panic"@)
    &&& c.libtest_test == options::flag_at(values, "test"@)
    &&& c.libtest_bench == options::flag_at(values, "bench"@)
    &&& c.libtest_list == options::flag_at(values, "list"@)
    &&& c.libtest_fail_fast == options::flag_at(values, "fail-fast"@)
    &&& c.libtest_help == options::flag_at(values, "help"@)
    &&& json::text_view(c.libtest_logfile) == options::text_at(values, "logfile"@)
    &&& c.libtest_no_capture == options::flag_at(values, "no-capture"@)
    &&& json::text_view(c.libtest_test_threads) == options::text_at(values, "test-threads"@)
    &&& text::views(c.libtest_skip@) == options::texts_at(values, "skip"@)
    &&& c.libtest_quiet == options::flag_at(values, "quiet"@)
    &&& c.libtest_exact == options::flag_at(values, "exact"@)
    &&& json::text_view(c.libtest_color) == options::text_at(values, "color"@)
    &&& json::text_view(c.libtest_format) == options::text_at(values, "format"@)
    &&& c.libtest_show_output == options::flag_at(values, "show-output"@)
    &&& text::views(c.libtest_unstable_options@) == options::texts_at(values, "Z"@)
    &&& c.libtest_report_time == options::flag_at(values, "report-time"@)
    &&& c.libtest_ensure_time == options::flag_at(values, "ensure-time"@)
    &&& c.libtest_shuffle == options::flag_at(values, "shuffle"@)
    &&& json::text_view(c.libtest_shuffle_seed) == options::text_at(values, "shuffle-seed"@)
    &&& text::views(c.libtest_filters@) == options::texts_at(values, "FILTER"@)
}

/// The complaint about the first number behind `--` that cannot be read.
pub open spec fn tpx_error(values: ValuesView) -> Option<CliErrorView> {
    if unsigned_at(values, "timeout"@, u64::MAX as nat) is None {
        Some(unreadable(values, "timeout"@))
    } else if unsigned_at(values, "listing-timeout"@, u64::MAX as nat) is None {
        Some(unreadable(values, "listing-timeout"@))
    } else if unsigned_at(values, "chunk-size"@, usize::MAX as nat) is None {
        Some(unreadable(values, "chunk-size"@))
    } else if unsigned_at(values, "batch-threshold-ms"@, u64::MAX as nat) is None {
        Some(unreadable(values, "batch-threshold-ms"@))
    } else if small_at(values, "stress"@, u32::MAX as int) is None {
        Some(unreadable(values, "stress"@))
    } else if small_at(values, "stress-label-reps"@, u32::MAX as int) is None {
        Some(unreadable(values, "stress-label-reps"@))
    } else if small_at(values, "shard-index"@, u16::MAX as int) is None {
        Some(unreadable(values, "shard-index"@))
    } else if small_at(values, "shard-count"@, u16::MAX as int) is None {
        Some(unreadable(values, "shard-count"@))
    } else if small_at(values, "flaky-attempts"@, u32::MAX as int) is None {
        Some(unreadable(values, "flaky-attempts"@))
    } else if unsigned_at(values, "cas-inline-limit"@, usize::MAX as nat) is None {
        Some(unreadable(values, "cas-inline-limit"@))
    } else if unsigned_at(values, "max-inflight-test-actions"@, usize::MAX as nat) is None {
        Some(unreadable(values, "max-inflight-test-actions"@))
    } else if unsigned_at(values, "max-inflight-listings"@, usize::MAX as nat) is None {
        Some(unreadable(values, "max-inflight-listings"@))
    } else if unsigned_at(values, "max-inflight-per-target"@, usize::MAX as nat) is None {
        Some(unreadable(values, "max-inflight-per-target"@))
    } else {
        None
    }
}

/// Types the tpx args.
pub fn tpx_config(values: &[(String, Vec<String>)]) -> (r: Result<TpxConfig, CliError>)
    ensures
        r is Ok <==> tpx_error(options::value_views(values@)) is None,
        r matches Ok(c) ==> is_tpx(options::value_views(values@), c),
        r matches Err(e) ==> tpx_error(options::value_views(values@)) == Some(e@),
{
    let timeout: u64 = match get_unsigned(values, "timeout", u64::MAX) {
        Ok(n) => n,
        Err(e) => {
            return Err(e);
        },
    };
    let listing_timeout: u64 = match get_unsigned(values, "listing-timeout", u64::MAX) {
        Ok(n) => n,
        Err(e) => {
            return Err(e);
        },
    };
    let chunk_size: usize = match get_unsigned(values, "chunk-size", usize::MAX as u64) {
        Ok(n) => n as usize,
        Err(e) => {
            return Err(e);
        },
    };
    let batch_threshold_ms: u64 = match get_unsigned(values, "batch-threshold-ms", u64::MAX) {
        Ok(n) => n,
        Err(e) => {
            return Err(e);
        },
    };
    let stress: u32 = match get_small(values, "stress", 0xffff_ffff) {
        Ok(n) => n as u32,
        Err(e) => {
            return Err(e);
        },
    };
    let stress_label_reps: u32 = match get_small(values, "stress-label-reps", 0xffff_ffff) {
        Ok(n) => n as u32,
        Err(e) => {
            return Err(e);
        },
    };
    let shard_index: u16 = match get_small(values, "shard-index", 0xffff) {
        Ok(n) => n as u16,
        Err(e) => {
            return Err(e);
        },
    };
    let shard_count: u16 = match get_small(values, "shard-count", 0xffff) {
        Ok(n) => n as u16,
        Err(e) => {
            return Err(e);
        },
    };
    let flaky_attempts: u32 = match get_small(values, "flaky-attempts", 0xffff_ffff) {
        Ok(n) => n as u32,
        Err(e) => {
            return Err(e);
        },
    };
    let cas_inline_limit: usize = match get_unsigned(values, "cas-inline-limit", usize::MAX as u64) {
        Ok(n) => n as usize,
        Err(e) => {
            return Err(e);
        },
    };
    let max_inflight_test_actions: usize = match get_unsigned(values, "max-inflight-test-actions", usize::MAX as u64) {
        Ok(n) => n as usize,
        Err(e) => {
            return Err(e);
        },
    };
    let max_inflight_listings: usize = match get_unsigned(values, "max-inflight-listings", usize::MAX as u64) {
        Ok(n) => n as usize,
        Err(e) => {
            return Err(e);
        },
    };
    let max_inflight_per_target: usize = match get_unsigned(values, "max-inflight-per-target", usize::MAX as u64) {
        Ok(n) => n as usize,
        Err(e) => {
            return Err(e);
        },
    };
    Ok(
        TpxConfig {
            buck_test_info: get_text(values, "buck-test-info"),
            env: get_texts(values, "env"),
            declared_output_env: get_texts(values, "declared-output-env"),
            test_arg: get_texts(values, "test-arg"),
            timeout,
            listing_timeout,
            cgroup_granularity: get_text_or_empty(values, "cgroup-granularity"),
            cgroup_memory_max_overrides: get_texts(values, "cgroup-memory-max-override"),
            include_ignored: get_flag(values, "include-ignored"),
            ignored: get_flag(values, "ignored"),
            ignored_only: get_flag(values, "ignored-only"),
            list_format: get_text_or_empty(values, "list-format"),
            run_format: get_text_or_empty(values, "run-format"),
            batch_mode: get_text_or_empty(values, "batch-mode"),
            chunk_size,
            batch_threshold_ms,
            batch_failure_policy: get_text_or_empty(values, "batch-failure-policy"),
            variant: get_text_or_empty(values, "variant"),
            stress,
            stress_label_reps,
            shard_index,
            shard_count,
            local_debug: get_flag(values, "local-debug"),
            flaky_attempts,
            duration_db: get_text(values, "duration-db"),
            no_duration_db: get_flag(values, "no-duration-db"),
            ci_test_report_json: get_text(values, "ci-test-report-json"),
            cas_inline_limit,
            max_inflight_test_actions,
            max_inflight_listings,
            max_inflight_per_target,
            libtest_force_run_in_process: get_flag(values, "force-run-in-process"),
            libtest_exclude_should_panic: get_flag(values, "exclude-should-panic"),
            libtest_test: get_flag(values, "test"),
            libtest_bench: get_flag(values, "bench"),
            libtest_list: get_flag(values, "list"),
            libtest_fail_fast: get_flag(values, "fail-fast"),
            libtest_help: get_flag(values, "help"),
            libtest_logfile: get_text(values, "logfile"),
            libtest_no_capture: get_flag(values, "no-capture"),
            libtest_test_threads: get_text(values, "test-threads"),
            libtest_skip: get_texts(values, "skip"),
            libtest_quiet: get_flag(values, "quiet"),
            libtest_exact: get_flag(values, "exact"),
            libtest_color: get_text(values, "color"),
            libtest_format: get_text(values, "format"),
            libtest_show_output: get_flag(values, "show-output"),
            libtest_unstable_options: get_texts(values, "Z"),
            libtest_report_time: get_flag(values, "report-time"),
            libtest_ensure_time: get_flag(values, "ensure-time"),
            libtest_shuffle: get_flag(values, "shuffle"),
            libtest_shuffle_seed: get_text(values, "shuffle-seed"),
            libtest_filters: get_texts(values, "FILTER"),
        },
    )
}

// ---------------------------------------------------------------------------
// The harness flags that were written directly.

/// A flag, when it is there.
pub open spec fn when(given: bool, flag: Seq<char>) -> Seq<Seq<char>> {
    if given {
        seq![flag]
    } else {
        Seq::empty()
    }
}

/// A flag with its value, when it is there.
pub open spec fn pair(flag: Seq<char>, value: Option<Seq<char>>) -> Seq<Seq<char>> {
    match value {
        Some(value) => seq![flag, value],
        None => Seq::empty(),
    }
}

/// A flag with each of its values.
pub open spec fn pairs(flag: Seq<char>, values: Seq<Seq<char>>) -> Seq<Seq<char>>
    decreases values.len(),
{
    if values.len() == 0 {
        Seq::empty()
    } else {
        pairs(flag, values.drop_last()) + seq![flag, values.last()]
    }
}

/// The harness flags among the tpx args, in a fixed order, filters first.
pub open spec fn direct_args(t: TpxConfig) -> Seq<Seq<char>> {
    text::views(t.libtest_filters@) + when(t.libtest_exact, "--exact"@) + pairs(
        "--skip"@,
        text::views(t.libtest_skip@),
    ) + when(t.libtest_force_run_in_process, "--force-run-in-process"@) + when(
        t.libtest_exclude_should_panic,
        "--exclude-should-panic"@,
    ) + when(t.libtest_test, "--test"@) + when(t.libtest_bench, "--bench"@) + when(
        t.libtest_list,
        "--list"@,
    ) + when(t.libtest_fail_fast, "--fail-fast"@) + when(t.libtest_help, "--help"@) + pair(
        "--logfile"@,
        json::text_view(t.libtest_logfile),
    ) + when(t.libtest_no_capture, "--no-capture"@) + pair(
        "--test-threads"@,
        json::text_view(t.libtest_test_threads),
    ) + when(t.libtest_quiet, "--quiet"@) + pair("--color"@, json::text_view(t.libtest_color))
        + pair("--format"@, json::text_view(t.libtest_format)) + when(
        t.libtest_show_output,
        "--show-output"@,
    ) + pairs("-Z"@, text::views(t.libtest_unstable_options@)) + when(
        t.libtest_report_time,
        "--report-time"@,
    ) + when(t.libtest_ensure_time, "--ensure-time"@) + when(t.libtest_shuffle, "--shuffle"@)
        + pair("--shuffle-seed"@, json::text_view(t.libtest_shuffle_seed))
}

fn push_when(args: &mut Vec<String>, given: bool, flag: &str)
    ensures
        text::views(final(args)@) == text::views(old(args)@) + when(given, flag@),
{
    if given {
        args.push(flag.to_owned());
    }
    proof {
        assert(text::views(args@) =~= text::views(old(args)@) + when(given, flag@));
    }
}

fn push_pair(args: &mut Vec<String>, flag: &str, value: &Option<String>)
    ensures
        text::views(final(args)@) == text::views(old(args)@) + pair(flag@, json::text_view(*value)),
{
    if let Some(value) = value {
        args.push(flag.to_owned());
        args.push(value.clone());
    }
    proof {
        assert(text::views(args@) =~= text::views(old(args)@) + pair(
            flag@,
            json::text_view(*value),
        ));
    }
}

fn push_pairs(args: &mut Vec<String>, flag: &str, values: &Vec<String>)
    ensures
        text::views(final(args)@) == text::views(old(args)@) + pairs(flag@, text::views(values@)),
{
    let ghost all = text::views(values@);
    let ghost before = text::views(args@);
    let mut i: usize = 0;
    proof {
        assert(before + pairs(flag@, all.take(0)) =~= before);
    }
    while i < values.len()
        invariant
            i <= values.len(),
            all == text::views(values@),
            text::views(args@) == before + pairs(flag@, all.take(i as int)),
        decreases values.len() - i,
    {
        let ghost at = text::views(args@);
        args.push(flag.to_owned());
        args.push(values[i].clone());
        proof {
            assert(all.take(i + 1).drop_last() =~= all.take(i as int));
            assert(all.take(i + 1).last() == values@[i as int]@);
            assert(text::views(args@) =~= at + seq![flag@, values@[i as int]@]);
            assert(text::views(args@) =~= before + pairs(flag@, all.take(i + 1)));
        }
        i += 1;
    }
    proof {
        assert(all.take(i as int) =~= all);
    }
}

impl TpxConfig {
    /// The harness flags among the tpx args, in a fixed order.
    pub fn direct_libtest_args(&self) -> (r: Vec<String>)
        ensures
            text::views(r@) == direct_args(*self),
    {
        let mut args: Vec<String> = copy_strings(self.libtest_filters.as_slice());
        push_when(&mut args, self.libtest_exact, "--exact");
        push_pairs(&mut args, "--skip", &self.libtest_skip);
        push_when(&mut args, self.libtest_force_run_in_process, "--force-run-in-process");
        push_when(&mut args, self.libtest_exclude_should_panic, "--exclude-should-panic");
        push_when(&mut args, self.libtest_test, "--test");
        push_when(&mut args, self.libtest_bench, "--bench");
        push_when(&mut args, self.libtest_list, "--list");
        push_when(&mut args, self.libtest_fail_fast, "--fail-fast");
        push_when(&mut args, self.libtest_help, "--help");
        push_pair(&mut args, "--logfile", &self.libtest_logfile);
        push_when(&mut args, self.libtest_no_capture, "--no-capture");
        push_pair(&mut args, "--test-threads", &self.libtest_test_threads);
        push_when(&mut args, self.libtest_quiet, "--quiet");
        push_pair(&mut args, "--color", &self.libtest_color);
        push_pair(&mut args, "--format", &self.libtest_format);
        push_when(&mut args, self.libtest_show_output, "--show-output");
        push_pairs(&mut args, "-Z", &self.libtest_unstable_options);
        push_when(&mut args, self.libtest_report_time, "--report-time");
        push_when(&mut args, self.libtest_ensure_time, "--ensure-time");
        push_when(&mut args, self.libtest_shuffle, "--shuffle");
        push_pair(&mut args, "--shuffle-seed", &self.libtest_shuffle_seed);
        args
    }
}

// ---------------------------------------------------------------------------
// Resolving.

/// How the channels are connected: file descriptors go before addresses, and each
/// kind takes both of its parts.
pub open spec fn is_transport(outer: OuterCli, t: Transport) -> bool {
    if outer.executor_fd is Some && outer.orchestrator_fd is Some {
        t == Transport::UnixFds {
            executor_fd: outer.executor_fd->0,
            orchestrator_fd: outer.orchestrator_fd->0,
        }
    } else {
        &&& t matches Transport::Tcp { executor_addr, orchestrator_addr }
        &&& outer.executor_addr == Some(executor_addr)
        &&& outer.orchestrator_addr == Some(orchestrator_addr)
    }
}

/// Whether the flags say how the channels are connected.
pub open spec fn has_transport(outer: OuterCli) -> bool {
    (outer.executor_fd is Some && outer.orchestrator_fd is Some) || (outer.executor_addr is Some
        && outer.orchestrator_addr is Some)
}

/// How the channels are connected.
pub fn resolve_transport(outer: &OuterCli) -> (r: Result<Transport, CliError>)
    ensures
        r is Ok <==> has_transport(*outer),
        r matches Ok(t) ==> is_transport(*outer, t),
        r matches Err(e) ==> e is MissingTransport,
{
    match (outer.executor_fd, outer.orchestrator_fd) {
        (Some(executor_fd), Some(orchestrator_fd)) => {
            return Ok(Transport::UnixFds { executor_fd, orchestrator_fd });
        },
        _ => {},
    }
    match (&outer.executor_addr, &outer.orchestrator_addr) {
        (Some(executor_addr), Some(orchestrator_addr)) => Ok(
            Transport::Tcp {
                executor_addr: executor_addr.clone(),
                orchestrator_addr: orchestrator_addr.clone(),
            },
        ),
        _ => Err(CliError::MissingTransport),
    }
}

/// An invalid value of a field.
pub open spec fn invalid(field: Seq<char>, value: Seq<char>) -> CliErrorView {
    CliErrorView::InvalidValue { field, value }
}

/// The policy that several say together: the first counts, and the others have to
/// say the same.
pub open spec fn agreed(policies: Seq<IgnoredPolicy>, n: nat) -> Option<IgnoredPolicy>
    decreases n,
{
    if n == 0 {
        Some(IgnoredPolicy::ExcludeIgnored)
    } else {
        match agreed(policies, (n - 1) as nat) {
            Some(IgnoredPolicy::ExcludeIgnored) => Some(policies[n - 1]),
            Some(policy) => if policy == policies[n - 1] {
                Some(policy)
            } else {
                None
            },
            None => None,
        }
    }
}

/// The ignored-test policies that the tpx args name: those of the runner, then
/// those of the harness arguments.
pub open spec fn named_policies(t: TpxConfig) -> Seq<IgnoredPolicy> {
    (if t.include_ignored {
        seq![IgnoredPolicy::IncludeIgnored]
    } else {
        Seq::empty()
    }) + (if t.ignored || t.ignored_only {
        seq![IgnoredPolicy::IgnoredOnly]
    } else {
        Seq::empty()
    }) + translator::user_args(effective_args(t)).ignored_policies
}

/// What the harness gets of the tpx args.
pub open spec fn effective_args(t: TpxConfig) -> Seq<Seq<char>> {
    text::views(t.test_arg@) + direct_args(t)
}

/// The policy for ignored tests; `None` when the args contradict each other.
pub open spec fn ignored_policy(t: TpxConfig) -> Option<IgnoredPolicy> {
    agreed(named_policies(t), named_policies(t).len())
}

/// The list format of a name.
pub open spec fn list_format(name: Seq<char>) -> Option<ListFormat> {
    if name == "text"@ {
        Some(ListFormat::Text)
    } else if name == "json"@ {
        Some(ListFormat::Json)
    } else {
        None
    }
}

/// The run format of a name.
pub open spec fn run_format(name: Seq<char>) -> Option<RunFormat> {
    if name == "text"@ {
        Some(RunFormat::Text)
    } else if name == "json"@ {
        Some(RunFormat::Json)
    } else {
        None
    }
}

/// Whether a name is one of a batch mode.
pub open spec fn names_batch_mode(name: Seq<char>) -> bool {
    name == "per-test"@ || name == "duration-bucketed"@ || name == "fixed-chunk"@ || name
        == "target"@
}

/// Whether a batch mode is the one that the tpx args name.
pub open spec fn is_batch_mode(t: TpxConfig, mode: BatchMode) -> bool {
    let name = t.batch_mode@;
    if name == "per-test"@ {
        mode is PerTest
    } else if name == "duration-bucketed"@ {
        mode == BatchMode::DurationBucketed { p50_lt_ms: t.batch_threshold_ms }
    } else if name == "fixed-chunk"@ {
        mode matches BatchMode::FixedChunk { size } && size.spec_get() == at_least_one(
            t.chunk_size as int,
        )
    } else {
        mode is Target
    }
}

/// A count that is never zero.
pub open spec fn at_least_one(n: int) -> int {
    if n < 1 {
        1
    } else {
        n
    }
}

/// The failure policy of a name.
pub open spec fn failure_policy(name: Seq<char>) -> Option<BatchFailurePolicy> {
    if name == "isolate"@ {
        Some(BatchFailurePolicy::RerunPerTestToIsolate)
    } else if name == "fail-all"@ {
        Some(BatchFailurePolicy::FailAll)
    } else {
        None
    }
}

/// The memory-cgroup unit of a name.
pub open spec fn granularity(name: Seq<char>) -> Option<CgroupGranularity> {
    if name == "logical-test"@ {
        Some(CgroupGranularity::LogicalTest)
    } else if name == "action"@ {
        Some(CgroupGranularity::Action)
    } else {
        None
    }
}

/// The text that sets the memory limit.
pub open spec fn memory_max_text(env: MemoryMaxEnv) -> Seq<char> {
    match env {
        MemoryMaxEnv::NotPresent => text::decimal(DEFAULT_CGROUP_MEMORY_MAX_BYTES as nat),
        MemoryMaxEnv::Value(value) => value@,
        MemoryMaxEnv::NotUnicode(value) => value@,
    }
}

/// Whether the memory limit can be read.
pub open spec fn memory_max_readable(env: MemoryMaxEnv) -> bool {
    !(env is NotUnicode) && execution::is_limit(memory_max_text(env))
}

/// The limit that a text spells.
pub open spec fn limit_of(s: Seq<char>) -> Option<nat> {
    if s == "max"@ {
        None
    } else {
        text::parse_unsigned(s, u64::MAX as nat)
    }
}

/// Whether a text reads as a memory override.
pub open spec fn is_override(raw: Seq<char>) -> bool {
    execution::override_parts(raw) matches Some(p) && execution::is_limit(p.2)
}

/// Whether two overrides are for the same test of the same target.
pub open spec fn same_test(a: Seq<char>, b: Seq<char>) -> bool {
    (execution::override_parts(a)->0).0 == (execution::override_parts(b)->0).0
        && (execution::override_parts(a)->0).1 == (execution::override_parts(b)->0).1
}

/// Whether the override at a position is refused: it does not read as one, or an
/// earlier one is for the same test.
pub open spec fn override_refused(raws: Seq<String>, i: int) -> bool {
    !is_override(raws[i]@) || exists|j: int|
        0 <= j < i && #[trigger] same_test(raws[j]@, raws[i]@)
}

/// The first of the first `n` overrides that is refused.
pub open spec fn refused_override(raws: Seq<String>, n: nat) -> Option<int>
    decreases n,
{
    if n == 0 {
        None
    } else {
        match refused_override(raws, (n - 1) as nat) {
            Some(i) => Some(i),
            None => if override_refused(raws, n - 1) {
                Some(n - 1)
            } else {
                None
            },
        }
    }
}

/// Whether overrides are those that the texts spell.
pub open spec fn are_overrides(raws: Seq<String>, overrides: Seq<CgroupMemoryMaxOverride>) -> bool {
    overrides.len() == raws.len() && forall|i: int|
        0 <= i < raws.len() ==> is_spelled(raws[i]@, #[trigger] overrides[i])
}

/// Whether an override is the one that a text spells.
pub open spec fn is_spelled(raw: Seq<char>, o: CgroupMemoryMaxOverride) -> bool {
    &&& execution::override_parts(raw) is Some
    &&& o.target@ == (execution::override_parts(raw)->0).0
    &&& o.test@ == (execution::override_parts(raw)->0).1
    &&& o.memory_max.limit() == limit_of((execution::override_parts(raw)->0).2)
}

/// Whether an entry names an environment variable: `NAME=VALUE`.
pub open spec fn is_env_entry(entry: Seq<char>) -> bool {
    text::split_once(entry, '=') is Some
}

/// Whether an entry names a declared output: `NAME=OUTPUT_DIR`, both not empty.
pub open spec fn is_output_entry(entry: Seq<char>) -> bool {
    text::split_once(entry, '=') matches Some(p) && p.0.len() > 0 && p.1.len() > 0
}

/// The first of the first `n` entries that is refused.
pub open spec fn refused_entry(entries: Seq<String>, outputs: bool, n: nat) -> Option<int>
    decreases n,
{
    if n == 0 {
        None
    } else {
        match refused_entry(entries, outputs, (n - 1) as nat) {
            Some(i) => Some(i),
            None => if (outputs && !is_output_entry(entries[n - 1]@)) || !is_env_entry(
                entries[n - 1]@,
            ) {
                Some(n - 1)
            } else {
                None
            },
        }
    }
}

/// Whether pairs are the names and values of entries.
pub open spec fn are_entries(entries: Seq<String>, read: Seq<(String, String)>) -> bool {
    read.len() == entries.len() && forall|i: int|
        0 <= i < entries.len() ==> text::split_once(entries[i]@, '=') == Some(
            ((#[trigger] read[i]).0@, read[i].1@),
        )
}

/// The number of shards.
pub open spec fn shard_count(t: TpxConfig) -> int {
    at_least_one(t.shard_count as int)
}

/// The first reason to refuse the args, in a fixed order.
pub open spec fn config_error(t: TpxConfig, env: MemoryMaxEnv) -> Option<CliErrorView> {
    let memory_field = "NOBIE_RUST_TEST_CGROUP_MEMORY_MAX_BYTES"@;
    let overrides = t.cgroup_memory_max_overrides@;
    if ignored_policy(t) is None {
        Some(invalid("ignored"@, "--include-ignored with --ignored"@))
    } else if list_format(t.list_format@) is None {
        Some(invalid("list-format"@, t.list_format@))
    } else if ignored_policy(t) == Some(IgnoredPolicy::IgnoredOnly) && list_format(t.list_format@)
        == Some(ListFormat::Text) {
        Some(CliErrorView::IgnoredOnlyNeedsJsonListing)
    } else if run_format(t.run_format@) is None {
        Some(invalid("run-format"@, t.run_format@))
    } else if !names_batch_mode(t.batch_mode@) {
        Some(invalid("batch-mode"@, t.batch_mode@))
    } else if failure_policy(t.batch_failure_policy@) is None {
        Some(invalid("batch-failure-policy"@, t.batch_failure_policy@))
    } else if t.no_duration_db && t.duration_db is Some {
        Some(CliErrorView::ConflictingDurationDbFlags)
    } else if granularity(t.cgroup_granularity@) is None {
        Some(invalid("cgroup-granularity"@, t.cgroup_granularity@))
    } else if !memory_max_readable(env) {
        Some(invalid(memory_field, memory_max_text(env)))
    } else if refused_override(overrides, overrides.len()) is Some {
        Some(
            invalid(
                "cgroup-memory-max-override"@,
                overrides[refused_override(overrides, overrides.len())->0]@,
            ),
        )
    } else if t.shard_index >= shard_count(t) {
        Some(CliErrorView::ShardOutOfRange { index: t.shard_index, count: shard_count(t) as u16 })
    } else if refused_entry(t.env@, false, t.env@.len()) is Some {
        Some(CliErrorView::InvalidEnv(t.env@[refused_entry(t.env@, false, t.env@.len())->0]@))
    } else if refused_entry(t.declared_output_env@, true, t.declared_output_env@.len()) is Some {
        Some(
            CliErrorView::InvalidDeclaredOutputEnv(
                t.declared_output_env@[refused_entry(
                    t.declared_output_env@,
                    true,
                    t.declared_output_env@.len(),
                )->0]@,
            ),
        )
    } else {
        None
    }
}

/// The host platform: the first context entry that names it.
pub open spec fn host_platform(entries: Seq<String>, n: nat) -> Option<Seq<char>>
    decreases n,
{
    if n == 0 {
        None
    } else {
        match host_platform(entries, (n - 1) as nat) {
            Some(host) => Some(host),
            None => text::strip_prefix(entries[n - 1]@, "host="@),
        }
    }
}

/// Whether a configuration is the one that the args resolve to.
pub open spec fn is_config(t: TpxConfig, around: Surroundings, c: RunnerConfig) -> bool {
    let user = translator::user_args(effective_args(t));
    &&& c.per_test_timeout.spec_secs() == t.timeout && c.per_test_timeout.spec_nanos() == 0
    &&& c.listing_timeout.spec_secs() == t.listing_timeout && c.listing_timeout.spec_nanos() == 0
    &&& Some(c.cgroup_granularity) == granularity(t.cgroup_granularity@)
    &&& c.cgroup_memory_max.limit() == limit_of(memory_max_text(around.memory_max))
    &&& are_overrides(t.cgroup_memory_max_overrides@, c.cgroup_memory_max_overrides@)
    &&& Some(c.ignored) == ignored_policy(t)
    &&& Some(c.list_format) == list_format(t.list_format@)
    &&& Some(c.run_format) == run_format(t.run_format@)
    &&& is_batch_mode(t, c.batch_mode)
    &&& Some(c.batch_failure_policy) == failure_policy(t.batch_failure_policy@)
    &&& c.variant.spec_label() == t.variant@
    &&& c.variant is Named <==> !Variant::builtin(t.variant@)
    &&& c.stress is Stress <==> t.stress > 0
    &&& t.stress > 0 ==> c.stress.spec_count() == t.stress
    &&& c.stress_label_reps.spec_get() == at_least_one(t.stress_label_reps as int)
    &&& c.shard.index == t.shard_index && c.shard.count == shard_count(t)
    &&& c.local_debug == t.local_debug
    &&& c.flaky_attempts == at_least_one(t.flaky_attempts as int)
    &&& c.limits.max_inflight_listings == at_least_one(t.max_inflight_listings as int)
    &&& c.limits.max_inflight_test_actions == at_least_one(t.max_inflight_test_actions as int)
    &&& c.limits.max_inflight_per_target == at_least_one(t.max_inflight_per_target as int)
    &&& c.limits.max_report_queue == 1_024
    &&& c.cas_inline_limit == t.cas_inline_limit
    &&& c.duration_db == (if t.no_duration_db {
        DurationDbConfig::Disabled
    } else {
        match t.duration_db {
            Some(path) => DurationDbConfig::Persistent(path),
            None => DurationDbConfig::Auto,
        }
    })
    &&& c.ci_test_report_json == t.ci_test_report_json
    &&& c.libtest_help_only == user.help
    &&& json::text_view(c.libtest_usage_error) == translator::usage_error(user)
    &&& c.libtest_list_only == user.listing_only
    &&& text::views(c.direct_libtest_args@) == direct_args(t)
    &&& c.extra_test_args@ == t.test_arg@
    &&& are_entries(t.env@, c.extra_env@)
    &&& are_entries(t.declared_output_env@, c.declared_output_env@)
    &&& c.quokka_config == around.quokka_config
}

/// A resolved configuration always admits work: no limit is zero, no test gets
/// zero attempts or repetitions, and the shard is one of those that there are.
pub proof fn law_resolved_limits_admit_work(t: TpxConfig, around: Surroundings, c: RunnerConfig)
    requires
        config_error(t, around.memory_max) is None,
        is_config(t, around, c),
    ensures
        c.limits.max_inflight_listings >= 1,
        c.limits.max_inflight_test_actions >= 1,
        c.limits.max_inflight_per_target >= 1,
        c.limits.max_report_queue >= 1,
        c.flaky_attempts >= 1,
        c.stress_label_reps.spec_get() >= 1,
        c.stress is Stress ==> c.stress.spec_count() >= 1,
        c.shard.index < c.shard.count,
        !(c.ignored == IgnoredPolicy::IgnoredOnly && c.list_format == ListFormat::Text),
{
}

/// Whether a session context is the one that the outer flags give.
pub open spec fn is_context(outer: OuterCli, s: SessionContext) -> bool {
    json::text_view(s.host_platform) == host_platform(
        outer.config_entry@,
        outer.config_entry@.len(),
    ) && s.trace_id == outer.buck_trace_id
}

/// The policy for ignored tests; `None` when the args contradict each other.
fn resolve_ignored(t: &TpxConfig, effective: &[String]) -> (r: Option<IgnoredPolicy>)
    requires
        text::views(effective@) == effective_args(*t),
    ensures
        r == ignored_policy(*t),
{
    let mut policies: Vec<IgnoredPolicy> = Vec::new();
    if t.include_ignored {
        policies.push(IgnoredPolicy::IncludeIgnored);
    }
    if t.ignored || t.ignored_only {
        policies.push(IgnoredPolicy::IgnoredOnly);
    }
    let ghost own = policies@;
    let named: Vec<IgnoredPolicy> = libtest_user_ignored_policies(effective);
    let ghost all = named_policies(*t);
    let mut i: usize = 0;
    while i < named.len()
        invariant
            i <= named.len(),
            policies@ == own + named@.take(i as int),
        decreases named.len() - i,
    {
        policies.push(named[i]);
        proof {
            assert(own + named@.take(i + 1) =~= (own + named@.take(i as int)).push(
                named@[i as int],
            ));
        }
        i += 1;
    }
    proof {
        assert(named@.take(i as int) =~= named@);
        assert(policies@ =~= all);
    }
    let mut ignored: IgnoredPolicy = IgnoredPolicy::ExcludeIgnored;
    let mut k: usize = 0;
    while k < policies.len()
        invariant
            k <= policies.len(),
            policies@ == all,
            all == named_policies(*t),
            agreed(all, k as nat) == Some(ignored),
        decreases policies.len() - k,
    {
        if ignored == IgnoredPolicy::ExcludeIgnored {
            ignored = policies[k];
        } else if ignored != policies[k] {
            proof {
                assert(agreed(all, (k + 1) as nat) is None);
                lemma_disagreement_stays(all, (k + 1) as nat, all.len());
            }
            return None;
        }
        k += 1;
    }
    Some(ignored)
}

proof fn lemma_disagreement_stays(policies: Seq<IgnoredPolicy>, k: nat, n: nat)
    requires
        k <= n,
        agreed(policies, k) is None,
    ensures
        agreed(policies, n) is None,
    decreases n,
{
    if k < n {
        lemma_disagreement_stays(policies, k, (n - 1) as nat);
    }
}

proof fn lemma_refusal_stays(raws: Seq<String>, k: nat, n: nat)
    requires
        k <= n,
        refused_override(raws, k) is Some,
    ensures
        refused_override(raws, n) == refused_override(raws, k),
    decreases n,
{
    if k < n {
        lemma_refusal_stays(raws, k, (n - 1) as nat);
    }
}

fn resolve_overrides(raws: &Vec<String>) -> (r: Result<Vec<CgroupMemoryMaxOverride>, CliError>)
    ensures
        r is Ok <==> refused_override(raws@, raws@.len()) is None,
        r matches Ok(overrides) ==> are_overrides(raws@, overrides@),
        r matches Err(e) ==> refused_override(raws@, raws@.len()) is Some && e@ == invalid(
            "cgroup-memory-max-override"@,
            raws@[refused_override(raws@, raws@.len())->0]@,
        ),
{
    let mut out: Vec<CgroupMemoryMaxOverride> = Vec::new();
    let mut i: usize = 0;
    while i < raws.len()
        invariant
            i <= raws.len(),
            out@.len() == i,
            refused_override(raws@, i as nat) is None,
            forall|k: int| 0 <= k < i ==> is_spelled(raws@[k]@, #[trigger] out@[k]),
        decreases raws.len() - i,
    {
        let raw: &str = raws[i].as_str();
        let parsed: CgroupMemoryMaxOverride = match CgroupMemoryMaxOverride::parse(raw) {
            Some(parsed) => parsed,
            None => {
                proof {
                    assert(override_refused(raws@, i as int));
                    assert(refused_override(raws@, (i + 1) as nat) == Some(i as int));
                    lemma_refusal_stays(raws@, (i + 1) as nat, raws@.len());
                }
                return Err(
                    CliError::InvalidValue {
                        field: "cgroup-memory-max-override",
                        value: raws[i].clone(),
                    },
                );
            },
        };
        let mut j: usize = 0;
        while j < out.len()
            invariant
                j <= out.len(),
                i < raws.len(),
                out@.len() == i,
                is_spelled(raws@[i as int]@, parsed),
                refused_override(raws@, i as nat) is None,
                forall|k: int| 0 <= k < i ==> is_spelled(raws@[k]@, #[trigger] out@[k]),
                forall|k: int|
                    0 <= k < j ==> !#[trigger] same_test(raws@[k]@, raws@[i as int]@),
            decreases out.len() - j,
        {
            if str_eq(out[j].target.as_str(), parsed.target.as_str()) && str_eq(
                out[j].test.as_str(),
                parsed.test.as_str(),
            ) {
                proof {
                    assert(is_spelled(raws@[j as int]@, out@[j as int]));
                    assert(same_test(raws@[j as int]@, raws@[i as int]@));
                    assert(override_refused(raws@, i as int));
                    assert(refused_override(raws@, (i + 1) as nat) == Some(i as int));
                    lemma_refusal_stays(raws@, (i + 1) as nat, raws@.len());
                }
                return Err(
                    CliError::InvalidValue {
                        field: "cgroup-memory-max-override",
                        value: raws[i].clone(),
                    },
                );
            }
            proof {
                assert(is_spelled(raws@[j as int]@, out@[j as int]));
                assert(!same_test(raws@[j as int]@, raws@[i as int]@));
            }
            j += 1;
        }
        proof {
            assert(!override_refused(raws@, i as int));
        }
        out.push(parsed);
        i += 1;
    }
    Ok(out)
}

proof fn lemma_refused_entry_stays(entries: Seq<String>, outputs: bool, k: nat, n: nat)
    requires
        k <= n,
        refused_entry(entries, outputs, k) is Some,
    ensures
        refused_entry(entries, outputs, n) == refused_entry(entries, outputs, k),
    decreases n,
{
    if k < n {
        lemma_refused_entry_stays(entries, outputs, k, (n - 1) as nat);
    }
}

/// Reads entries; the error is the first entry that is refused.
fn resolve_entries(entries: &Vec<String>, outputs: bool) -> (r: Result<
    Vec<(String, String)>,
    String,
>)
    ensures
        r is Ok <==> refused_entry(entries@, outputs, entries@.len()) is None,
        r matches Ok(read) ==> are_entries(entries@, read@),
        r matches Err(entry) ==> refused_entry(entries@, outputs, entries@.len()) is Some && entry@
            == entries@[refused_entry(entries@, outputs, entries@.len())->0]@,
{
    let mut out: Vec<(String, String)> = Vec::new();
    let mut i: usize = 0;
    while i < entries.len()
        invariant
            i <= entries.len(),
            out@.len() == i,
            refused_entry(entries@, outputs, i as nat) is None,
            forall|k: int|
                0 <= k < i ==> text::split_once(entries@[k]@, '=') == Some(
                    ((#[trigger] out@[k]).0@, out@[k].1@),
                ),
        decreases entries.len() - i,
    {
        let cs: Vec<char> = chars_of(entries[i].as_str());
        match split_once_chars(cs.as_slice(), '=') {
            Some((name, value)) if !outputs || (name.len() > 0 && value.len() > 0) => {
                out.push((string_of(name.as_slice()), string_of(value.as_slice())));
            },
            _ => {
                proof {
                    assert(refused_entry(entries@, outputs, (i + 1) as nat) == Some(i as int));
                    lemma_refused_entry_stays(entries@, outputs, (i + 1) as nat, entries@.len());
                }
                return Err(entries[i].clone());
            },
        }
        i += 1;
    }
    Ok(out)
}

fn resolve_host(entries: &Vec<String>) -> (r: Option<String>)
    ensures
        json::text_view(r) == host_platform(entries@, entries@.len()),
{
    let mut i: usize = 0;
    while i < entries.len()
        invariant
            i <= entries.len(),
            host_platform(entries@, i as nat) is None,
        decreases entries.len() - i,
    {
        let cs: Vec<char> = chars_of(entries[i].as_str());
        if let Some(host) = strip_prefix_chars(cs.as_slice(), "host=") {
            proof {
                assert(host_platform(entries@, (i + 1) as nat) == Some(host@));
                lemma_host_stays(entries@, (i + 1) as nat, entries@.len());
            }
            return Some(string_of(host.as_slice()));
        }
        i += 1;
    }
    None
}

proof fn lemma_host_stays(entries: Seq<String>, k: nat, n: nat)
    requires
        k <= n,
        host_platform(entries, k) is Some,
    ensures
        host_platform(entries, n) == host_platform(entries, k),
    decreases n,
{
    if k < n {
        lemma_host_stays(entries, k, (n - 1) as nat);
    }
}

fn resolve_batch_mode(t: &TpxConfig) -> (r: Option<BatchMode>)
    ensures
        r is Some <==> names_batch_mode(t.batch_mode@),
        r matches Some(mode) ==> is_batch_mode(*t, mode),
{
    let name: &str = t.batch_mode.as_str();
    if str_eq(name, "per-test") {
        Some(BatchMode::PerTest)
    } else if str_eq(name, "duration-bucketed") {
        Some(BatchMode::DurationBucketed { p50_lt_ms: t.batch_threshold_ms })
    } else if str_eq(name, "fixed-chunk") {
        let size: usize = if t.chunk_size < 1 {
            1
        } else {
            t.chunk_size
        };
        match NonZeroUsize::new(size) {
            Some(size) => Some(BatchMode::FixedChunk { size }),
            None => None,
        }
    } else if str_eq(name, "target") {
        Some(BatchMode::Target)
    } else {
        None
    }
}

fn one_at_least(n: usize) -> (r: usize)
    ensures
        r == at_least_one(n as int),
{
    if n < 1 {
        1
    } else {
        n
    }
}

fn resolve_memory_max(env: &MemoryMaxEnv) -> (r: Result<CgroupMemoryMax, CliError>)
    ensures
        r is Ok <==> memory_max_readable(*env),
        r matches Ok(max) ==> max.limit() == limit_of(memory_max_text(*env)),
        r matches Err(e) ==> e@ == invalid(
            "NOBIE_RUST_TEST_CGROUP_MEMORY_MAX_BYTES"@,
            memory_max_text(*env),
        ),
{
    let raw: String = match env {
        MemoryMaxEnv::NotPresent => decimal_text(DEFAULT_CGROUP_MEMORY_MAX_BYTES),
        MemoryMaxEnv::Value(value) => value.clone(),
        MemoryMaxEnv::NotUnicode(value) => {
            return Err(
                CliError::InvalidValue {
                    field: "NOBIE_RUST_TEST_CGROUP_MEMORY_MAX_BYTES",
                    value: value.clone(),
                },
            );
        },
    };
    match CgroupMemoryMax::parse(raw.as_str()) {
        Some(max) => Ok(max),
        None => Err(
            CliError::InvalidValue {
                field: "NOBIE_RUST_TEST_CGROUP_MEMORY_MAX_BYTES",
                value: raw,
            },
        ),
    }
}

/// What the named choices resolve to, or the first that is refused.
struct Choices {
    ignored: IgnoredPolicy,
    list_format: ListFormat,
    run_format: RunFormat,
    batch_mode: BatchMode,
    batch_failure_policy: BatchFailurePolicy,
    duration_db: DurationDbConfig,
    cgroup_granularity: CgroupGranularity,
}

spec fn are_choices(t: TpxConfig, c: Choices) -> bool {
    &&& Some(c.ignored) == ignored_policy(t)
    &&& Some(c.list_format) == list_format(t.list_format@)
    &&& Some(c.run_format) == run_format(t.run_format@)
    &&& names_batch_mode(t.batch_mode@)
    &&& is_batch_mode(t, c.batch_mode)
    &&& Some(c.batch_failure_policy) == failure_policy(t.batch_failure_policy@)
    &&& !(t.no_duration_db && t.duration_db is Some)
    &&& c.duration_db == (if t.no_duration_db {
        DurationDbConfig::Disabled
    } else {
        match t.duration_db {
            Some(path) => DurationDbConfig::Persistent(path),
            None => DurationDbConfig::Auto,
        }
    })
    &&& Some(c.cgroup_granularity) == granularity(t.cgroup_granularity@)
    &&& !(c.ignored == IgnoredPolicy::IgnoredOnly && c.list_format == ListFormat::Text)
}

fn resolve_choices(t: &TpxConfig, effective: &[String], env: Ghost<MemoryMaxEnv>) -> (r: Result<
    Choices,
    CliError,
>)
    requires
        text::views(effective@) == effective_args(*t),
    ensures
        r matches Ok(c) ==> are_choices(*t, c),
        r matches Err(e) ==> config_error(*t, env@) == Some(e@),
{
    let ignored: IgnoredPolicy = match resolve_ignored(t, effective) {
        Some(policy) => policy,
        None => {
            return Err(
                CliError::InvalidValue {
                    field: "ignored",
                    value: "--include-ignored with --ignored".to_owned(),
                },
            );
        },
    };
    let list_format: ListFormat = if str_eq(t.list_format.as_str(), "text") {
        ListFormat::Text
    } else if str_eq(t.list_format.as_str(), "json") {
        ListFormat::Json
    } else {
        return Err(
            CliError::InvalidValue { field: "list-format", value: t.list_format.clone() },
        );
    };
    if ignored == IgnoredPolicy::IgnoredOnly && list_format == ListFormat::Text {
        return Err(CliError::IgnoredOnlyNeedsJsonListing);
    }
    let run_format: RunFormat = if str_eq(t.run_format.as_str(), "text") {
        RunFormat::Text
    } else if str_eq(t.run_format.as_str(), "json") {
        RunFormat::Json
    } else {
        return Err(CliError::InvalidValue { field: "run-format", value: t.run_format.clone() });
    };
    let batch_mode: BatchMode = match resolve_batch_mode(t) {
        Some(mode) => mode,
        None => {
            return Err(
                CliError::InvalidValue { field: "batch-mode", value: t.batch_mode.clone() },
            );
        },
    };
    let batch_failure_policy: BatchFailurePolicy = if str_eq(
        t.batch_failure_policy.as_str(),
        "isolate",
    ) {
        BatchFailurePolicy::RerunPerTestToIsolate
    } else if str_eq(t.batch_failure_policy.as_str(), "fail-all") {
        BatchFailurePolicy::FailAll
    } else {
        return Err(
            CliError::InvalidValue {
                field: "batch-failure-policy",
                value: t.batch_failure_policy.clone(),
            },
        );
    };
    let duration_db: DurationDbConfig = if t.no_duration_db {
        if t.duration_db.is_some() {
            return Err(CliError::ConflictingDurationDbFlags);
        }
        DurationDbConfig::Disabled
    } else {
        match &t.duration_db {
            Some(path) => DurationDbConfig::Persistent(path.clone()),
            None => DurationDbConfig::Auto,
        }
    };
    let cgroup_granularity: CgroupGranularity = if str_eq(
        t.cgroup_granularity.as_str(),
        "logical-test",
    ) {
        CgroupGranularity::LogicalTest
    } else if str_eq(t.cgroup_granularity.as_str(), "action") {
        CgroupGranularity::Action
    } else {
        return Err(
            CliError::InvalidValue {
                field: "cgroup-granularity",
                value: t.cgroup_granularity.clone(),
            },
        );
    };
    Ok(
        Choices {
            ignored,
            list_format,
            run_format,
            batch_mode,
            batch_failure_policy,
            duration_db,
            cgroup_granularity,
        },
    )
}

/// Resolves the args into a configuration and a session context, or says what is
/// wrong with them.
pub fn resolve_config(outer: &OuterCli, tpx: TpxConfig, around: &Surroundings) -> (r: Result<
    (RunnerConfig, SessionContext),
    CliError,
>)
    ensures
        r is Ok <==> config_error(tpx, around.memory_max) is None,
        r matches Ok(resolved) ==> is_config(tpx, *around, resolved.0) && is_context(
            *outer,
            resolved.1,
        ),
        r matches Err(e) ==> config_error(tpx, around.memory_max) == Some(e@),
{
    let direct_libtest_args: Vec<String> = tpx.direct_libtest_args();
    let effective: Vec<String> = joined(tpx.test_arg.as_slice(), direct_libtest_args.as_slice());
    proof {
        assert(text::views(effective@) =~= effective_args(tpx));
    }
    let choices: Choices = match resolve_choices(
        &tpx,
        effective.as_slice(),
        Ghost(around.memory_max),
    ) {
        Ok(choices) => choices,
        Err(e) => {
            return Err(e);
        },
    };
    let cgroup_memory_max: CgroupMemoryMax = match resolve_memory_max(&around.memory_max) {
        Ok(max) => max,
        Err(e) => {
            return Err(e);
        },
    };
    let cgroup_memory_max_overrides: Vec<CgroupMemoryMaxOverride> = match resolve_overrides(
        &tpx.cgroup_memory_max_overrides,
    ) {
        Ok(overrides) => overrides,
        Err(e) => {
            return Err(e);
        },
    };
    let stress: RepeatKind = match NonZeroU32::new(tpx.stress) {
        Some(n) => RepeatKind::Stress(n),
        None => RepeatKind::Once,
    };
    let reps: u32 = if tpx.stress_label_reps < 1 {
        1
    } else {
        tpx.stress_label_reps
    };
    let stress_label_reps: NonZeroU32 = NonZeroU32::new(reps).unwrap();
    let count: u16 = if tpx.shard_count < 1 {
        1
    } else {
        tpx.shard_count
    };
    let shard = ShardSpec { index: tpx.shard_index, count };
    if shard.index >= shard.count {
        return Err(CliError::ShardOutOfRange { index: shard.index, count: shard.count });
    }
    let extra_env: Vec<(String, String)> = match resolve_entries(&tpx.env, false) {
        Ok(entries) => entries,
        Err(entry) => {
            return Err(CliError::InvalidEnv(entry));
        },
    };
    let declared_output_env: Vec<(String, String)> = match resolve_entries(
        &tpx.declared_output_env,
        true,
    ) {
        Ok(entries) => entries,
        Err(entry) => {
            return Err(CliError::InvalidDeclaredOutputEnv(entry));
        },
    };
    let config = RunnerConfig {
        per_test_timeout: Duration::from_secs(tpx.timeout),
        listing_timeout: Duration::from_secs(tpx.listing_timeout),
        cgroup_granularity: choices.cgroup_granularity,
        cgroup_memory_max,
        cgroup_memory_max_overrides,
        ignored: choices.ignored,
        list_format: choices.list_format,
        run_format: choices.run_format,
        batch_mode: choices.batch_mode,
        batch_failure_policy: choices.batch_failure_policy,
        variant: Variant::parse(tpx.variant.as_str()),
        stress,
        stress_label_reps,
        shard,
        local_debug: tpx.local_debug,
        flaky_attempts: if tpx.flaky_attempts < 1 {
            1
        } else {
            tpx.flaky_attempts
        },
        limits: SchedulerLimits {
            max_inflight_listings: one_at_least(tpx.max_inflight_listings),
            max_inflight_test_actions: one_at_least(tpx.max_inflight_test_actions),
            max_inflight_per_target: one_at_least(tpx.max_inflight_per_target),
            max_report_queue: 1_024,
        },
        cas_inline_limit: tpx.cas_inline_limit,
        duration_db: choices.duration_db,
        ci_test_report_json: tpx.ci_test_report_json,
        libtest_help_only: libtest_user_requests_help(effective.as_slice()),
        libtest_usage_error: libtest_user_usage_error(effective.as_slice()),
        libtest_list_only: libtest_user_requests_listing_only(effective.as_slice()),
        direct_libtest_args,
        extra_test_args: tpx.test_arg,
        extra_env,
        declared_output_env,
        quokka_config: around.quokka_config,
    };
    let context = SessionContext {
        host_platform: resolve_host(&outer.config_entry),
        trace_id: match &outer.buck_trace_id {
            Some(id) => Some(id.clone()),
            None => None,
        },
    };
    Ok((config, context))
}

// ---------------------------------------------------------------------------
// The whole argument list.

/// Where the first `--` stands, or the end.
pub open spec fn separator(argv: Seq<Seq<char>>, i: int) -> int
    decreases argv.len() - i,
{
    if i < 0 || i >= argv.len() {
        argv.len() as int
    } else if argv[i] == "--"@ {
        i
    } else {
        separator(argv, i + 1)
    }
}

/// The arguments before the first `--`.
pub open spec fn outer_part(argv: Seq<Seq<char>>) -> Seq<Seq<char>> {
    argv.take(separator(argv, 0))
}

/// The arguments behind the first `--`; a program name when there are none.
pub open spec fn tpx_part(argv: Seq<Seq<char>>) -> Seq<Seq<char>> {
    if separator(argv, 0) + 1 >= argv.len() {
        seq!["tpx"@]
    } else {
        argv.skip(separator(argv, 0) + 1)
    }
}

/// Whether the result of the parse is the right one for what the two parts gave.
pub open spec fn parsed_as(
    outer: Result<ValuesView, Seq<char>>,
    tpx: Result<ValuesView, Seq<char>>,
    around: Surroundings,
    r: Result<Invocation, CliError>,
) -> bool {
    match (outer, tpx) {
        (Err(message), _) => r matches Err(e) && e@ == CliErrorView::Parse(message),
        (Ok(_), Err(message)) => r matches Err(e) && e@ == CliErrorView::Parse(message),
        (Ok(outer), Ok(tpx)) => match (outer_error(outer), tpx_error(tpx)) {
            (Some(error), _) => r matches Err(e) && e@ == error,
            (None, Some(error)) => r matches Err(e) && e@ == error,
            (None, None) => exists|o: OuterCli, t: TpxConfig| #[trigger]
                resolved_as(outer, tpx, o, t, around, r),
        },
    }
}

/// Whether the result is the right one for typed args that were given.
pub open spec fn resolved_as(
    outer: ValuesView,
    tpx: ValuesView,
    o: OuterCli,
    t: TpxConfig,
    around: Surroundings,
    r: Result<Invocation, CliError>,
) -> bool {
    &&& is_outer(outer, o)
    &&& is_tpx(tpx, t)
    &&& match r {
        Ok(inv) => has_transport(o) && is_transport(o, inv.transport) && config_error(
            t,
            around.memory_max,
        ) is None && is_config(t, around, inv.config) && is_context(o, inv.context),
        Err(e) => if has_transport(o) {
            config_error(t, around.memory_max) == Some(e@)
        } else {
            e is MissingTransport
        },
    }
}

fn find_separator(argv: &Vec<String>) -> (r: usize)
    ensures
        r == separator(text::views(argv@), 0),
        r <= argv@.len(),
{
    let ghost all = text::views(argv@);
    let mut i: usize = 0;
    while i < argv.len()
        invariant
            i <= argv.len(),
            all == text::views(argv@),
            separator(all, 0) == separator(all, i as int),
        decreases argv.len() - i,
    {
        if str_eq(argv[i].as_str(), "--") {
            return i;
        }
        i += 1;
    }
    argv.len()
}

fn strings_between(argv: &Vec<String>, from: usize, to: usize) -> (r: Vec<String>)
    requires
        from <= to <= argv@.len(),
    ensures
        r@ == argv@.subrange(from as int, to as int),
{
    let mut out: Vec<String> = Vec::new();
    let mut i: usize = from;
    while i < to
        invariant
            from <= i <= to <= argv.len(),
            out@ == argv@.subrange(from as int, i as int),
        decreases to - i,
    {
        out.push(argv[i].clone());
        proof {
            assert(argv@.subrange(from as int, i + 1) =~= argv@.subrange(
                from as int,
                i as int,
            ).push(argv@[i as int]));
        }
        i += 1;
    }
    out
}

/// The invocation that the values of the two parts stand for, or the first error.
pub fn invocation_from(
    outer: Result<Vec<(String, Vec<String>)>, String>,
    tpx: Result<Vec<(String, Vec<String>)>, String>,
    around: &Surroundings,
) -> (r: Result<Invocation, CliError>)
    ensures
        parsed_as(options::reading_view(outer), options::reading_view(tpx), *around, r),
{
    let outer: Vec<(String, Vec<String>)> = match outer {
        Ok(values) => values,
        Err(message) => {
            return Err(CliError::Parse(message));
        },
    };
    let tpx: Vec<(String, Vec<String>)> = match tpx {
        Ok(values) => values,
        Err(message) => {
            return Err(CliError::Parse(message));
        },
    };
    let ghost outer_values = options::value_views(outer@);
    let ghost tpx_values = options::value_views(tpx@);
    let outer: OuterCli = match outer_cli(outer.as_slice()) {
        Ok(outer) => outer,
        Err(e) => {
            return Err(e);
        },
    };
    let tpx: TpxConfig = match tpx_config(tpx.as_slice()) {
        Ok(tpx) => tpx,
        Err(e) => {
            return Err(e);
        },
    };
    resolve_invocation(&outer, tpx, around, Ghost(outer_values), Ghost(tpx_values))
}

/// Whether the result of the parse is the right one for the readings of the two
/// parts. A refused part gives its message to the error.
pub open spec fn parsed_from(
    outer: Option<ValuesView>,
    tpx: Option<ValuesView>,
    around: Surroundings,
    r: Result<Invocation, CliError>,
) -> bool {
    exists|o: Result<ValuesView, Seq<char>>, t: Result<ValuesView, Seq<char>>|
        options::is_reading(o, outer) && options::is_reading(t, tpx) && #[trigger] parsed_as(
            o,
            t,
            around,
            r,
        )
}

/// Parses a full argument list, the program's name included.
pub fn parse(argv: Vec<String>, around: &Surroundings) -> (r: Result<Invocation, CliError>)
    ensures
        parsed_from(
            options::read_by(
                options::fitting(outer_table()),
                outer_part(text::views(argv@)),
            ),
            options::read_by(options::fitting(tpx_table()), tpx_part(text::views(argv@))),
            *around,
            r,
        ),
{
    let split: usize = find_separator(&argv);
    let left: Vec<String> = strings_between(&argv, 0, split);
    let right: Vec<String> = if split < argv.len() && argv.len() - split > 1 {
        strings_between(&argv, split + 1, argv.len())
    } else {
        vec!["tpx".to_owned()]
    };
    proof {
        assert(text::views(left@) =~= outer_part(text::views(argv@)));
        assert(text::views(right@) =~= tpx_part(text::views(argv@)));
    }
    let outer: Result<Vec<(String, Vec<String>)>, String> = read_arguments(
        &outer_options(),
        left.as_slice(),
    );
    let tpx: Result<Vec<(String, Vec<String>)>, String> = read_arguments(
        &tpx_options(),
        right.as_slice(),
    );
    invocation_from(outer, tpx, around)
}

fn resolve_invocation(
    outer: &OuterCli,
    tpx: TpxConfig,
    around: &Surroundings,
    outer_values: Ghost<ValuesView>,
    tpx_values: Ghost<ValuesView>,
) -> (r: Result<Invocation, CliError>)
    requires
        is_outer(outer_values@, *outer),
        is_tpx(tpx_values@, tpx),
    ensures
        resolved_as(outer_values@, tpx_values@, *outer, tpx, *around, r),
{
    let transport: Transport = match resolve_transport(outer) {
        Ok(transport) => transport,
        Err(e) => {
            return Err(e);
        },
    };
    match resolve_config(outer, tpx, around) {
        Ok((config, context)) => Ok(Invocation { transport, config, context }),
        Err(e) => Err(e),
    }
}

} // verus!

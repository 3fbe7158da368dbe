//! Test-framework translators: turning a target's spec into listing and execution
//! arguments, and decoding harness output into per-test results.
//!
//! The translator is resolved once per target from the spec's test type, and the
//! set of frameworks is a closed enum. The *listing strategy* is a typed state, so
//! "fan out per test" (libtest), "run the whole target once" (doctest) and "run
//! the whole binary once" (custom) are distinct variants.

use vstd::prelude::*;
use vstd::slice::*;
use vstd::utf8::*;

use crate::cli::RunnerConfig;
use crate::json::{
    self, json_fields, json_string, read_flag, read_optional_count, read_optional_text,
    read_required_text, JsonField,
};
use crate::listing::{
    self, IgnoredPolicy, ListingParseError, LocationView, TestCase, TestCaseKind, TestCaseLocation,
    TestCaseMetadata, TestCaseView,
};
use crate::listing_laws;
use crate::names::NameMap;
use crate::result::TestVerdict;
use crate::text::{
    self, chars_eq, chars_of, copy_strings, decimal_text, find_text_chars, lines_of, lossy_text,
    rsplit_once_text_chars, slice_of, starts_with, str_eq, string_of, strip_prefix_chars,
    strip_suffix_chars, trim_chars, trim_end_chars, utf8_text, words_of,
};

verus! {

/// Synthetic test name reported for whole-target runs.
pub const DOCTEST_RESULT_NAME: &'static str = "<doctests>";

/// Synthetic test name reported for whole-binary runs.
pub const BINARY_RESULT_NAME: &'static str = "<binary>";

/// The format used for `--list` output.
#[derive(Debug, Clone, Copy, PartialEq, Eq, Structural)]
pub enum ListFormat {
    /// Stable `--list` text (`name: test`). Cannot report ignored status.
    Text,
    /// Nightly `-Z unstable-options --list --format json`. Reports ignored.
    Json,
}

/// Output format for test execution.
#[derive(Debug, Clone, Copy, PartialEq, Eq, Structural)]
pub enum RunFormat {
    Text,
    Json,
}

/// Whether the output of a run tells which test each result belongs to.
#[derive(Debug, Clone, Copy, PartialEq, Eq, Structural)]
pub enum DemuxCapability {
    SingletonOnly,
    NameAttributable,
}

/// One observed per-test outcome from a (possibly batched) execution.
#[derive(Debug, Clone, PartialEq, Eq)]
pub struct PerTestObservation {
    pub status: TestVerdict,
    pub details: String,
}

/// An observed outcome as a mathematical value.
pub struct ObservationView {
    pub status: TestVerdict,
    pub details: Seq<char>,
}

impl View for PerTestObservation {
    type V = ObservationView;

    open spec fn view(&self) -> ObservationView {
        ObservationView { status: self.status, details: self.details@ }
    }
}

/// Observed outcomes by test name, as mathematical values.
pub open spec fn observation_views(m: Map<Seq<char>, PerTestObservation>) -> Map<
    Seq<char>,
    ObservationView,
> {
    m.map_values(|o: PerTestObservation| o@)
}

proof fn lemma_observed(
    m: Map<Seq<char>, PerTestObservation>,
    name: Seq<char>,
    o: PerTestObservation,
)
    ensures
        observation_views(m.insert(name, o)) == observation_views(m).insert(name, o@),
{
    assert(observation_views(m.insert(name, o)) =~= observation_views(m).insert(name, o@));
}

// ---------------------------------------------------------------------------
// Arguments that the user writes for the test harness.

/// The output format that the user asked the harness for.
#[derive(Debug, Clone, Copy, PartialEq, Eq, Structural)]
pub enum LibtestOutputFormat {
    Pretty,
    Terse,
    Json,
    Junit,
}

/// How a listing is shown to the user.
#[derive(Debug, Clone, Copy, PartialEq, Eq, Structural)]
pub enum LibtestListOutputFormat {
    Text { summary: bool },
    Json,
}

/// What the user's harness arguments ask for, sorted by where they belong.
#[derive(Debug, Clone, PartialEq, Eq)]
pub struct LibtestUserArgs {
    pub listing_args: Vec<String>,
    pub per_test_execution_args: Vec<String>,
    pub whole_target_execution_args: Vec<String>,
    pub ignored_policies: Vec<IgnoredPolicy>,
    pub listing_only: bool,
    pub help: bool,
    pub output_format: LibtestOutputFormat,
    pub unstable_options: bool,
    pub format_error: Option<String>,
    pub listing_needs_unstable: bool,
    pub execution_needs_unstable: bool,
}

/// The user's harness arguments as a mathematical value.
pub struct UserArgsView {
    pub listing: Seq<Seq<char>>,
    pub per_test: Seq<Seq<char>>,
    pub whole_target: Seq<Seq<char>>,
    pub ignored_policies: Seq<IgnoredPolicy>,
    pub listing_only: bool,
    pub help: bool,
    pub output_format: LibtestOutputFormat,
    pub unstable_options: bool,
    pub format_error: Option<Seq<char>>,
    pub listing_needs_unstable: bool,
    pub execution_needs_unstable: bool,
}

impl View for LibtestUserArgs {
    type V = UserArgsView;

    open spec fn view(&self) -> UserArgsView {
        UserArgsView {
            listing: text::views(self.listing_args@),
            per_test: text::views(self.per_test_execution_args@),
            whole_target: text::views(self.whole_target_execution_args@),
            ignored_policies: self.ignored_policies@,
            listing_only: self.listing_only,
            help: self.help,
            output_format: self.output_format,
            unstable_options: self.unstable_options,
            format_error: json::text_view(self.format_error),
            listing_needs_unstable: self.listing_needs_unstable,
            execution_needs_unstable: self.execution_needs_unstable,
        }
    }
}

/// What one harness argument is.
#[derive(Debug, Clone, Copy, PartialEq, Eq, Structural)]
pub enum ArgKind {
    /// `--skip=VALUE`
    SkipValue,
    /// `--logfile=VALUE`
    LogfileValue,
    /// `--test-threads=VALUE` and `--color=VALUE`, which the runner sets itself
    DroppedValue,
    /// `--format=VALUE`
    FormatValue,
    /// `--filter=VALUE`
    FilterValue,
    /// `--shuffle-seed=VALUE`
    SeedValue,
    /// `-Z FLAG` and `-ZFLAG`
    Unstable,
    IncludeIgnored,
    Ignored,
    Exact,
    Skip,
    List,
    Filter,
    /// `--test` and `--bench`
    Selection,
    ExcludeShouldPanic,
    /// Flags that only a run reads
    Execution,
    /// Flags that only a run reads and that are not stable
    UnstableExecution,
    Seed,
    Logfile,
    Format,
    /// `--test-threads VALUE` and `--color VALUE`
    Dropped,
    Quiet,
    Help,
    /// `--`: everything behind it is a filter
    Rest,
    OtherFlag,
    Positional,
}

/// What an argument is.
#[verifier::opaque]
pub open spec fn kind_of(arg: Seq<char>) -> ArgKind {
    if "--skip="@.is_prefix_of(arg) {
        ArgKind::SkipValue
    } else if "--logfile="@.is_prefix_of(arg) {
        ArgKind::LogfileValue
    } else if "--test-threads="@.is_prefix_of(arg) || "--color="@.is_prefix_of(arg) {
        ArgKind::DroppedValue
    } else if "--format="@.is_prefix_of(arg) {
        ArgKind::FormatValue
    } else if "--filter="@.is_prefix_of(arg) {
        ArgKind::FilterValue
    } else if "--shuffle-seed="@.is_prefix_of(arg) {
        ArgKind::SeedValue
    } else if "-Z"@.is_prefix_of(arg) {
        ArgKind::Unstable
    } else if arg == "--include-ignored"@ {
        ArgKind::IncludeIgnored
    } else if arg == "--ignored"@ {
        ArgKind::Ignored
    } else if arg == "--exact"@ {
        ArgKind::Exact
    } else if arg == "--skip"@ {
        ArgKind::Skip
    } else if arg == "--list"@ {
        ArgKind::List
    } else if arg == "--filter"@ {
        ArgKind::Filter
    } else if arg == "--test"@ || arg == "--bench"@ {
        ArgKind::Selection
    } else if arg == "--exclude-should-panic"@ {
        ArgKind::ExcludeShouldPanic
    } else if arg == "--force-run-in-process"@ || arg == "--no-capture"@ || arg == "--nocapture"@
        || arg == "--show-output"@ {
        ArgKind::Execution
    } else if arg == "--fail-fast"@ || arg == "--report-time"@ || arg == "--ensure-time"@ || arg
        == "--shuffle"@ {
        ArgKind::UnstableExecution
    } else if arg == "--shuffle-seed"@ {
        ArgKind::Seed
    } else if arg == "--logfile"@ {
        ArgKind::Logfile
    } else if arg == "--format"@ {
        ArgKind::Format
    } else if arg == "--test-threads"@ || arg == "--color"@ {
        ArgKind::Dropped
    } else if arg == "-q"@ || arg == "--quiet"@ {
        ArgKind::Quiet
    } else if arg == "-h"@ || arg == "--help"@ {
        ArgKind::Help
    } else if arg == "--"@ {
        ArgKind::Rest
    } else if "-"@.is_prefix_of(arg) {
        ArgKind::OtherFlag
    } else {
        ArgKind::Positional
    }
}

/// What an argument is.
fn arg_kind(arg: &str) -> (r: ArgKind)
    ensures
        r == kind_of(arg@),
{
    let cs: Vec<char> = chars_of(arg);
    let cs: &[char] = cs.as_slice();
    proof {
        reveal(kind_of);
    }
    if starts_with(cs, "--skip=") {
        ArgKind::SkipValue
    } else if starts_with(cs, "--logfile=") {
        ArgKind::LogfileValue
    } else if starts_with(cs, "--test-threads=") || starts_with(cs, "--color=") {
        ArgKind::DroppedValue
    } else if starts_with(cs, "--format=") {
        ArgKind::FormatValue
    } else if starts_with(cs, "--filter=") {
        ArgKind::FilterValue
    } else if starts_with(cs, "--shuffle-seed=") {
        ArgKind::SeedValue
    } else if starts_with(cs, "-Z") {
        ArgKind::Unstable
    } else if str_eq(arg, "--include-ignored") {
        ArgKind::IncludeIgnored
    } else if str_eq(arg, "--ignored") {
        ArgKind::Ignored
    } else if str_eq(arg, "--exact") {
        ArgKind::Exact
    } else if str_eq(arg, "--skip") {
        ArgKind::Skip
    } else if str_eq(arg, "--list") {
        ArgKind::List
    } else if str_eq(arg, "--filter") {
        ArgKind::Filter
    } else if str_eq(arg, "--test") || str_eq(arg, "--bench") {
        ArgKind::Selection
    } else if str_eq(arg, "--exclude-should-panic") {
        ArgKind::ExcludeShouldPanic
    } else if str_eq(arg, "--force-run-in-process") || str_eq(arg, "--no-capture") || str_eq(
        arg,
        "--nocapture",
    ) || str_eq(arg, "--show-output") {
        ArgKind::Execution
    } else if str_eq(arg, "--fail-fast") || str_eq(arg, "--report-time") || str_eq(
        arg,
        "--ensure-time",
    ) || str_eq(arg, "--shuffle") {
        ArgKind::UnstableExecution
    } else if str_eq(arg, "--shuffle-seed") {
        ArgKind::Seed
    } else if str_eq(arg, "--logfile") {
        ArgKind::Logfile
    } else if str_eq(arg, "--format") {
        ArgKind::Format
    } else if str_eq(arg, "--test-threads") || str_eq(arg, "--color") {
        ArgKind::Dropped
    } else if str_eq(arg, "-q") || str_eq(arg, "--quiet") {
        ArgKind::Quiet
    } else if str_eq(arg, "-h") || str_eq(arg, "--help") {
        ArgKind::Help
    } else if str_eq(arg, "--") {
        ArgKind::Rest
    } else if starts_with(cs, "-") {
        ArgKind::OtherFlag
    } else {
        ArgKind::Positional
    }
}

impl UserArgsView {
    /// Nothing asked for.
    pub open spec fn nothing() -> UserArgsView {
        UserArgsView {
            listing: Seq::empty(),
            per_test: Seq::empty(),
            whole_target: Seq::empty(),
            ignored_policies: Seq::empty(),
            listing_only: false,
            help: false,
            output_format: LibtestOutputFormat::Pretty,
            unstable_options: false,
            format_error: None,
            listing_needs_unstable: false,
            execution_needs_unstable: false,
        }
    }

    /// A filter narrows listings and whole-target runs. A single test is run by
    /// its exact name, so no filter goes there.
    pub open spec fn with_filter(self, value: Seq<char>) -> UserArgsView {
        UserArgsView {
            listing: self.listing.push(value),
            whole_target: self.whole_target.push(value),
            ..self
        }
    }

    /// A skipped name narrows as a filter does.
    pub open spec fn with_skip(self, value: Seq<char>) -> UserArgsView {
        self.with_filter("--skip"@).with_filter(value)
    }

    /// A flag that only a run reads.
    pub open spec fn with_execution(self, flag: Seq<char>) -> UserArgsView {
        UserArgsView {
            per_test: self.per_test.push(flag),
            whole_target: self.whole_target.push(flag),
            ..self
        }
    }

    /// A flag that listings and runs read.
    pub open spec fn with_selection(self, flag: Seq<char>) -> UserArgsView {
        UserArgsView { listing: self.listing.push(flag), ..self.with_execution(flag) }
    }

    /// A run that needs unstable options.
    pub open spec fn unstable_run(self) -> UserArgsView {
        UserArgsView { execution_needs_unstable: true, ..self }
    }

    /// An unstable option named by the user.
    pub open spec fn with_unstable(self, value: Seq<char>) -> UserArgsView {
        UserArgsView {
            unstable_options: self.unstable_options || value == "unstable-options"@,
            ..self.unstable_run()
        }
    }

    /// An ignored-test policy named by the user.
    pub open spec fn with_policy(self, policy: IgnoredPolicy) -> UserArgsView {
        UserArgsView { ignored_policies: self.ignored_policies.push(policy), ..self }
    }

    /// An output format named by the user; an unknown one is an error.
    pub open spec fn with_format(self, value: Seq<char>) -> UserArgsView {
        if value == "pretty"@ {
            UserArgsView { output_format: LibtestOutputFormat::Pretty, ..self }
        } else if value == "terse"@ {
            UserArgsView { output_format: LibtestOutputFormat::Terse, ..self }
        } else if value == "json"@ {
            UserArgsView { output_format: LibtestOutputFormat::Json, ..self }
        } else if value == "junit"@ {
            UserArgsView { output_format: LibtestOutputFormat::Junit, ..self }
        } else {
            UserArgsView { format_error: Some(format_complaint(value)), ..self }
        }
    }

    /// One argument read, together with the one behind it where it has a value.
    #[verifier::opaque]
    pub open spec fn with_arg(self, arg: Seq<char>, next: Option<Seq<char>>) -> UserArgsView {
        match kind_of(arg) {
            ArgKind::SkipValue => self.with_skip(arg.skip("--skip="@.len() as int)),
            ArgKind::LogfileValue => self.with_execution("--logfile"@).with_execution(
                arg.skip("--logfile="@.len() as int),
            ),
            ArgKind::DroppedValue | ArgKind::Dropped | ArgKind::Rest => self,
            ArgKind::FormatValue => self.with_format(arg.skip("--format="@.len() as int)),
            ArgKind::FilterValue => self.with_filter(arg.skip("--filter="@.len() as int)),
            ArgKind::SeedValue => self.unstable_run().with_execution(
                "--shuffle-seed"@,
            ).with_execution(arg.skip("--shuffle-seed="@.len() as int)),
            ArgKind::Unstable => if arg.len() > "-Z"@.len() {
                self.with_unstable(arg.skip("-Z"@.len() as int))
            } else {
                match next {
                    Some(flag) => self.with_unstable(flag),
                    None => self,
                }
            },
            ArgKind::IncludeIgnored => self.with_policy(IgnoredPolicy::IncludeIgnored),
            ArgKind::Ignored => self.with_policy(IgnoredPolicy::IgnoredOnly),
            ArgKind::Exact => self.with_filter(arg),
            ArgKind::Skip => match next {
                Some(value) => self.with_skip(value),
                None => self,
            },
            ArgKind::List => UserArgsView { listing_only: true, ..self },
            ArgKind::Filter => match next {
                Some(value) => self.with_filter(value),
                None => self,
            },
            ArgKind::Selection => self.with_selection(arg),
            ArgKind::ExcludeShouldPanic => UserArgsView {
                listing_needs_unstable: true,
                ..self.unstable_run().with_selection(arg)
            },
            ArgKind::Execution | ArgKind::OtherFlag => self.with_execution(arg),
            ArgKind::UnstableExecution => self.unstable_run().with_execution(arg),
            ArgKind::Seed => match next {
                Some(value) => self.unstable_run().with_execution(arg).with_execution(value),
                None => self,
            },
            ArgKind::Logfile => match next {
                Some(value) => self.with_execution(arg).with_execution(value),
                None => self,
            },
            ArgKind::Format => match next {
                Some(value) => self.with_format(value),
                None => self,
            },
            ArgKind::Quiet => UserArgsView { output_format: LibtestOutputFormat::Terse, ..self },
            ArgKind::Help => UserArgsView { help: true, ..self },
            ArgKind::Positional => self.with_filter(arg),
        }
    }

    /// Every one of some filters.
    pub open spec fn with_filters(self, filters: Seq<Seq<char>>) -> UserArgsView
        decreases filters.len(),
    {
        if filters.len() == 0 {
            self
        } else {
            self.with_filter(filters[0]).with_filters(filters.skip(1))
        }
    }
}

/// The complaint about an unknown output format.
pub open spec fn format_complaint(value: Seq<char>) -> Seq<char> {
    "argument for --format must be pretty, terse, json or junit (was "@ + value + ")"@
}

/// How many arguments an argument takes up.
pub open spec fn width_of(arg: Seq<char>, next: Option<Seq<char>>) -> int {
    match kind_of(arg) {
        ArgKind::Skip | ArgKind::Filter | ArgKind::Seed | ArgKind::Logfile | ArgKind::Format
        | ArgKind::Dropped => 2,
        ArgKind::Unstable => if arg.len() == "-Z"@.len() && next is Some {
            2
        } else {
            1
        },
        _ => 1,
    }
}

/// The argument at a position, if there is one.
pub open spec fn arg_at(args: Seq<Seq<char>>, i: int) -> Option<Seq<char>> {
    if 0 <= i < args.len() {
        Some(args[i])
    } else {
        None
    }
}

/// What the arguments from position `i` on add to what was read before them.
pub open spec fn read_args(args: Seq<Seq<char>>, i: int, read: UserArgsView) -> UserArgsView
    decreases args.len() - i + 1,
{
    if i < 0 || i >= args.len() {
        read
    } else if kind_of(args[i]) == ArgKind::Rest {
        read.with_filters(args.skip(i + 1))
    } else {
        read_args(
            args,
            i + width_of(args[i], arg_at(args, i + 1)),
            read.with_arg(args[i], arg_at(args, i + 1)),
        )
    }
}

/// What the user's harness arguments ask for.
pub open spec fn user_args(args: Seq<Seq<char>>) -> UserArgsView {
    read_args(args, 0, UserArgsView::nothing())
}

impl LibtestUserArgs {
    fn push_filter(&mut self, value: &str)
        ensures
            final(self)@ == old(self)@.with_filter(value@),
    {
        self.listing_args.push(value.to_owned());
        self.whole_target_execution_args.push(value.to_owned());
        proof {
            assert(self@.listing =~= old(self)@.listing.push(value@));
            assert(self@.whole_target =~= old(self)@.whole_target.push(value@));
        }
    }

    fn push_skip(&mut self, value: &str)
        ensures
            final(self)@ == old(self)@.with_skip(value@),
    {
        self.push_filter("--skip");
        self.push_filter(value);
    }

    fn push_execution_flag(&mut self, flag: &str)
        ensures
            final(self)@ == old(self)@.with_execution(flag@),
    {
        self.per_test_execution_args.push(flag.to_owned());
        self.whole_target_execution_args.push(flag.to_owned());
        proof {
            assert(self@.per_test =~= old(self)@.per_test.push(flag@));
            assert(self@.whole_target =~= old(self)@.whole_target.push(flag@));
        }
    }

    fn push_listing_and_execution_flag(&mut self, flag: &str)
        ensures
            final(self)@ == old(self)@.with_selection(flag@),
    {
        self.listing_args.push(flag.to_owned());
        proof {
            assert(self@.listing =~= old(self)@.listing.push(flag@));
        }
        self.push_execution_flag(flag);
    }

    fn push_execution_value(&mut self, flag: &str, value: &str)
        ensures
            final(self)@ == old(self)@.with_execution(flag@).with_execution(value@),
    {
        self.push_execution_flag(flag);
        self.push_execution_flag(value);
    }

    fn push_unstable_execution_value(&mut self, flag: &str, value: &str)
        ensures
            final(self)@ == old(self)@.unstable_run().with_execution(flag@).with_execution(value@),
    {
        self.execution_needs_unstable = true;
        self.push_execution_value(flag, value);
    }

    fn note_unstable_option(&mut self, value: &str)
        ensures
            final(self)@ == old(self)@.with_unstable(value@),
    {
        self.execution_needs_unstable = true;
        if str_eq(value, "unstable-options") {
            self.unstable_options = true;
        }
    }

    fn set_output_format(&mut self, value: &str)
        ensures
            final(self)@ == old(self)@.with_format(value@),
    {
        if str_eq(value, "pretty") {
            self.output_format = LibtestOutputFormat::Pretty;
        } else if str_eq(value, "terse") {
            self.output_format = LibtestOutputFormat::Terse;
        } else if str_eq(value, "json") {
            self.output_format = LibtestOutputFormat::Json;
        } else if str_eq(value, "junit") {
            self.output_format = LibtestOutputFormat::Junit;
        } else {
            let mut complaint: String =
                "argument for --format must be pretty, terse, json or junit (was ".to_owned();
            complaint.push_str(value);
            complaint.push_str(")");
            self.format_error = Some(complaint);
        }
    }

    /// Sorts the user's harness arguments by where they belong.
    pub fn parse(args: &[String]) -> (r: LibtestUserArgs)
        ensures
            r@ == user_args(text::views(args@)),
    {
        let mut parsed = LibtestUserArgs {
            listing_args: Vec::new(),
            per_test_execution_args: Vec::new(),
            whole_target_execution_args: Vec::new(),
            ignored_policies: Vec::new(),
            listing_only: false,
            help: false,
            output_format: LibtestOutputFormat::Pretty,
            unstable_options: false,
            format_error: None,
            listing_needs_unstable: false,
            execution_needs_unstable: false,
        };
        let ghost all = text::views(args@);
        proof {
            let nothing = UserArgsView::nothing();
            assert(parsed@.listing =~= nothing.listing);
            assert(parsed@.per_test =~= nothing.per_test);
            assert(parsed@.whole_target =~= nothing.whole_target);
            assert(parsed@.ignored_policies =~= nothing.ignored_policies);
            assert(parsed@ == nothing);
        }
        let mut i: usize = 0;
        while i < args.len()
            invariant
                i <= args.len(),
                all == text::views(args@),
                all.len() == args.len(),
                user_args(all) == read_args(all, i as int, parsed@),
            decreases args.len() - i,
        {
            i = parsed.read_at(args, i);
        }
        parsed
    }

    /// Reads the argument at position `i` and says where to go on.
    fn read_at(&mut self, args: &[String], i: usize) -> (r: usize)
        requires
            i < args.len(),
        ensures
            i < r <= args.len(),
            read_args(text::views(args@), i as int, old(self)@) == read_args(
                text::views(args@),
                r as int,
                final(self)@,
            ),
    {
        let ghost all = text::views(args@);
        let arg: &str = args[i].as_str();
        let kind: ArgKind = arg_kind(arg);
        if kind == ArgKind::Rest {
            self.push_filters(args, i + 1);
            return args.len();
        }
        let next: Option<&str> = if i < args.len() - 1 {
            Some(args[i + 1].as_str())
        } else {
            None
        };
        let taken: usize = self.take_arg(kind, arg, next);
        proof {
            assert(arg@ == all[i as int]);
            assert(arg_at(all, i + 1) == (match next {
                Some(value) => Some(value@),
                None => None,
            }));
            assert(read_args(all, all.len() as int, self@) == self@);
            assert(read_args(all, all.len() as int + 1, self@) == self@);
        }
        if taken == 2 && next.is_none() {
            return args.len();
        }
        i + taken
    }

    fn push_filters(&mut self, args: &[String], from: usize)
        requires
            from <= args.len(),
        ensures
            final(self)@ == old(self)@.with_filters(text::views(args@).skip(from as int)),
    {
        let ghost all = text::views(args@);
        let ghost before = self@;
        let mut i: usize = from;
        while i < args.len()
            invariant
                from <= i <= args.len(),
                all == text::views(args@),
                before.with_filters(all.skip(from as int)) == self@.with_filters(all.skip(i as int)),
            decreases args.len() - i,
        {
            proof {
                assert(all.skip(i as int)[0] == all[i as int]);
                assert(all.skip(i as int).skip(1) =~= all.skip(i + 1));
            }
            self.push_filter(args[i].as_str());
            i += 1;
        }
    }

    fn take_arg(&mut self, kind: ArgKind, arg: &str, next: Option<&str>) -> (r: usize)
        requires
            kind == kind_of(arg@),
        ensures
            ({
                let behind = match next {
                    Some(value) => Some(value@),
                    None => None,
                };
                final(self)@ == old(self)@.with_arg(arg@, behind) && r == width_of(arg@, behind)
                    && 1 <= r <= 2
            }),
    {
        proof {
            reveal(kind_of);
            reveal(UserArgsView::with_arg);
        }
        match kind {
            ArgKind::SkipValue => {
                let value: String = value_behind(arg, "--skip=");
                self.push_skip(value.as_str());
                1
            },
            ArgKind::LogfileValue => {
                let value: String = value_behind(arg, "--logfile=");
                self.push_execution_value("--logfile", value.as_str());
                1
            },
            ArgKind::DroppedValue => 1,
            ArgKind::FormatValue => {
                let value: String = value_behind(arg, "--format=");
                self.set_output_format(value.as_str());
                1
            },
            ArgKind::FilterValue => {
                let value: String = value_behind(arg, "--filter=");
                self.push_filter(value.as_str());
                1
            },
            ArgKind::SeedValue => {
                let value: String = value_behind(arg, "--shuffle-seed=");
                self.push_unstable_execution_value("--shuffle-seed", value.as_str());
                1
            },
            ArgKind::Unstable => {
                let value: String = value_behind(arg, "-Z");
                if chars_of(value.as_str()).len() == 0 {
                    match next {
                        Some(flag) => {
                            self.note_unstable_option(flag);
                            2
                        },
                        None => 1,
                    }
                } else {
                    self.note_unstable_option(value.as_str());
                    1
                }
            },
            ArgKind::IncludeIgnored => {
                self.ignored_policies.push(IgnoredPolicy::IncludeIgnored);
                1
            },
            ArgKind::Ignored => {
                self.ignored_policies.push(IgnoredPolicy::IgnoredOnly);
                1
            },
            ArgKind::Exact => {
                self.push_filter(arg);
                1
            },
            ArgKind::Skip => {
                if let Some(value) = next {
                    self.push_skip(value);
                }
                2
            },
            ArgKind::List => {
                self.listing_only = true;
                1
            },
            ArgKind::Filter => {
                if let Some(value) = next {
                    self.push_filter(value);
                }
                2
            },
            ArgKind::Selection => {
                self.push_listing_and_execution_flag(arg);
                1
            },
            ArgKind::ExcludeShouldPanic => {
                self.listing_needs_unstable = true;
                self.execution_needs_unstable = true;
                self.push_listing_and_execution_flag(arg);
                1
            },
            ArgKind::Execution | ArgKind::OtherFlag => {
                self.push_execution_flag(arg);
                1
            },
            ArgKind::UnstableExecution => {
                self.execution_needs_unstable = true;
                self.push_execution_flag(arg);
                1
            },
            ArgKind::Seed => {
                if let Some(value) = next {
                    self.push_unstable_execution_value(arg, value);
                }
                2
            },
            ArgKind::Logfile => {
                if let Some(value) = next {
                    self.push_execution_value(arg, value);
                }
                2
            },
            ArgKind::Format => {
                if let Some(value) = next {
                    self.set_output_format(value);
                }
                2
            },
            ArgKind::Dropped => 2,
            ArgKind::Quiet => {
                self.output_format = LibtestOutputFormat::Terse;
                1
            },
            ArgKind::Help => {
                self.help = true;
                1
            },
            ArgKind::Rest => 1,
            ArgKind::Positional => {
                self.push_filter(arg);
                1
            },
        }
    }

    /// How a listing is shown: as text with a summary, without one, or as JSON.
    pub fn list_output_format(&self) -> (r: LibtestListOutputFormat)
        ensures
            r == list_format_for(self.output_format),
    {
        match self.output_format {
            LibtestOutputFormat::Pretty | LibtestOutputFormat::Junit => {
                LibtestListOutputFormat::Text { summary: true }
            },
            LibtestOutputFormat::Terse => LibtestListOutputFormat::Text { summary: false },
            LibtestOutputFormat::Json => LibtestListOutputFormat::Json,
        }
    }
}

/// How a listing is shown under an output format.
pub open spec fn list_format_for(format: LibtestOutputFormat) -> LibtestListOutputFormat {
    match format {
        LibtestOutputFormat::Pretty | LibtestOutputFormat::Junit => LibtestListOutputFormat::Text {
            summary: true,
        },
        LibtestOutputFormat::Terse => LibtestListOutputFormat::Text { summary: false },
        LibtestOutputFormat::Json => LibtestListOutputFormat::Json,
    }
}

/// What stands in an argument behind a prefix that it has.
fn value_behind(arg: &str, prefix: &str) -> (r: String)
    requires
        prefix@.is_prefix_of(arg@),
    ensures
        r@ == arg@.skip(prefix@.len() as int),
{
    let cs: Vec<char> = chars_of(arg);
    match strip_prefix_chars(cs.as_slice(), prefix) {
        Some(rest) => string_of(rest.as_slice()),
        None => String::new(),
    }
}

/// Puts a text at the end of some texts.
fn push_text(out: &mut Vec<String>, value: &str)
    ensures
        text::views(final(out)@) == text::views(old(out)@).push(value@),
{
    out.push(value.to_owned());
    proof {
        assert(text::views(out@) =~= text::views(old(out)@).push(value@));
    }
}

/// Puts texts at the end of some texts.
fn push_texts(out: &mut Vec<String>, more: &[String])
    ensures
        text::views(final(out)@) == text::views(old(out)@) + text::views(more@),
{
    let ghost before = text::views(out@);
    let mut i: usize = 0;
    while i < more.len()
        invariant
            i <= more.len(),
            text::views(out@) == before + text::views(more@).take(i as int),
        decreases more.len() - i,
    {
        push_text(out, more[i].as_str());
        proof {
            assert(text::views(more@).take(i + 1) =~= text::views(more@).take(i as int).push(
                text::views(more@)[i as int],
            ));
            assert(text::views(out@) =~= before + text::views(more@).take(i + 1));
        }
        i += 1;
    }
    proof {
        assert(text::views(more@).take(i as int) =~= text::views(more@));
    }
}

/// The texts of names.
pub open spec fn name_texts(names: Seq<&str>) -> Seq<Seq<char>> {
    Seq::new(names.len(), |i: int| names[i]@)
}

/// The flag that tells a harness what to do with ignored tests.
pub open spec fn ignored_flags(ignored: IgnoredPolicy) -> Seq<Seq<char>> {
    match ignored {
        IgnoredPolicy::ExcludeIgnored => Seq::empty(),
        IgnoredPolicy::IncludeIgnored => seq!["--include-ignored"@],
        IgnoredPolicy::IgnoredOnly => seq!["--ignored"@],
    }
}

fn push_ignored_flags(args: &mut Vec<String>, ignored: IgnoredPolicy)
    ensures
        text::views(final(args)@) == text::views(old(args)@) + ignored_flags(ignored),
{
    match ignored {
        IgnoredPolicy::ExcludeIgnored => {},
        IgnoredPolicy::IncludeIgnored => push_text(args, "--include-ignored"),
        IgnoredPolicy::IgnoredOnly => push_text(args, "--ignored"),
    }
    proof {
        assert(text::views(args@) =~= text::views(old(args)@) + ignored_flags(ignored));
    }
}

/// The flags that choose the format of a run. JSON and unstable flags of the user
/// need unstable options.
pub open spec fn format_flags(format: RunFormat, needs_unstable: bool) -> Seq<Seq<char>> {
    match format {
        RunFormat::Json => seq!["-Z"@, "unstable-options"@, "--format"@, "json"@],
        RunFormat::Text => if needs_unstable {
            seq!["-Z"@, "unstable-options"@]
        } else {
            Seq::empty()
        },
    }
}

fn push_format_flags(args: &mut Vec<String>, format: RunFormat, needs_unstable: bool)
    ensures
        text::views(final(args)@) == text::views(old(args)@) + format_flags(format, needs_unstable),
{
    if format == RunFormat::Json || needs_unstable {
        push_text(args, "-Z");
        push_text(args, "unstable-options");
    }
    if format == RunFormat::Json {
        push_text(args, "--format");
        push_text(args, "json");
    }
    proof {
        assert(text::views(args@) =~= text::views(old(args)@) + format_flags(
            format,
            needs_unstable,
        ));
    }
}

/// The arguments of a listing.
pub open spec fn listing_args(
    ignored: IgnoredPolicy,
    format: ListFormat,
    user: UserArgsView,
) -> Seq<Seq<char>> {
    (match format {
        ListFormat::Text => if user.listing_needs_unstable {
            seq!["--list"@, "-Z"@, "unstable-options"@]
        } else {
            seq!["--list"@]
        },
        ListFormat::Json => seq!["-Z"@, "unstable-options"@, "--list"@, "--format"@, "json"@],
    }) + ignored_flags(ignored) + user.listing
}

/// The arguments that make a libtest binary list its tests.
pub fn libtest_listing_args(ignored: IgnoredPolicy, format: ListFormat, user_args: &[String]) -> (r:
    Vec<String>)
    ensures
        text::views(r@) == listing_args(
            ignored,
            format,
            self::user_args(text::views(user_args@)),
        ),
{
    let user = LibtestUserArgs::parse(user_args);
    let mut args: Vec<String> = Vec::new();
    proof {
        assert(text::views(args@) =~= Seq::<Seq<char>>::empty());
    }
    match format {
        ListFormat::Text => {
            push_text(&mut args, "--list");
            if user.listing_needs_unstable {
                push_text(&mut args, "-Z");
                push_text(&mut args, "unstable-options");
            }
        },
        ListFormat::Json => {
            push_text(&mut args, "-Z");
            push_text(&mut args, "unstable-options");
            push_text(&mut args, "--list");
            push_text(&mut args, "--format");
            push_text(&mut args, "json");
        },
    }
    let ghost head = text::views(args@);
    push_ignored_flags(&mut args, ignored);
    push_texts(&mut args, user.listing_args.as_slice());
    proof {
        assert(text::views(args@) == head + ignored_flags(ignored) + user@.listing);
        assert(text::views(args@) =~= listing_args(ignored, format, user@));
    }
    args
}

/// The arguments of a run of named tests. Names match exactly, one thread runs
/// them, and no colors are printed.
pub open spec fn execution_args(
    names: Seq<Seq<char>>,
    ignored: IgnoredPolicy,
    format: RunFormat,
    user: UserArgsView,
) -> Seq<Seq<char>> {
    names + seq!["--exact"@, "--test-threads=1"@, "--color=never"@] + ignored_flags(ignored)
        + format_flags(format, user.execution_needs_unstable) + user.per_test
}

/// The arguments that make a libtest binary run the named tests.
pub fn libtest_execution_args(
    names: &[&str],
    ignored: IgnoredPolicy,
    format: RunFormat,
    user_args: &[String],
) -> (r: Vec<String>)
    ensures
        text::views(r@) == execution_args(
            name_texts(names@),
            ignored,
            format,
            self::user_args(text::views(user_args@)),
        ),
{
    let user = LibtestUserArgs::parse(user_args);
    let ghost all = name_texts(names@);
    let mut args: Vec<String> = Vec::new();
    let mut i: usize = 0;
    proof {
        assert(text::views(args@) =~= all.take(0));
    }
    while i < names.len()
        invariant
            i <= names.len(),
            all == name_texts(names@),
            text::views(args@) == all.take(i as int),
        decreases names.len() - i,
    {
        push_text(&mut args, names[i]);
        proof {
            assert(all.take(i + 1) =~= all.take(i as int).push(all[i as int]));
        }
        i += 1;
    }
    proof {
        assert(all.take(i as int) =~= all);
    }
    push_text(&mut args, "--exact");
    push_text(&mut args, "--test-threads=1");
    push_text(&mut args, "--color=never");
    proof {
        assert(text::views(args@) =~= all + seq!["--exact"@, "--test-threads=1"@, "--color=never"@]);
    }
    push_ignored_flags(&mut args, ignored);
    push_format_flags(&mut args, format, user.execution_needs_unstable);
    push_texts(&mut args, user.per_test_execution_args.as_slice());
    args
}

/// The arguments of a run of a whole documentation-test target.
pub open spec fn whole_target_args(ignored: IgnoredPolicy, format: RunFormat, user: UserArgsView) -> Seq<
    Seq<char>,
> {
    seq!["--test-threads=1"@, "--color=never"@] + ignored_flags(ignored) + format_flags(
        format,
        user.execution_needs_unstable,
    ) + user.whole_target
}

/// The arguments that make a documentation-test target run.
pub fn doctest_execution_args(
    ignored: IgnoredPolicy,
    format: RunFormat,
    user_args: &[String],
) -> (r: Vec<String>)
    ensures
        text::views(r@) == whole_target_args(
            ignored,
            format,
            self::user_args(text::views(user_args@)),
        ),
{
    let user = LibtestUserArgs::parse(user_args);
    let mut args: Vec<String> = Vec::new();
    proof {
        assert(text::views(args@) =~= Seq::<Seq<char>>::empty());
    }
    push_text(&mut args, "--test-threads=1");
    push_text(&mut args, "--color=never");
    proof {
        assert(text::views(args@) =~= seq!["--test-threads=1"@, "--color=never"@]);
    }
    push_ignored_flags(&mut args, ignored);
    push_format_flags(&mut args, format, user.execution_needs_unstable);
    push_texts(&mut args, user.whole_target_execution_args.as_slice());
    args
}

/// The runner adds no arguments to a custom binary.
pub fn custom_binary_execution_args() -> (r: Vec<String>)
    ensures
        r@.len() == 0,
{
    Vec::new()
}

/// Filters and skipped names never reach the run of a single test, and the run of
/// a whole target sees them exactly as the listing does.
pub proof fn law_filters_never_reach_single_runs(args: Seq<Seq<char>>)
    requires
        forall|i: int|
            0 <= i < args.len() ==> kind_of(#[trigger] args[i]) == ArgKind::Positional || kind_of(
                args[i],
            ) == ArgKind::FilterValue || kind_of(args[i]) == ArgKind::SkipValue,
    ensures
        user_args(args).per_test == Seq::<Seq<char>>::empty(),
        user_args(args).whole_target == user_args(args).listing,
        user_args(args).listing.len() >= args.len(),
{
    lemma_filters_from(args, 0, UserArgsView::nothing());
}

proof fn lemma_filters_from(args: Seq<Seq<char>>, i: int, read: UserArgsView)
    requires
        0 <= i <= args.len(),
        forall|k: int|
            0 <= k < args.len() ==> kind_of(#[trigger] args[k]) == ArgKind::Positional || kind_of(
                args[k],
            ) == ArgKind::FilterValue || kind_of(args[k]) == ArgKind::SkipValue,
        read.per_test == Seq::<Seq<char>>::empty(),
        read.whole_target == read.listing,
        read.listing.len() >= i,
    ensures
        read_args(args, i, read).per_test == Seq::<Seq<char>>::empty(),
        read_args(args, i, read).whole_target == read_args(args, i, read).listing,
        read_args(args, i, read).listing.len() >= args.len(),
    decreases args.len() - i,
{
    if i < args.len() {
        reveal(UserArgsView::with_arg);
        let next = read.with_arg(args[i], arg_at(args, i + 1));
        lemma_filters_from(args, i + 1, next);
    }
}

/// Everything behind `--` is a filter, whatever it looks like.
pub proof fn law_dashes_end_the_flags(filters: Seq<Seq<char>>)
    ensures
        user_args(seq!["--"@] + filters).listing == filters,
        user_args(seq!["--"@] + filters).whole_target == filters,
        user_args(seq!["--"@] + filters).per_test == Seq::<Seq<char>>::empty(),
{
    let args = seq!["--"@] + filters;
    assert(args[0] == "--"@);
    lemma_dashes();
    assert(args.skip(1) =~= filters);
    lemma_only_filters(UserArgsView::nothing(), filters);
    assert(Seq::<Seq<char>>::empty() + filters =~= filters);
}

pub proof fn lemma_dashes()
    ensures
        kind_of("--"@) == ArgKind::Rest,
{
    reveal(kind_of);
    reveal_strlit("--");
    reveal_strlit("--skip=");
    reveal_strlit("--logfile=");
    reveal_strlit("--test-threads=");
    reveal_strlit("--color=");
    reveal_strlit("--format=");
    reveal_strlit("--filter=");
    reveal_strlit("--shuffle-seed=");
    reveal_strlit("-Z");
    reveal_strlit("--include-ignored");
    reveal_strlit("--ignored");
    reveal_strlit("--exact");
    reveal_strlit("--skip");
    reveal_strlit("--list");
    reveal_strlit("--filter");
    reveal_strlit("--test");
    reveal_strlit("--bench");
    reveal_strlit("--exclude-should-panic");
    reveal_strlit("--force-run-in-process");
    reveal_strlit("--no-capture");
    reveal_strlit("--nocapture");
    reveal_strlit("--show-output");
    reveal_strlit("--fail-fast");
    reveal_strlit("--report-time");
    reveal_strlit("--ensure-time");
    reveal_strlit("--shuffle");
    reveal_strlit("--shuffle-seed");
    reveal_strlit("--logfile");
    reveal_strlit("--format");
    reveal_strlit("--test-threads");
    reveal_strlit("--color");
    reveal_strlit("-q");
    reveal_strlit("--quiet");
    reveal_strlit("-h");
    reveal_strlit("--help");
    assert("--"@.len() == 2);
    assert("--"@[1] == '-');
    assert("-Z"@[1] == 'Z');
    assert("-q"@[1] == 'q');
    assert("-h"@[1] == 'h');
}

pub proof fn lemma_only_filters(read: UserArgsView, filters: Seq<Seq<char>>)
    ensures
        read.with_filters(filters).listing == read.listing + filters,
        read.with_filters(filters).whole_target == read.whole_target + filters,
        read.with_filters(filters).per_test == read.per_test,
    decreases filters.len(),
{
    if filters.len() > 0 {
        lemma_only_filters(read.with_filter(filters[0]), filters.skip(1));
        assert(read.listing.push(filters[0]) + filters.skip(1) =~= read.listing + filters);
        assert(read.whole_target.push(filters[0]) + filters.skip(1) =~= read.whole_target
            + filters);
    } else {
        assert(read.listing + filters =~= read.listing);
        assert(read.whole_target + filters =~= read.whole_target);
    }
}

// ---------------------------------------------------------------------------
// What the user's arguments ask the runner itself for.

/// The ignored-test policies that the user's arguments name, in order.
pub fn libtest_user_ignored_policies(args: &[String]) -> (r: Vec<IgnoredPolicy>)
    ensures
        r@ == user_args(text::views(args@)).ignored_policies,
{
    LibtestUserArgs::parse(args).ignored_policies
}

/// Whether the user only wants the tests listed.
pub fn libtest_user_requests_listing_only(args: &[String]) -> (r: bool)
    ensures
        r == user_args(text::views(args@)).listing_only,
{
    LibtestUserArgs::parse(args).listing_only
}

/// Whether the user wants the harness's help.
pub fn libtest_user_requests_help(args: &[String]) -> (r: bool)
    ensures
        r == user_args(text::views(args@)).help,
{
    LibtestUserArgs::parse(args).help
}

/// The complaint about a format that needs unstable options.
pub open spec fn unstable_complaint(format: Seq<char>) -> Seq<char> {
    "The \""@ + format
        + "\" format is only accepted on the nightly compiler with -Z unstable-options"@
}

/// What a harness would complain of. Help silences every complaint.
pub open spec fn usage_error(user: UserArgsView) -> Option<Seq<char>> {
    if user.help {
        None
    } else if user.format_error is Some {
        user.format_error
    } else if user.output_format is Json && !user.unstable_options {
        Some(unstable_complaint("json"@))
    } else if user.output_format is Junit && !user.unstable_options {
        Some(unstable_complaint("junit"@))
    } else {
        None
    }
}

fn unstable_complaint_text(format: &str) -> (r: String)
    ensures
        r@ == unstable_complaint(format@),
{
    let mut complaint: String = "The \"".to_owned();
    complaint.push_str(format);
    complaint.push_str(
        "\" format is only accepted on the nightly compiler with -Z unstable-options",
    );
    complaint
}

/// What a harness would complain of in the user's arguments.
pub fn libtest_user_usage_error(args: &[String]) -> (r: Option<String>)
    ensures
        json::text_view(r) == usage_error(user_args(text::views(args@))),
{
    let parsed = LibtestUserArgs::parse(args);
    if parsed.help {
        return None;
    }
    if parsed.format_error.is_some() {
        return parsed.format_error;
    }
    match parsed.output_format {
        LibtestOutputFormat::Json if !parsed.unstable_options => Some(
            unstable_complaint_text("json"),
        ),
        LibtestOutputFormat::Junit if !parsed.unstable_options => Some(
            unstable_complaint_text("junit"),
        ),
        _ => None,
    }
}

/// The help text behind the name of the program.
pub const HELP_BODY: &'static str = " [OPTIONS] [FILTERS...]

Options:
        --include-ignored 
                        Run ignored and not ignored tests
        --ignored       Run only ignored tests
        --force-run-in-process 
                        Forces tests to run in-process when panic=abort
        --exclude-should-panic 
                        Excludes tests marked as should_panic
        --test          Run tests and not benchmarks
        --bench         Run benchmarks instead of tests
        --list          List all tests and benchmarks
        --fail-fast     Don't start new tests after the first failure
    -h, --help          Display this message
        --logfile PATH  Write logs to the specified file (deprecated)
        --no-capture    don't capture stdout/stderr of each task, allow
                        printing directly
        --test-threads n_threads
                        Number of threads used for running tests in parallel
        --skip FILTER   Skip tests whose names contain FILTER (this flag can
                        be used multiple times)
    -q, --quiet         Display one character per test instead of one line.
                        Alias to --format=terse
        --exact         Exactly match filters rather than by substring
        --color auto|always|never
                        Configure coloring of output:
                        auto = colorize if stdout is a tty and tests are run
                        on serially (default);
                        always = always colorize output;
                        never = never colorize output;
        --format pretty|terse|json|junit
                        Configure formatting of output:
                        pretty = Print verbose output;
                        terse = Display one character per test;
                        json = Output a json document;
                        junit = Output a JUnit document
        --show-output   Show captured stdout of successful tests
    -Z unstable-options Enable nightly-only flags:
                        unstable-options = Allow use of experimental features
        --report-time   Show execution time of each test.
        --ensure-time   Treat excess of the test execution time limit as
                        error.
        --shuffle       Run tests in random order
        --shuffle-seed SEED
                        Run tests in random order; seed the random number
                        generator with SEED


The FILTER string is tested against the name of all tests, and only those
tests whose names contain the filter are run. Multiple filter strings may
be passed, which will run all tests matching any of the filters.
";

/// The harness's help.
pub fn libtest_help_output(program: &str) -> (r: String)
    ensures
        r@ == "Usage: "@ + program@ + HELP_BODY@,
{
    let mut out: String = "Usage: ".to_owned();
    out.push_str(program);
    out.push_str(HELP_BODY);
    out
}

// ---------------------------------------------------------------------------
// Reading listings.

/// A test without metadata.
pub open spec fn plain_case(name: Seq<char>, kind: TestCaseKind) -> TestCaseView {
    TestCaseView { name, kind, ignored: false, ignore_message: None, location: None }
}

/// The test that a line of a text listing names: `name: test` or
/// `name: benchmark`.
pub open spec fn text_case(line: Seq<char>) -> Option<TestCaseView> {
    let line = text::trim_end(line);
    match text::strip_suffix(line, ": test"@) {
        Some(name) => if name.len() == 0 {
            None
        } else {
            Some(plain_case(name, TestCaseKind::Test))
        },
        None => match text::strip_suffix(line, ": benchmark"@) {
            Some(name) => if name.len() == 0 {
                None
            } else {
                Some(plain_case(name, TestCaseKind::Benchmark))
            },
            None => None,
        },
    }
}

/// The test that a line of a text listing names.
fn read_text_case(line: &[char]) -> (r: Option<TestCase>)
    ensures
        r is Some <==> text_case(line@) is Some,
        r matches Some(case) ==> text_case(line@) == Some(case@),
{
    let line: Vec<char> = trim_end_chars(line);
    let (name, kind) = match strip_suffix_chars(line.as_slice(), ": test") {
        Some(name) => (name, TestCaseKind::Test),
        None => match strip_suffix_chars(line.as_slice(), ": benchmark") {
            Some(name) => (name, TestCaseKind::Benchmark),
            None => {
                return None;
            },
        },
    };
    if name.len() == 0 {
        return None;
    }
    Some(TestCase::new(string_of(name.as_slice()), kind, false))
}

/// The test that an object of a JSON listing announces. Discovery says so in its
/// event; an object without an event counts too.
pub open spec fn listed_case(fields: json::FieldsView) -> Option<TestCaseView> {
    match (
        json::required_text(fields, "type"@),
        json::optional_text(fields, "event"@),
        json::optional_text(fields, "name"@),
        json::flag(fields, "ignore"@),
        json::optional_text(fields, "ignore_message"@),
        listed_location(fields),
    ) {
        (
            Some(kind),
            Some(event),
            Some(Some(name)),
            Some(ignored),
            Some(ignore_message),
            Some(location),
        ) => if (kind == "test"@ || kind == "benchmark"@) && (event is None || event == Some(
            "discovered"@,
        )) {
            Some(
                TestCaseView {
                    name,
                    kind: if kind == "test"@ {
                        TestCaseKind::Test
                    } else {
                        TestCaseKind::Benchmark
                    },
                    ignored,
                    ignore_message,
                    location,
                },
            )
        } else {
            None
        },
        _ => None,
    }
}

/// The place that an object of a JSON listing names: it takes a path and all four
/// numbers. The outer `None` is an object with members of the wrong kind.
pub open spec fn listed_location(fields: json::FieldsView) -> Option<Option<LocationView>> {
    match (
        json::optional_text(fields, "source_path"@),
        json::optional_count(fields, "start_line"@),
        json::optional_count(fields, "start_col"@),
        json::optional_count(fields, "end_line"@),
        json::optional_count(fields, "end_col"@),
    ) {
        (Some(path), Some(start_line), Some(start_col), Some(end_line), Some(end_col)) => Some(
            match (path, start_line, start_col, end_line, end_col) {
                (
                    Some(source_path),
                    Some(start_line),
                    Some(start_col),
                    Some(end_line),
                    Some(end_col),
                ) => Some(LocationView { source_path, start_line, start_col, end_line, end_col }),
                _ => None,
            },
        ),
        _ => None,
    }
}

fn read_listed_location(fields: &[(String, JsonField)]) -> (r: Option<Option<TestCaseLocation>>)
    ensures
        r is Some <==> listed_location(json::field_views(fields@)) is Some,
        r matches Some(None) ==> listed_location(json::field_views(fields@)) == Some(
            None::<LocationView>,
        ),
        r matches Some(Some(l)) ==> listed_location(json::field_views(fields@)) == Some(
            Some(
                LocationView {
                    source_path: l.source_path@,
                    start_line: l.start_line,
                    start_col: l.start_col,
                    end_line: l.end_line,
                    end_col: l.end_col,
                },
            ),
        ),
{
    let path: Option<String> = read_optional_text(fields, "source_path")?;
    let start_line: Option<u64> = read_optional_count(fields, "start_line")?;
    let start_col: Option<u64> = read_optional_count(fields, "start_col")?;
    let end_line: Option<u64> = read_optional_count(fields, "end_line")?;
    let end_col: Option<u64> = read_optional_count(fields, "end_col")?;
    match (path, start_line, start_col, end_line, end_col) {
        (Some(source_path), Some(start_line), Some(start_col), Some(end_line), Some(end_col)) => {
            Some(
                Some(TestCaseLocation { source_path, start_line, start_col, end_line, end_col }),
            )
        },
        _ => Some(None),
    }
}

/// The test that an object of a JSON listing announces.
pub fn read_listed_case(fields: &[(String, JsonField)]) -> (r: Option<TestCase>)
    ensures
        r is Some <==> listed_case(json::field_views(fields@)) is Some,
        r matches Some(case) ==> listed_case(json::field_views(fields@)) == Some(case@),
{
    let kind: String = read_required_text(fields, "type")?;
    let event: Option<String> = read_optional_text(fields, "event")?;
    let name: Option<String> = read_optional_text(fields, "name")?;
    let ignored: bool = read_flag(fields, "ignore")?;
    let ignore_message: Option<String> = read_optional_text(fields, "ignore_message")?;
    let location: Option<TestCaseLocation> = read_listed_location(fields)?;
    let kind: TestCaseKind = if str_eq(kind.as_str(), "test") {
        TestCaseKind::Test
    } else if str_eq(kind.as_str(), "benchmark") {
        TestCaseKind::Benchmark
    } else {
        return None;
    };
    if let Some(event) = event {
        if !str_eq(event.as_str(), "discovered") {
            return None;
        }
    }
    match name {
        Some(name) => Some(
            TestCase { name, kind, ignored, metadata: TestCaseMetadata { ignore_message, location } },
        ),
        None => None,
    }
}

/// The test that a line of a JSON listing announces.
pub open spec fn json_case(line: Seq<char>) -> Option<TestCaseView> {
    let line = text::trim(line);
    if line.len() == 0 {
        None
    } else {
        match json::line_fields(line) {
            Some(fields) => listed_case(fields),
            None => None,
        }
    }
}

fn read_json_case(line: &[char]) -> (r: Option<TestCase>)
    ensures
        r is Some <==> json_case(line@) is Some,
        r matches Some(case) ==> json_case(line@) == Some(case@),
        text::trim(line@).len() > 0 ==> json::reads_as_written(text::trim(line@)),
{
    let line: Vec<char> = trim_chars(line);
    if line.len() == 0 {
        return None;
    }
    let line: String = string_of(line.as_slice());
    match json_fields(line.as_str()) {
        Some(fields) => read_listed_case(fields.as_slice()),
        None => None,
    }
}

/// The test that a line of a listing names.
pub open spec fn line_case(format: ListFormat, line: Seq<char>) -> Option<TestCaseView> {
    match format {
        ListFormat::Text => text_case(line),
        ListFormat::Json => json_case(line),
    }
}

/// The tests that the first `n` lines of a listing name and that the policy runs,
/// in order.
pub open spec fn cases_in(
    format: ListFormat,
    lines: Seq<Seq<char>>,
    policy: IgnoredPolicy,
    n: nat,
) -> Seq<TestCaseView>
    decreases n,
{
    if n == 0 {
        Seq::empty()
    } else {
        let before = cases_in(format, lines, policy, (n - 1) as nat);
        match line_case(format, lines[n - 1]) {
            Some(case) => if policy.spec_selects(case.ignored) {
                before.push(case)
            } else {
                before
            },
            None => before,
        }
    }
}

/// The tests that a listing names and that the policy runs.
pub open spec fn cases_of(format: ListFormat, output: Seq<char>, policy: IgnoredPolicy) -> Seq<
    TestCaseView,
> {
    cases_in(format, text::lines(output), policy, text::lines(output).len())
}

/// Reads the output of a listing. A JSON listing that the runner shows reads as the
/// tests that it shows and that the policy runs.
pub fn parse_listing(format: ListFormat, stdout: &[u8], policy: IgnoredPolicy) -> (r: Result<
    Vec<TestCase>,
    ListingParseError,
>)
    ensures
        r is Err <==> !valid_utf8(stdout@),
        r matches Err(e) ==> e == ListingParseError::NotUtf8,
        r matches Ok(cases) ==> listing::case_views(cases@) == cases_of(
            format,
            decode_utf8(stdout@),
            policy,
        ),
        forall|cases: Seq<TestCaseView>|
            #![trigger json_listing(cases)]
            format is Json && valid_utf8(stdout@) && decode_utf8(stdout@) == json_listing(cases)
                && cases.len() <= u64::MAX ==> (r matches Ok(read) && listing::case_views(read@)
                == listing_laws::selected(cases, policy)),
{
    let output: String = match utf8_text(slice_to_vec(stdout)) {
        Some(output) => output,
        None => {
            return Err(ListingParseError::NotUtf8);
        },
    };
    let cs: Vec<char> = chars_of(output.as_str());
    let lines: Vec<Vec<char>> = lines_of(cs.as_slice());
    let ghost all = text::lines(output@);
    let mut out: Vec<TestCase> = Vec::new();
    let mut i: usize = 0;
    proof {
        assert(listing::case_views(out@) =~= Seq::<TestCaseView>::empty());
    }
    while i < lines.len()
        invariant
            i <= lines.len(),
            text::texts(lines@) == all,
            listing::case_views(out@) == cases_in(format, all, policy, i as nat),
            format is Json ==> forall|k: int|
                0 <= k < i && text::trim(#[trigger] all[k]).len() > 0 ==> json::reads_as_written(
                    text::trim(all[k]),
                ),
        decreases lines.len() - i,
    {
        let ghost before = out@;
        let read: Option<TestCase> = match format {
            ListFormat::Text => read_text_case(lines[i].as_slice()),
            ListFormat::Json => read_json_case(lines[i].as_slice()),
        };
        proof {
            assert(text::texts(lines@)[i as int] == lines@[i as int]@);
        }
        if let Some(case) = read {
            if policy.selects(case.ignored) {
                out.push(case);
                proof {
                    assert(listing::case_views(out@) =~= listing::case_views(before).push(case@));
                }
            }
        }
        i += 1;
    }
    proof {
        assert(text::texts(lines@).len() == lines@.len());
        assert forall|cases: Seq<TestCaseView>|
            format is Json && valid_utf8(stdout@) && decode_utf8(stdout@)
                == #[trigger] json_listing(cases) && cases.len()
                <= u64::MAX implies listing::case_views(out@) == listing_laws::selected(
            cases,
            policy,
        ) by {
            assert(listing_laws::lines_read_as_written(json_listing(cases)));
            listing_laws::lemma_shown_objects_read_back(cases, policy);
        }
    }
    Ok(out)
}

// ---------------------------------------------------------------------------
// Showing listings.

/// How many of the tests are of a kind.
pub open spec fn kind_count(cases: Seq<TestCaseView>, kind: TestCaseKind) -> nat
    decreases cases.len(),
{
    if cases.len() == 0 {
        0
    } else {
        kind_count(cases.drop_last(), kind) + if cases.last().kind == kind {
            1nat
        } else {
            0nat
        }
    }
}

/// How many of the tests are ignored.
pub open spec fn ignored_count(cases: Seq<TestCaseView>) -> nat
    decreases cases.len(),
{
    if cases.len() == 0 {
        0
    } else {
        ignored_count(cases.drop_last()) + if cases.last().ignored {
            1nat
        } else {
            0nat
        }
    }
}

fn count_cases(tests: &[TestCase]) -> (r: (usize, usize, usize))
    ensures
        r.0 == kind_count(listing::case_views(tests@), TestCaseKind::Test),
        r.1 == kind_count(listing::case_views(tests@), TestCaseKind::Benchmark),
        r.2 == ignored_count(listing::case_views(tests@)),
        r.0 + r.1 == tests@.len(),
{
    let ghost all = listing::case_views(tests@);
    let mut plain: usize = 0;
    let mut benchmarks: usize = 0;
    let mut ignored: usize = 0;
    let mut i: usize = 0;
    while i < tests.len()
        invariant
            i <= tests.len(),
            all == listing::case_views(tests@),
            plain == kind_count(all.take(i as int), TestCaseKind::Test),
            benchmarks == kind_count(all.take(i as int), TestCaseKind::Benchmark),
            ignored == ignored_count(all.take(i as int)),
            plain + benchmarks == i,
            ignored <= i,
        decreases tests.len() - i,
    {
        proof {
            assert(all.take(i + 1).drop_last() =~= all.take(i as int));
            assert(all.take(i + 1).last() == tests@[i as int]@);
        }
        match tests[i].kind {
            TestCaseKind::Test => {
                plain += 1;
            },
            TestCaseKind::Benchmark => {
                benchmarks += 1;
            },
        }
        if tests[i].ignored {
            ignored += 1;
        }
        i += 1;
    }
    proof {
        assert(all.take(i as int) =~= all);
    }
    (plain, benchmarks, ignored)
}

/// The line of a text listing for a test.
pub open spec fn text_line(case: TestCaseView) -> Seq<char> {
    case.name + match case.kind {
        TestCaseKind::Test => ": test\n"@,
        TestCaseKind::Benchmark => ": benchmark\n"@,
    }
}

/// The lines of a text listing.
pub open spec fn text_lines(cases: Seq<TestCaseView>) -> Seq<char>
    decreases cases.len(),
{
    if cases.len() == 0 {
        Seq::empty()
    } else {
        text_lines(cases.drop_last()) + text_line(cases.last())
    }
}

/// The word for one or for several.
pub open spec fn counted(count: nat, one: Seq<char>, several: Seq<char>) -> Seq<char> {
    text::decimal(count) + " "@ + if count == 1 {
        one
    } else {
        several
    }
}

/// The summary of a text listing.
pub open spec fn text_summary(cases: Seq<TestCaseView>) -> Seq<char> {
    "\n"@ + counted(kind_count(cases, TestCaseKind::Test), "test"@, "tests"@) + ", "@ + counted(
        kind_count(cases, TestCaseKind::Benchmark),
        "benchmark"@,
        "benchmarks"@,
    ) + "\n"@
}

fn plural(count: usize, one: &'static str, several: &'static str) -> (r: &'static str)
    ensures
        r@ == (if count == 1 {
            one@
        } else {
            several@
        }),
{
    if count == 1 {
        one
    } else {
        several
    }
}

fn libtest_text_list_output(tests: &[TestCase], summary: bool) -> (r: String)
    ensures
        r@ == text_lines(listing::case_views(tests@)) + if summary {
            text_summary(listing::case_views(tests@))
        } else {
            Seq::empty()
        },
{
    let ghost all = listing::case_views(tests@);
    let mut out: String = String::new();
    let mut i: usize = 0;
    while i < tests.len()
        invariant
            i <= tests.len(),
            all == listing::case_views(tests@),
            out@ == text_lines(all.take(i as int)),
        decreases tests.len() - i,
    {
        proof {
            assert(all.take(i + 1).drop_last() =~= all.take(i as int));
            assert(all.take(i + 1).last() == tests@[i as int]@);
        }
        let ghost before = out@;
        out.push_str(tests[i].name.as_str());
        match tests[i].kind {
            TestCaseKind::Test => out.push_str(": test\n"),
            TestCaseKind::Benchmark => out.push_str(": benchmark\n"),
        }
        proof {
            assert(out@ =~= before + text_line(tests@[i as int]@));
        }
        i += 1;
    }
    proof {
        assert(all.take(i as int) =~= all);
    }
    let ghost head = out@;
    if summary {
        let counts: (usize, usize, usize) = count_cases(tests);
        out.push_str("\n");
        out.push_str(decimal_text(counts.0 as u64).as_str());
        out.push_str(" ");
        out.push_str(plural(counts.0, "test", "tests"));
        out.push_str(", ");
        out.push_str(decimal_text(counts.1 as u64).as_str());
        out.push_str(" ");
        out.push_str(plural(counts.1, "benchmark", "benchmarks"));
        out.push_str("\n");
        proof {
            assert(out@ =~= head + text_summary(all));
        }
    } else {
        proof {
            assert(out@ =~= head + Seq::<char>::empty());
        }
    }
    out
}

/// The object of a JSON listing for a test.
pub open spec fn json_line(case: TestCaseView) -> Seq<char> {
    "{ \"type\": \""@ + (match case.kind {
        TestCaseKind::Test => "test"@,
        TestCaseKind::Benchmark => "benchmark"@,
    }) + "\", \"event\": \"discovered\", \"name\": "@ + json::json_quoted(case.name)
        + ", \"ignore\": "@ + (if case.ignored {
        "true"@
    } else {
        "false"@
    }) + (match case.ignore_message {
        Some(message) => ", \"ignore_message\": "@ + json::json_quoted(message),
        None => Seq::empty(),
    }) + (match case.location {
        Some(location) => json_location(location),
        None => Seq::empty(),
    }) + " }\n"@
}

/// The members of a JSON listing that say where a test stands.
pub open spec fn json_location(l: LocationView) -> Seq<char> {
    ", \"source_path\": "@ + json::json_quoted(l.source_path) + ", \"start_line\": "@
        + text::decimal(l.start_line as nat) + ", \"start_col\": "@ + text::decimal(
        l.start_col as nat,
    ) + ", \"end_line\": "@ + text::decimal(l.end_line as nat) + ", \"end_col\": "@
        + text::decimal(l.end_col as nat)
}

/// The objects of a JSON listing.
pub open spec fn json_lines(cases: Seq<TestCaseView>) -> Seq<char>
    decreases cases.len(),
{
    if cases.len() == 0 {
        Seq::empty()
    } else {
        json_lines(cases.drop_last()) + json_line(cases.last())
    }
}

/// A JSON listing: an opening object, one object per test, a closing object.
pub open spec fn json_listing(cases: Seq<TestCaseView>) -> Seq<char> {
    "{ \"type\": \"suite\", \"event\": \"discovery\" }\n"@ + json_lines(cases)
        + "{ \"type\": \"suite\", \"event\": \"completed\", \"tests\": "@ + text::decimal(
        kind_count(cases, TestCaseKind::Test),
    ) + ", \"benchmarks\": "@ + text::decimal(kind_count(cases, TestCaseKind::Benchmark))
        + ", \"total\": "@ + text::decimal(cases.len()) + ", \"ignored\": "@ + text::decimal(
        ignored_count(cases),
    ) + " }\n"@
}

fn json_message_text(message: &Option<String>) -> (r: String)
    ensures
        r@ == (match json::text_view(*message) {
            Some(message) => ", \"ignore_message\": "@ + json::json_quoted(message),
            None => Seq::empty(),
        }),
{
    match message {
        Some(message) => {
            let mut out: String = ", \"ignore_message\": ".to_owned();
            out.push_str(json_string(message.as_str()).as_str());
            out
        },
        None => String::new(),
    }
}

fn json_location_text(location: &TestCaseLocation) -> (r: String)
    ensures
        r@ == json_location(
            LocationView {
                source_path: location.source_path@,
                start_line: location.start_line,
                start_col: location.start_col,
                end_line: location.end_line,
                end_col: location.end_col,
            },
        ),
{
    let mut out: String = ", \"source_path\": ".to_owned();
    out.push_str(json_string(location.source_path.as_str()).as_str());
    out.push_str(", \"start_line\": ");
    out.push_str(decimal_text(location.start_line).as_str());
    out.push_str(", \"start_col\": ");
    out.push_str(decimal_text(location.start_col).as_str());
    out.push_str(", \"end_line\": ");
    out.push_str(decimal_text(location.end_line).as_str());
    out.push_str(", \"end_col\": ");
    out.push_str(decimal_text(location.end_col).as_str());
    out
}

fn json_line_text(test: &TestCase) -> (r: String)
    ensures
        r@ == json_line(test@),
{
    let mut out: String = "{ \"type\": \"".to_owned();
    match test.kind {
        TestCaseKind::Test => out.push_str("test"),
        TestCaseKind::Benchmark => out.push_str("benchmark"),
    }
    out.push_str("\", \"event\": \"discovered\", \"name\": ");
    out.push_str(json_string(test.name.as_str()).as_str());
    out.push_str(", \"ignore\": ");
    if test.ignored {
        out.push_str("true");
    } else {
        out.push_str("false");
    }
    out.push_str(json_message_text(&test.metadata.ignore_message).as_str());
    let location: String = match &test.metadata.location {
        Some(location) => json_location_text(location),
        None => String::new(),
    };
    out.push_str(location.as_str());
    out.push_str(" }\n");
    out
}

fn libtest_json_list_output(tests: &[TestCase]) -> (r: String)
    ensures
        r@ == json_listing(listing::case_views(tests@)),
{
    let ghost all = listing::case_views(tests@);
    let ghost opening = "{ \"type\": \"suite\", \"event\": \"discovery\" }\n"@;
    let mut out: String = "{ \"type\": \"suite\", \"event\": \"discovery\" }\n".to_owned();
    let mut i: usize = 0;
    proof {
        assert(opening + json_lines(all.take(0)) =~= opening);
    }
    while i < tests.len()
        invariant
            i <= tests.len(),
            all == listing::case_views(tests@),
            out@ == opening + json_lines(all.take(i as int)),
        decreases tests.len() - i,
    {
        proof {
            assert(all.take(i + 1).drop_last() =~= all.take(i as int));
            assert(all.take(i + 1).last() == tests@[i as int]@);
        }
        let ghost before = out@;
        let line: String = json_line_text(&tests[i]);
        out.push_str(line.as_str());
        proof {
            assert(out@ =~= opening + json_lines(all.take(i + 1)));
        }
        i += 1;
    }
    proof {
        assert(all.take(i as int) =~= all);
    }
    let counts: (usize, usize, usize) = count_cases(tests);
    out.push_str("{ \"type\": \"suite\", \"event\": \"completed\", \"tests\": ");
    out.push_str(decimal_text(counts.0 as u64).as_str());
    out.push_str(", \"benchmarks\": ");
    out.push_str(decimal_text(counts.1 as u64).as_str());
    out.push_str(", \"total\": ");
    out.push_str(decimal_text((counts.0 + counts.1) as u64).as_str());
    out.push_str(", \"ignored\": ");
    out.push_str(decimal_text(counts.2 as u64).as_str());
    out.push_str(" }\n");
    proof {
        assert(out@ =~= json_listing(all));
    }
    out
}

/// A listing as the user asked to see it.
pub open spec fn list_output(user: UserArgsView, cases: Seq<TestCaseView>) -> Seq<char> {
    match list_format_for(user.output_format) {
        LibtestListOutputFormat::Text { summary } => text_lines(cases) + if summary {
            text_summary(cases)
        } else {
            Seq::empty()
        },
        LibtestListOutputFormat::Json => json_listing(cases),
    }
}

/// Shows a listing as the user's arguments ask.
pub fn libtest_list_output(user_args: &[String], tests: &[TestCase]) -> (r: String)
    ensures
        r@ == list_output(
            self::user_args(text::views(user_args@)),
            listing::case_views(tests@),
        ),
{
    match LibtestUserArgs::parse(user_args).list_output_format() {
        LibtestListOutputFormat::Text { summary } => libtest_text_list_output(tests, summary),
        LibtestListOutputFormat::Json => libtest_json_list_output(tests),
    }
}

// ---------------------------------------------------------------------------
// Decoding runs.

/// An outcome and the name of its test.
pub open spec fn outcome(name: Seq<char>, status: TestVerdict, details: Seq<char>) -> Option<
    (Seq<char>, ObservationView),
> {
    Some((name, ObservationView { status, details }))
}

/// The verdict behind an event of a JSON run; `None` is a test that only starts.
pub open spec fn event_verdict(event: Seq<char>) -> Option<TestVerdict> {
    if event == "ok"@ {
        Some(TestVerdict::Pass)
    } else if event == "failed"@ {
        Some(TestVerdict::Fail)
    } else if event == "ignored"@ {
        Some(TestVerdict::Skip)
    } else if event == "started"@ {
        None
    } else {
        Some(TestVerdict::Fatal)
    }
}

/// The outcome that an object of a JSON run reports. A benchmark reports only when
/// it is done; of a test the terminal events count. Captured output goes before a
/// message.
pub open spec fn reported_outcome(fields: json::FieldsView) -> Option<
    (Seq<char>, ObservationView),
> {
    match (
        json::required_text(fields, "type"@),
        json::optional_text(fields, "name"@),
        json::optional_text(fields, "event"@),
        json::optional_text(fields, "stdout"@),
        json::optional_text(fields, "message"@),
    ) {
        (Some(kind), Some(name), Some(event), Some(stdout), Some(message)) => if kind == "bench"@ {
            match name {
                Some(name) => outcome(name, TestVerdict::Pass, Seq::empty()),
                None => None,
            }
        } else if kind == "test"@ && name is Some && event is Some && event_verdict(
            event->0,
        ) is Some {
            outcome(
                name->0,
                event_verdict(event->0)->0,
                match (stdout, message) {
                    (Some(stdout), _) => stdout,
                    (None, Some(message)) => message,
                    (None, None) => Seq::empty(),
                },
            )
        } else {
            None
        },
        _ => None,
    }
}

/// Whether what was read is the outcome.
pub open spec fn is_outcome(
    r: Option<(String, PerTestObservation)>,
    expected: Option<(Seq<char>, ObservationView)>,
) -> bool {
    match r {
        Some(pair) => expected == Some((pair.0@, pair.1@)),
        None => expected is None,
    }
}

/// The outcome that an object of a JSON run reports.
pub fn read_reported_outcome(fields: &[(String, JsonField)]) -> (r: Option<
    (String, PerTestObservation),
>)
    ensures
        is_outcome(r, reported_outcome(json::field_views(fields@))),
{
    let kind: String = read_required_text(fields, "type")?;
    let name: Option<String> = read_optional_text(fields, "name")?;
    let event: Option<String> = read_optional_text(fields, "event")?;
    let stdout: Option<String> = read_optional_text(fields, "stdout")?;
    let message: Option<String> = read_optional_text(fields, "message")?;
    if str_eq(kind.as_str(), "bench") {
        return match name {
            Some(name) => Some(
                (name, PerTestObservation { status: TestVerdict::Pass, details: String::new() }),
            ),
            None => None,
        };
    }
    if !str_eq(kind.as_str(), "test") {
        return None;
    }
    let name: String = name?;
    let event: String = event?;
    let event: &str = event.as_str();
    let status: TestVerdict = if str_eq(event, "ok") {
        TestVerdict::Pass
    } else if str_eq(event, "failed") {
        TestVerdict::Fail
    } else if str_eq(event, "ignored") {
        TestVerdict::Skip
    } else if str_eq(event, "started") {
        return None;
    } else {
        TestVerdict::Fatal
    };
    let details: String = match stdout {
        Some(stdout) => stdout,
        None => match message {
            Some(message) => message,
            None => String::new(),
        },
    };
    Some((name, PerTestObservation { status, details }))
}

/// The outcome that a line of a JSON run reports.
pub open spec fn json_outcome(line: Seq<char>) -> Option<(Seq<char>, ObservationView)> {
    let line = text::trim(line);
    if line.len() == 0 {
        None
    } else {
        match json::line_fields(line) {
            Some(fields) => reported_outcome(fields),
            None => None,
        }
    }
}

fn read_json_outcome(line: &[char]) -> (r: Option<(String, PerTestObservation)>)
    ensures
        is_outcome(r, json_outcome(line@)),
        text::trim(line@).len() > 0 ==> json::reads_as_written(text::trim(line@)),
{
    let line: Vec<char> = trim_chars(line);
    if line.len() == 0 {
        return None;
    }
    let line: String = string_of(line.as_slice());
    match json_fields(line.as_str()) {
        Some(fields) => read_reported_outcome(fields.as_slice()),
        None => None,
    }
}

/// The failure block of a test: what stands behind its `---- name stdout ----`
/// header, up to the next header or else the closing `failures:`.
pub open spec fn failure_block(stdout: Seq<char>, name: Seq<char>) -> Option<Seq<char>> {
    let header = "---- "@ + name + " stdout ----"@;
    match text::find_text(stdout, header, 0) {
        Some(start) => {
            let after = stdout.skip(start + header.len());
            let end = match text::find_text(after, "\n---- "@, 0) {
                Some(end) => end,
                None => match text::find_text(after, "\nfailures:"@, 0) {
                    Some(end) => end,
                    None => after.len() as int,
                },
            };
            Some(text::trim(after.take(end)))
        },
        None => None,
    }
}

fn extract_failure_block(stdout: &[char], name: &[char]) -> (r: Option<String>)
    ensures
        json::text_view(r) == failure_block(stdout@, name@),
{
    let mut header: Vec<char> = chars_of("---- ");
    text::push_all(&mut header, name);
    text::push_all(&mut header, chars_of(" stdout ----").as_slice());
    match find_text_chars(stdout, header.as_slice(), 0) {
        Some(start) => {
            let total: usize = stdout.len();
            let after: Vec<char> = slice_of(stdout, start + header.len(), total);
            proof {
                assert(after@ =~= stdout@.skip(start + header@.len()));
            }
            let end: usize = match find_text_chars(
                after.as_slice(),
                chars_of("\n---- ").as_slice(),
                0,
            ) {
                Some(end) => end,
                None => match find_text_chars(
                    after.as_slice(),
                    chars_of("\nfailures:").as_slice(),
                    0,
                ) {
                    Some(end) => end,
                    None => after.len(),
                },
            };
            let block: Vec<char> = slice_of(after.as_slice(), 0, end);
            proof {
                assert(block@ =~= after@.take(end as int));
            }
            Some(string_of(trim_chars(block.as_slice()).as_slice()))
        },
        None => None,
    }
}

/// The first word of a text.
pub open spec fn first_word(s: Seq<char>) -> Seq<char> {
    if text::words(s).len() > 0 {
        text::words(s)[0]
    } else {
        Seq::empty()
    }
}

/// The verdict that the end of a text line names.
pub open spec fn token_verdict(token: Seq<char>) -> Option<TestVerdict> {
    if "bench:"@.is_prefix_of(text::trim(token)) {
        Some(TestVerdict::Pass)
    } else if first_word(text::trim(token)) == "ok"@ {
        Some(TestVerdict::Pass)
    } else if first_word(text::trim(token)) == "FAILED"@ {
        Some(TestVerdict::Fail)
    } else if first_word(text::trim(token)) == "ignored"@ {
        Some(TestVerdict::Skip)
    } else {
        None
    }
}

fn read_token_verdict(token: &[char]) -> (r: Option<TestVerdict>)
    ensures
        r == token_verdict(token@),
{
    let token: Vec<char> = trim_chars(token);
    if starts_with(token.as_slice(), "bench:") {
        return Some(TestVerdict::Pass);
    }
    let words: Vec<Vec<char>> = words_of(token.as_slice());
    proof {
        assert(text::texts(words@).len() == words@.len());
    }
    let first: Vec<char> = if words.len() > 0 {
        proof {
            assert(text::texts(words@)[0] == words@[0]@);
        }
        slice_of(words[0].as_slice(), 0, words[0].len())
    } else {
        Vec::new()
    };
    proof {
        assert(first@ =~= first_word(token@));
    }
    if chars_eq(first.as_slice(), "ok") {
        Some(TestVerdict::Pass)
    } else if chars_eq(first.as_slice(), "FAILED") {
        Some(TestVerdict::Fail)
    } else if chars_eq(first.as_slice(), "ignored") {
        Some(TestVerdict::Skip)
    } else {
        None
    }
}

/// What is said of a failed test: its failure block, or else the error output.
pub open spec fn failure_details(
    stdout: Seq<char>,
    stderr: Seq<char>,
    name: Seq<char>,
) -> Seq<char> {
    match failure_block(stdout, name) {
        Some(block) => block,
        None => if stderr.len() == 0 {
            Seq::empty()
        } else {
            "---- stderr ----\n"@ + stderr
        },
    }
}

/// The outcome that a line `test <name> ... <status>` of a text run reports.
pub open spec fn text_outcome(stdout: Seq<char>, stderr: Seq<char>, line: Seq<char>) -> Option<
    (Seq<char>, ObservationView),
> {
    match text::strip_prefix(line, "test "@) {
        Some(rest) => match text::rsplit_once_text(rest, " ... "@) {
            Some(parts) => match token_verdict(parts.1) {
                Some(status) => outcome(
                    parts.0,
                    status,
                    if status == TestVerdict::Fail {
                        failure_details(stdout, stderr, parts.0)
                    } else {
                        Seq::empty()
                    },
                ),
                None => None,
            },
            None => None,
        },
        None => None,
    }
}

fn read_text_outcome(stdout: &[char], stderr: &str, line: &[char]) -> (r: Option<
    (String, PerTestObservation),
>)
    ensures
        is_outcome(r, text_outcome(stdout@, stderr@, line@)),
{
    let rest: Vec<char> = strip_prefix_chars(line, "test ")?;
    let parts: (Vec<char>, Vec<char>) = rsplit_once_text_chars(rest.as_slice(), " ... ")?;
    let status: TestVerdict = read_token_verdict(parts.1.as_slice())?;
    let details: String = if status == TestVerdict::Fail {
        match extract_failure_block(stdout, parts.0.as_slice()) {
            Some(block) => block,
            None => {
                if chars_of(stderr).len() == 0 {
                    String::new()
                } else {
                    let mut out: String = "---- stderr ----\n".to_owned();
                    out.push_str(stderr);
                    out
                }
            },
        }
    } else {
        String::new()
    };
    Some((string_of(parts.0.as_slice()), PerTestObservation { status, details }))
}

/// The outcome that a line of a run reports.
pub open spec fn line_outcome(
    format: RunFormat,
    stdout: Seq<char>,
    stderr: Seq<char>,
    line: Seq<char>,
) -> Option<(Seq<char>, ObservationView)> {
    match format {
        RunFormat::Json => json_outcome(line),
        RunFormat::Text => text_outcome(stdout, stderr, line),
    }
}

/// The outcomes that the first `n` lines of a run report, the last one of each
/// test.
pub open spec fn outcomes_in(
    format: RunFormat,
    stdout: Seq<char>,
    stderr: Seq<char>,
    n: nat,
) -> Map<Seq<char>, ObservationView>
    decreases n,
{
    if n == 0 {
        Map::empty()
    } else {
        let before = outcomes_in(format, stdout, stderr, (n - 1) as nat);
        match line_outcome(format, stdout, stderr, text::lines(stdout)[n - 1]) {
            Some(o) => before.insert(o.0, o.1),
            None => before,
        }
    }
}

/// The outcomes that the output of a run reports.
pub open spec fn outcomes_of(format: RunFormat, stdout: Seq<u8>, stderr: Seq<u8>) -> Map<
    Seq<char>,
    ObservationView,
> {
    outcomes_in(
        format,
        text::utf8_lossy(stdout),
        text::utf8_lossy(stderr),
        text::lines(text::utf8_lossy(stdout)).len(),
    )
}

/// Decodes the output of a run into one outcome per test.
pub fn libtest_decode(format: RunFormat, stdout: &[u8], stderr: &[u8]) -> (r: NameMap<
    PerTestObservation,
>)
    ensures
        observation_views(r@) == outcomes_of(format, stdout@, stderr@),
        valid_utf8(stdout@) ==> text::utf8_lossy(stdout@) == decode_utf8(stdout@),
        format is Json ==> listing_laws::lines_read_as_written(text::utf8_lossy(stdout@)),
{
    let stdout: String = lossy_text(stdout);
    let stderr: String = lossy_text(stderr);
    let cs: Vec<char> = chars_of(stdout.as_str());
    let lines: Vec<Vec<char>> = lines_of(cs.as_slice());
    let mut out: NameMap<PerTestObservation> = NameMap::new();
    let mut i: usize = 0;
    proof {
        assert(observation_views(out@) =~= Map::<Seq<char>, ObservationView>::empty());
    }
    while i < lines.len()
        invariant
            i <= lines.len(),
            cs@ == stdout@,
            text::texts(lines@) == text::lines(stdout@),
            observation_views(out@) == outcomes_in(format, stdout@, stderr@, i as nat),
            format is Json ==> forall|k: int|
                0 <= k < i && text::trim(#[trigger] text::lines(stdout@)[k]).len() > 0
                    ==> json::reads_as_written(text::trim(text::lines(stdout@)[k])),
        decreases lines.len() - i,
    {
        proof {
            assert(text::texts(lines@)[i as int] == lines@[i as int]@);
        }
        let read: Option<(String, PerTestObservation)> = match format {
            RunFormat::Json => read_json_outcome(lines[i].as_slice()),
            RunFormat::Text => read_text_outcome(
                cs.as_slice(),
                stderr.as_str(),
                lines[i].as_slice(),
            ),
        };
        if let Some((name, observation)) = read {
            proof {
                lemma_observed(out@, name@, observation);
            }
            out.insert(name.as_str(), observation);
        }
        i += 1;
    }
    proof {
        assert(text::texts(lines@).len() == lines@.len());
    }
    out
}

/// A custom binary reports no test by name.
pub fn custom_binary_decode() -> (r: NameMap<PerTestObservation>)
    ensures
        (r@ == Map::<Seq<char>, PerTestObservation>::empty()),
{
    NameMap::new()
}

// ---------------------------------------------------------------------------
// The frameworks.

/// How a target's tests are discovered and fanned out.
#[derive(Debug, Clone, Copy)]
pub enum ListingStrategy {
    /// List the target in this format, then issue one (or one batched) execution
    /// per test.
    PerTestListing { format: ListFormat },
    /// No listing; one execution covers the whole target, reported under `name`.
    WholeTarget { name: &'static str },
    /// No listing; one execution runs the whole binary, reported under `name`.
    WholeBinary { name: &'static str },
}

/// What the runner knows of a test framework.
pub trait Translator {
    /// Whether the framework's targets choose their executors themselves.
    spec fn overrides_executors(&self) -> bool;

    /// Whether a run's output tells its tests apart.
    spec fn capability(&self) -> DemuxCapability;

    /// How tests are discovered.
    spec fn strategy(&self) -> ListingStrategy;

    /// Whether the framework reads libtest's flags.
    spec fn reads_libtest_flags(&self) -> bool;

    /// The arguments of a run.
    spec fn run_args(
        &self,
        names: Seq<Seq<char>>,
        ignored: IgnoredPolicy,
        user_args: Seq<Seq<char>>,
    ) -> Seq<Seq<char>>;

    /// The outcomes that a run's output reports.
    spec fn outcomes(&self, stdout: Seq<u8>, stderr: Seq<u8>) -> Map<Seq<char>, ObservationView>;

    /// Whether the framework's targets choose their executors themselves.
    fn declares_executor_overrides(&self) -> (r: bool)
        ensures
            r == self.overrides_executors(),
    ;

    /// Whether a run's output tells its tests apart.
    fn parser_capability(&self) -> (r: DemuxCapability)
        ensures
            r == self.capability(),
    ;

    /// How tests are discovered.
    fn listing_strategy(&self) -> (r: ListingStrategy)
        ensures
            r == self.strategy(),
    ;

    /// Whether flags meant for libtest go to the framework.
    fn takes_libtest_flags(&self) -> (r: bool)
        ensures
            r == self.reads_libtest_flags(),
    ;

    /// The arguments of a run.
    fn execution_args(&self, names: &[&str], ignored: IgnoredPolicy, user_args: &[String]) -> (r:
        Vec<String>)
        ensures
            text::views(r@) == self.run_args(
                name_texts(names@),
                ignored,
                text::views(user_args@),
            ),
    ;

    /// The outcomes that a run's output reports.
    fn parse_results(&self, stdout: &[u8], stderr: &[u8]) -> (r: NameMap<PerTestObservation>)
        ensures
            observation_views(r@) == self.outcomes(stdout@, stderr@),
    ;
}

/// Rust's built-in test harness.
#[derive(Debug, Clone, Copy)]
pub struct LibtestTranslator {
    pub list_format: ListFormat,
    pub run_format: RunFormat,
}

impl Translator for LibtestTranslator {
    open spec fn overrides_executors(&self) -> bool {
        false
    }

    open spec fn capability(&self) -> DemuxCapability {
        DemuxCapability::NameAttributable
    }

    open spec fn strategy(&self) -> ListingStrategy {
        ListingStrategy::PerTestListing { format: self.list_format }
    }

    open spec fn reads_libtest_flags(&self) -> bool {
        true
    }

    open spec fn run_args(
        &self,
        names: Seq<Seq<char>>,
        ignored: IgnoredPolicy,
        user_args: Seq<Seq<char>>,
    ) -> Seq<Seq<char>> {
        execution_args(names, ignored, self.run_format, self::user_args(user_args))
    }

    open spec fn outcomes(&self, stdout: Seq<u8>, stderr: Seq<u8>) -> Map<
        Seq<char>,
        ObservationView,
    > {
        outcomes_of(self.run_format, stdout, stderr)
    }

    fn declares_executor_overrides(&self) -> (r: bool) {
        false
    }

    fn parser_capability(&self) -> (r: DemuxCapability) {
        DemuxCapability::NameAttributable
    }

    fn listing_strategy(&self) -> (r: ListingStrategy) {
        ListingStrategy::PerTestListing { format: self.list_format }
    }

    fn takes_libtest_flags(&self) -> (r: bool) {
        true
    }

    fn execution_args(&self, names: &[&str], ignored: IgnoredPolicy, user_args: &[String]) -> (r:
        Vec<String>) {
        libtest_execution_args(names, ignored, self.run_format, user_args)
    }

    fn parse_results(&self, stdout: &[u8], stderr: &[u8]) -> (r: NameMap<PerTestObservation>) {
        libtest_decode(self.run_format, stdout, stderr)
    }
}

/// Rust's documentation tests: one run of the whole target.
#[derive(Debug, Clone, Copy)]
pub struct DoctestTranslator {
    pub run_format: RunFormat,
}

impl Translator for DoctestTranslator {
    open spec fn overrides_executors(&self) -> bool {
        false
    }

    open spec fn capability(&self) -> DemuxCapability {
        DemuxCapability::SingletonOnly
    }

    open spec fn strategy(&self) -> ListingStrategy {
        ListingStrategy::WholeTarget { name: DOCTEST_RESULT_NAME }
    }

    open spec fn reads_libtest_flags(&self) -> bool {
        true
    }

    open spec fn run_args(
        &self,
        names: Seq<Seq<char>>,
        ignored: IgnoredPolicy,
        user_args: Seq<Seq<char>>,
    ) -> Seq<Seq<char>> {
        whole_target_args(ignored, self.run_format, self::user_args(user_args))
    }

    open spec fn outcomes(&self, stdout: Seq<u8>, stderr: Seq<u8>) -> Map<
        Seq<char>,
        ObservationView,
    > {
        outcomes_of(self.run_format, stdout, stderr)
    }

    fn declares_executor_overrides(&self) -> (r: bool) {
        false
    }

    fn parser_capability(&self) -> (r: DemuxCapability) {
        DemuxCapability::SingletonOnly
    }

    fn listing_strategy(&self) -> (r: ListingStrategy) {
        ListingStrategy::WholeTarget { name: DOCTEST_RESULT_NAME }
    }

    fn takes_libtest_flags(&self) -> (r: bool) {
        true
    }

    fn execution_args(&self, _names: &[&str], ignored: IgnoredPolicy, user_args: &[String]) -> (r:
        Vec<String>) {
        doctest_execution_args(ignored, self.run_format, user_args)
    }

    fn parse_results(&self, stdout: &[u8], stderr: &[u8]) -> (r: NameMap<PerTestObservation>) {
        libtest_decode(self.run_format, stdout, stderr)
    }
}

/// A binary of its own making: one run, judged by its exit code.
#[derive(Debug, Clone, Copy)]
pub struct CustomBinaryTranslator;

impl Translator for CustomBinaryTranslator {
    open spec fn overrides_executors(&self) -> bool {
        true
    }

    open spec fn capability(&self) -> DemuxCapability {
        DemuxCapability::SingletonOnly
    }

    open spec fn strategy(&self) -> ListingStrategy {
        ListingStrategy::WholeBinary { name: BINARY_RESULT_NAME }
    }

    open spec fn reads_libtest_flags(&self) -> bool {
        false
    }

    open spec fn run_args(
        &self,
        names: Seq<Seq<char>>,
        ignored: IgnoredPolicy,
        user_args: Seq<Seq<char>>,
    ) -> Seq<Seq<char>> {
        user_args
    }

    open spec fn outcomes(&self, stdout: Seq<u8>, stderr: Seq<u8>) -> Map<
        Seq<char>,
        ObservationView,
    > {
        Map::empty()
    }

    fn declares_executor_overrides(&self) -> (r: bool) {
        true
    }

    fn parser_capability(&self) -> (r: DemuxCapability) {
        DemuxCapability::SingletonOnly
    }

    fn listing_strategy(&self) -> (r: ListingStrategy) {
        ListingStrategy::WholeBinary { name: BINARY_RESULT_NAME }
    }

    fn takes_libtest_flags(&self) -> (r: bool) {
        false
    }

    fn execution_args(&self, _names: &[&str], _ignored: IgnoredPolicy, user_args: &[String]) -> (r:
        Vec<String>) {
        let mut args: Vec<String> = custom_binary_execution_args();
        proof {
            assert(text::views(args@) =~= Seq::<Seq<char>>::empty());
        }
        push_texts(&mut args, user_args);
        proof {
            assert(text::views(args@) =~= text::views(user_args@));
        }
        args
    }

    fn parse_results(&self, _stdout: &[u8], _stderr: &[u8]) -> (r: NameMap<PerTestObservation>) {
        let none: NameMap<PerTestObservation> = custom_binary_decode();
        proof {
            assert(observation_views(none@) =~= Map::<Seq<char>, ObservationView>::empty());
        }
        none
    }
}

/// One of the known frameworks.
#[derive(Debug, Clone, Copy)]
pub enum FrameworkTranslator {
    Libtest(LibtestTranslator),
    Doctest(DoctestTranslator),
    CustomBinary(CustomBinaryTranslator),
}

impl Translator for FrameworkTranslator {
    open spec fn overrides_executors(&self) -> bool {
        match self {
            FrameworkTranslator::Libtest(t) => t.overrides_executors(),
            FrameworkTranslator::Doctest(t) => t.overrides_executors(),
            FrameworkTranslator::CustomBinary(t) => t.overrides_executors(),
        }
    }

    open spec fn capability(&self) -> DemuxCapability {
        match self {
            FrameworkTranslator::Libtest(t) => t.capability(),
            FrameworkTranslator::Doctest(t) => t.capability(),
            FrameworkTranslator::CustomBinary(t) => t.capability(),
        }
    }

    open spec fn strategy(&self) -> ListingStrategy {
        match self {
            FrameworkTranslator::Libtest(t) => t.strategy(),
            FrameworkTranslator::Doctest(t) => t.strategy(),
            FrameworkTranslator::CustomBinary(t) => t.strategy(),
        }
    }

    open spec fn reads_libtest_flags(&self) -> bool {
        match self {
            FrameworkTranslator::Libtest(t) => t.reads_libtest_flags(),
            FrameworkTranslator::Doctest(t) => t.reads_libtest_flags(),
            FrameworkTranslator::CustomBinary(t) => t.reads_libtest_flags(),
        }
    }

    open spec fn run_args(
        &self,
        names: Seq<Seq<char>>,
        ignored: IgnoredPolicy,
        user_args: Seq<Seq<char>>,
    ) -> Seq<Seq<char>> {
        match self {
            FrameworkTranslator::Libtest(t) => t.run_args(names, ignored, user_args),
            FrameworkTranslator::Doctest(t) => t.run_args(names, ignored, user_args),
            FrameworkTranslator::CustomBinary(t) => t.run_args(names, ignored, user_args),
        }
    }

    open spec fn outcomes(&self, stdout: Seq<u8>, stderr: Seq<u8>) -> Map<
        Seq<char>,
        ObservationView,
    > {
        match self {
            FrameworkTranslator::Libtest(t) => t.outcomes(stdout, stderr),
            FrameworkTranslator::Doctest(t) => t.outcomes(stdout, stderr),
            FrameworkTranslator::CustomBinary(t) => t.outcomes(stdout, stderr),
        }
    }

    fn declares_executor_overrides(&self) -> (r: bool) {
        match self {
            FrameworkTranslator::Libtest(t) => t.declares_executor_overrides(),
            FrameworkTranslator::Doctest(t) => t.declares_executor_overrides(),
            FrameworkTranslator::CustomBinary(t) => t.declares_executor_overrides(),
        }
    }

    fn parser_capability(&self) -> (r: DemuxCapability) {
        match self {
            FrameworkTranslator::Libtest(t) => t.parser_capability(),
            FrameworkTranslator::Doctest(t) => t.parser_capability(),
            FrameworkTranslator::CustomBinary(t) => t.parser_capability(),
        }
    }

    fn listing_strategy(&self) -> (r: ListingStrategy) {
        match self {
            FrameworkTranslator::Libtest(t) => t.listing_strategy(),
            FrameworkTranslator::Doctest(t) => t.listing_strategy(),
            FrameworkTranslator::CustomBinary(t) => t.listing_strategy(),
        }
    }

    fn takes_libtest_flags(&self) -> (r: bool) {
        match self {
            FrameworkTranslator::Libtest(t) => t.takes_libtest_flags(),
            FrameworkTranslator::Doctest(t) => t.takes_libtest_flags(),
            FrameworkTranslator::CustomBinary(t) => t.takes_libtest_flags(),
        }
    }

    fn execution_args(&self, names: &[&str], ignored: IgnoredPolicy, user_args: &[String]) -> (r:
        Vec<String>) {
        match self {
            FrameworkTranslator::Libtest(t) => t.execution_args(names, ignored, user_args),
            FrameworkTranslator::Doctest(t) => t.execution_args(names, ignored, user_args),
            FrameworkTranslator::CustomBinary(t) => t.execution_args(names, ignored, user_args),
        }
    }

    fn parse_results(&self, stdout: &[u8], stderr: &[u8]) -> (r: NameMap<PerTestObservation>) {
        match self {
            FrameworkTranslator::Libtest(t) => t.parse_results(stdout, stderr),
            FrameworkTranslator::Doctest(t) => t.parse_results(stdout, stderr),
            FrameworkTranslator::CustomBinary(t) => t.parse_results(stdout, stderr),
        }
    }
}

/// Which framework a test type stands for.
#[derive(Debug, Clone, Copy, PartialEq, Eq, Structural)]
pub enum Framework {
    Libtest,
    Doctest,
    CustomBinary,
}

/// The translator of a framework under a configuration.
pub open spec fn translator_for(framework: Framework, config: RunnerConfig) -> FrameworkTranslator {
    match framework {
        Framework::Libtest => FrameworkTranslator::Libtest(
            LibtestTranslator { list_format: config.list_format, run_format: config.run_format },
        ),
        Framework::Doctest => FrameworkTranslator::Doctest(
            DoctestTranslator { run_format: config.run_format },
        ),
        Framework::CustomBinary => FrameworkTranslator::CustomBinary(CustomBinaryTranslator),
    }
}

/// The framework of each test type.
pub struct TranslatorRegistry {
    frameworks: NameMap<Framework>,
}

impl View for TranslatorRegistry {
    type V = Map<Seq<char>, Framework>;

    closed spec fn view(&self) -> Map<Seq<char>, Framework> {
        self.frameworks@
    }
}

/// The test types that are known from the start.
pub open spec fn built_in() -> Map<Seq<char>, Framework> {
    Map::empty().insert("rust"@, Framework::Libtest).insert(
        "rust_doctest_v1"@,
        Framework::Doctest,
    ).insert("custom_test_v1"@, Framework::CustomBinary)
}

impl TranslatorRegistry {
    /// A registry of the test types that are known from the start.
    pub fn new() -> (r: Self)
        ensures
            r@ == built_in(),
    {
        let mut frameworks: NameMap<Framework> = NameMap::new();
        frameworks.insert("rust", Framework::Libtest);
        frameworks.insert("rust_doctest_v1", Framework::Doctest);
        frameworks.insert("custom_test_v1", Framework::CustomBinary);
        TranslatorRegistry { frameworks }
    }

    /// Sets the framework of a test type.
    pub fn register(&mut self, test_type: &str, framework: Framework)
        ensures
            final(self)@ == old(self)@.insert(test_type@, framework),
    {
        self.frameworks.insert(test_type, framework);
    }

    /// The translator of a test type, if the type is known.
    pub fn resolve(&self, test_type: &str, config: &RunnerConfig) -> (r: Option<
        FrameworkTranslator,
    >)
        ensures
            r == (if self@.contains_key(test_type@) {
                Some(translator_for(self@[test_type@], *config))
            } else {
                None::<FrameworkTranslator>
            }),
    {
        match self.frameworks.get(test_type) {
            Some(framework) => Some(
                match *framework {
                    Framework::Libtest => FrameworkTranslator::Libtest(
                        LibtestTranslator {
                            list_format: config.list_format,
                            run_format: config.run_format,
                        },
                    ),
                    Framework::Doctest => FrameworkTranslator::Doctest(
                        DoctestTranslator { run_format: config.run_format },
                    ),
                    Framework::CustomBinary => FrameworkTranslator::CustomBinary(
                        CustomBinaryTranslator,
                    ),
                },
            ),
            None => None,
        }
    }
}

} // verus!

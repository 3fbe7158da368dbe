//! What the harness is told, and how its listing is read.

use vstd::prelude::*;
use vstd::utf8::*;

use crate::json;
use crate::laws::decode::are_lines;
use crate::listing::{self, IgnoredPolicy, ListingParseError, TestCase};
use crate::listing_laws;
use crate::text;
use crate::translator::{
    self, doctest_execution_args, kind_of, libtest_execution_args, libtest_listing_args,
    libtest_user_requests_help, libtest_user_requests_listing_only, libtest_user_usage_error,
    parse_listing, read_args, user_args, ArgKind, LibtestUserArgs, ListFormat, RunFormat,
    UserArgsView,
};

verus! {

// ---------------------------------------------------------------------------
// The user's arguments.

/// Whether what was read of some arguments is what was read of the first of them and then
/// what was read of the rest.
pub open spec fn joined(first: UserArgsView, rest: UserArgsView, all: UserArgsView) -> bool {
    &&& all.listing =~= first.listing + rest.listing
    &&& all.per_test =~= first.per_test + rest.per_test
    &&& all.whole_target =~= first.whole_target + rest.whole_target
    &&& all.ignored_policies =~= first.ignored_policies + rest.ignored_policies
    &&& all.listing_only == (first.listing_only || rest.listing_only)
    &&& all.help == (first.help || rest.help)
    &&& all.unstable_options == (first.unstable_options || rest.unstable_options)
    &&& all.listing_needs_unstable == (first.listing_needs_unstable || rest.listing_needs_unstable)
    &&& all.execution_needs_unstable == (first.execution_needs_unstable
        || rest.execution_needs_unstable)
}

proof fn lemma_joined_arg(read: UserArgsView, arg: Seq<char>, next: Option<Seq<char>>)
    ensures
        joined(
            read,
            UserArgsView::nothing().with_arg(arg, next),
            read.with_arg(arg, next),
        ),
{
    reveal(UserArgsView::with_arg);
}

proof fn lemma_joined_three(
    a: UserArgsView,
    b: UserArgsView,
    c: UserArgsView,
    ab: UserArgsView,
    bc: UserArgsView,
    abc: UserArgsView,
)
    requires
        joined(a, b, ab),
        joined(b, c, bc),
        joined(ab, c, abc),
    ensures
        joined(a, bc, abc),
{
}

proof fn lemma_joined_filters(read: UserArgsView, filters: Seq<Seq<char>>)
    ensures
        joined(read, UserArgsView::nothing().with_filters(filters), read.with_filters(filters)),
        read.with_filters(filters).output_format == read.output_format,
        read.with_filters(filters).format_error == read.format_error,
    decreases filters.len(),
{
    if filters.len() > 0 {
        let none = UserArgsView::nothing();
        lemma_joined_filters(read.with_filter(filters[0]), filters.skip(1));
        lemma_joined_filters(none.with_filter(filters[0]), filters.skip(1));
        assert(joined(read, none.with_filter(filters[0]), read.with_filter(filters[0])));
        lemma_joined_three(
            read,
            none.with_filter(filters[0]),
            none.with_filters(filters.skip(1)),
            read.with_filter(filters[0]),
            none.with_filters(filters),
            read.with_filters(filters),
        );
    }
}

/// Arguments add to what was read before them, whatever that was.
proof fn lemma_joined_from(args: Seq<Seq<char>>, i: int, read: UserArgsView)
    ensures
        joined(read, read_args(args, i, UserArgsView::nothing()), read_args(args, i, read)),
    decreases args.len() - i + 1,
{
    let none = UserArgsView::nothing();
    if i < 0 || i >= args.len() {
    } else if kind_of(args[i]) == ArgKind::Rest {
        lemma_joined_filters(read, args.skip(i + 1));
    } else {
        let next = translator::arg_at(args, i + 1);
        let j = i + translator::width_of(args[i], next);
        lemma_joined_from(args, j, read.with_arg(args[i], next));
        lemma_joined_from(args, j, none.with_arg(args[i], next));
        lemma_joined_arg(read, args[i], next);
        lemma_joined_three(
            read,
            none.with_arg(args[i], next),
            read_args(args, j, none),
            read.with_arg(args[i], next),
            read_args(args, i, none),
            read_args(args, i, read),
        );
    }
}

/// Reading on behind some arguments is reading what stands behind them.
proof fn lemma_behind(head: Seq<Seq<char>>, rest: Seq<Seq<char>>, i: int, read: UserArgsView)
    requires
        i >= 0,
    ensures
        read_args(head + rest, head.len() + i, read) == read_args(rest, i, read),
    decreases rest.len() - i + 1,
{
    let all = head + rest;
    if i < rest.len() {
        assert(all[head.len() + i] == rest[i]);
        assert(translator::arg_at(all, head.len() + i + 1) == translator::arg_at(rest, i + 1));
        if kind_of(rest[i]) == ArgKind::Rest {
            assert(all.skip(head.len() + i + 1) =~= rest.skip(i + 1));
        } else {
            let next = translator::arg_at(rest, i + 1);
            lemma_behind(
                head,
                rest,
                i + translator::width_of(rest[i], next),
                read.with_arg(rest[i], next),
            );
        }
    }
}

/// What one argument, or one with its value, adds to those behind it.
proof fn lemma_first(head: Seq<Seq<char>>, rest: Seq<Seq<char>>)
    requires
        head.len() == 1 || head.len() == 2,
        kind_of(head[0]) != ArgKind::Rest,
        translator::width_of(head[0], translator::arg_at(head + rest, 1)) == head.len(),
    ensures
        joined(
            UserArgsView::nothing().with_arg(head[0], translator::arg_at(head + rest, 1)),
            user_args(rest),
            user_args(head + rest),
        ),
{
    let all = head + rest;
    let none = UserArgsView::nothing();
    let read = none.with_arg(head[0], translator::arg_at(all, 1));
    assert(all[0] == head[0]);
    lemma_behind(head, rest, 0, read);
    lemma_joined_from(rest, 0, read);
}

proof fn lemma_flag_words()
    ensures
        "--skip="@.len() == 7 && "--skip="@[0] == '-' && "--skip="@[1] == '-'
            && "--skip="@[2] == 's' && "--skip="@[3] == 'k',
        "--logfile="@.len() == 10 && "--logfile="@[0] == '-' && "--logfile="@[1] == '-'
            && "--logfile="@[2] == 'l' && "--logfile="@[3] == 'o',
        "--test-threads="@.len() == 15 && "--test-threads="@[0] == '-'
            && "--test-threads="@[1] == '-' && "--test-threads="@[2] == 't'
            && "--test-threads="@[3] == 'e',
        "--color="@.len() == 8 && "--color="@[0] == '-' && "--color="@[1] == '-'
            && "--color="@[2] == 'c' && "--color="@[3] == 'o',
        "--format="@.len() == 9 && "--format="@[0] == '-' && "--format="@[1] == '-'
            && "--format="@[2] == 'f' && "--format="@[3] == 'o',
        "--filter="@.len() == 9 && "--filter="@[0] == '-' && "--filter="@[1] == '-'
            && "--filter="@[2] == 'f' && "--filter="@[3] == 'i',
        "--shuffle-seed="@.len() == 15 && "--shuffle-seed="@[0] == '-'
            && "--shuffle-seed="@[1] == '-' && "--shuffle-seed="@[2] == 's'
            && "--shuffle-seed="@[3] == 'h',
        "-Z"@.len() == 2 && "-Z"@[0] == '-' && "-Z"@[1] == 'Z',
        "--include-ignored"@.len() == 17 && "--include-ignored"@[0] == '-'
            && "--include-ignored"@[1] == '-' && "--include-ignored"@[2] == 'i'
            && "--include-ignored"@[3] == 'n',
        "--ignored"@.len() == 9 && "--ignored"@[0] == '-' && "--ignored"@[1] == '-'
            && "--ignored"@[2] == 'i' && "--ignored"@[3] == 'g',
        "--exact"@.len() == 7 && "--exact"@[0] == '-' && "--exact"@[1] == '-'
            && "--exact"@[2] == 'e' && "--exact"@[3] == 'x',
        "--skip"@.len() == 6 && "--skip"@[0] == '-' && "--skip"@[1] == '-' && "--skip"@[2] == 's'
            && "--skip"@[3] == 'k',
        "--list"@.len() == 6 && "--list"@[0] == '-' && "--list"@[1] == '-' && "--list"@[2] == 'l'
            && "--list"@[3] == 'i',
        "--filter"@.len() == 8 && "--filter"@[0] == '-' && "--filter"@[1] == '-'
            && "--filter"@[2] == 'f' && "--filter"@[3] == 'i',
        "--test"@.len() == 6 && "--test"@[0] == '-' && "--test"@[1] == '-' && "--test"@[2] == 't'
            && "--test"@[3] == 'e',
        "--bench"@.len() == 7 && "--bench"@[0] == '-' && "--bench"@[1] == '-'
            && "--bench"@[2] == 'b' && "--bench"@[3] == 'e',
        "--exclude-should-panic"@.len() == 22 && "--exclude-should-panic"@[0] == '-'
            && "--exclude-should-panic"@[1] == '-' && "--exclude-should-panic"@[2] == 'e'
            && "--exclude-should-panic"@[3] == 'x',
        "--force-run-in-process"@.len() == 22 && "--force-run-in-process"@[0] == '-'
            && "--force-run-in-process"@[1] == '-' && "--force-run-in-process"@[2] == 'f'
            && "--force-run-in-process"@[3] == 'o',
        "--no-capture"@.len() == 12 && "--no-capture"@[0] == '-' && "--no-capture"@[1] == '-'
            && "--no-capture"@[2] == 'n' && "--no-capture"@[3] == 'o',
        "--nocapture"@.len() == 11 && "--nocapture"@[0] == '-' && "--nocapture"@[1] == '-'
            && "--nocapture"@[2] == 'n' && "--nocapture"@[3] == 'o',
        "--show-output"@.len() == 13 && "--show-output"@[0] == '-' && "--show-output"@[1] == '-'
            && "--show-output"@[2] == 's' && "--show-output"@[3] == 'h',
        "--fail-fast"@.len() == 11 && "--fail-fast"@[0] == '-' && "--fail-fast"@[1] == '-'
            && "--fail-fast"@[2] == 'f' && "--fail-fast"@[3] == 'a',
        "--report-time"@.len() == 13 && "--report-time"@[0] == '-' && "--report-time"@[1] == '-'
            && "--report-time"@[2] == 'r' && "--report-time"@[3] == 'e',
        "--ensure-time"@.len() == 13 && "--ensure-time"@[0] == '-' && "--ensure-time"@[1] == '-'
            && "--ensure-time"@[2] == 'e' && "--ensure-time"@[3] == 'n',
        "--shuffle"@.len() == 9 && "--shuffle"@[0] == '-' && "--shuffle"@[1] == '-'
            && "--shuffle"@[2] == 's' && "--shuffle"@[3] == 'h',
        "--shuffle-seed"@.len() == 14 && "--shuffle-seed"@[0] == '-'
            && "--shuffle-seed"@[1] == '-' && "--shuffle-seed"@[2] == 's'
            && "--shuffle-seed"@[3] == 'h',
        "--logfile"@.len() == 9 && "--logfile"@[0] == '-' && "--logfile"@[1] == '-'
            && "--logfile"@[2] == 'l' && "--logfile"@[3] == 'o',
        "--format"@.len() == 8 && "--format"@[0] == '-' && "--format"@[1] == '-'
            && "--format"@[2] == 'f' && "--format"@[3] == 'o',
        "--test-threads"@.len() == 14 && "--test-threads"@[0] == '-'
            && "--test-threads"@[1] == '-' && "--test-threads"@[2] == 't'
            && "--test-threads"@[3] == 'e',
        "--color"@.len() == 7 && "--color"@[0] == '-' && "--color"@[1] == '-'
            && "--color"@[2] == 'c' && "--color"@[3] == 'o',
        "-q"@.len() == 2 && "-q"@[0] == '-' && "-q"@[1] == 'q',
        "--quiet"@.len() == 7 && "--quiet"@[0] == '-' && "--quiet"@[1] == '-'
            && "--quiet"@[2] == 'q' && "--quiet"@[3] == 'u',
        "-h"@.len() == 2 && "-h"@[0] == '-' && "-h"@[1] == 'h',
        "--help"@.len() == 6 && "--help"@[0] == '-' && "--help"@[1] == '-' && "--help"@[2] == 'h'
            && "--help"@[3] == 'e',
        "--"@.len() == 2 && "--"@[0] == '-' && "--"@[1] == '-',
        "-"@.len() == 1 && "-"@[0] == '-',
{
    reveal_strlit("--skip=");
    reveal_strlit("--logfile=");
    reveal_strlit("--test-threads=");
    reveal_strlit("--color=");
    reveal_strlit("--format=");
    reveal_strlit("--filter=");
    reveal_strlit("--shuffle-seed=");
    reveal_strlit("-Z");
    reveal_strlit("--include-ignored");
    reveal_strlit("--ignored");
    reveal_strlit("--exact");
    reveal_strlit("--skip");
    reveal_strlit("--list");
    reveal_strlit("--filter");
    reveal_strlit("--test");
    reveal_strlit("--bench");
    reveal_strlit("--exclude-should-panic");
    reveal_strlit("--force-run-in-process");
    reveal_strlit("--no-capture");
    reveal_strlit("--nocapture");
    reveal_strlit("--show-output");
    reveal_strlit("--fail-fast");
    reveal_strlit("--report-time");
    reveal_strlit("--ensure-time");
    reveal_strlit("--shuffle");
    reveal_strlit("--shuffle-seed");
    reveal_strlit("--logfile");
    reveal_strlit("--format");
    reveal_strlit("--test-threads");
    reveal_strlit("--color");
    reveal_strlit("-q");
    reveal_strlit("--quiet");
    reveal_strlit("-h");
    reveal_strlit("--help");
    reveal_strlit("--");
    reveal_strlit("-");
}

#[verifier::rlimit(50)]
proof fn lemma_kinds_a()
    ensures
        kind_of("--include-ignored"@) == ArgKind::IncludeIgnored,
        kind_of("--ignored"@) == ArgKind::Ignored,
        kind_of("--exact"@) == ArgKind::Exact,
        kind_of("--skip"@) == ArgKind::Skip,
        kind_of("--list"@) == ArgKind::List,
        kind_of("--filter"@) == ArgKind::Filter,
{
    reveal(kind_of);
    lemma_flag_words();
}

#[verifier::rlimit(50)]
proof fn lemma_kinds_b()
    ensures
        kind_of("--test"@) == ArgKind::Selection,
        kind_of("--bench"@) == ArgKind::Selection,
        kind_of("--exclude-should-panic"@) == ArgKind::ExcludeShouldPanic,
        kind_of("--force-run-in-process"@) == ArgKind::Execution,
        kind_of("--no-capture"@) == ArgKind::Execution,
        kind_of("--nocapture"@) == ArgKind::Execution,
        kind_of("--show-output"@) == ArgKind::Execution,
{
    reveal(kind_of);
    lemma_flag_words();
    reveal_strlit("--format=");
    reveal_strlit("--force-run-in-process");
    assert("--format="@[5] == 'm');
    assert("--force-run-in-process"@[5] == 'c');
}

#[verifier::rlimit(50)]
proof fn lemma_kinds_c()
    ensures
        kind_of("--fail-fast"@) == ArgKind::UnstableExecution,
        kind_of("--report-time"@) == ArgKind::UnstableExecution,
        kind_of("--ensure-time"@) == ArgKind::UnstableExecution,
        kind_of("--shuffle"@) == ArgKind::UnstableExecution,
        kind_of("--shuffle-seed"@) == ArgKind::Seed,
        kind_of("--logfile"@) == ArgKind::Logfile,
{
    reveal(kind_of);
    lemma_flag_words();
}

#[verifier::rlimit(50)]
proof fn lemma_kinds_d()
    ensures
        kind_of("--format"@) == ArgKind::Format,
        kind_of("--test-threads"@) == ArgKind::Dropped,
        kind_of("--color"@) == ArgKind::Dropped,
        kind_of("-q"@) == ArgKind::Quiet,
        kind_of("--quiet"@) == ArgKind::Quiet,
        kind_of("-h"@) == ArgKind::Help,
        kind_of("--help"@) == ArgKind::Help,
{
    reveal(kind_of);
    lemma_flag_words();
}

/// The kind of an argument with its value behind `=`.
proof fn lemma_kinds_of_values(value: Seq<char>)
    ensures
        kind_of("--skip="@ + value) == ArgKind::SkipValue,
        kind_of("--logfile="@ + value) == ArgKind::LogfileValue,
        kind_of("--test-threads="@ + value) == ArgKind::DroppedValue,
        kind_of("--color="@ + value) == ArgKind::DroppedValue,
        kind_of("--format="@ + value) == ArgKind::FormatValue,
        kind_of("--filter="@ + value) == ArgKind::FilterValue,
        !"-"@.is_prefix_of(value) ==> kind_of(value) == ArgKind::Positional,
{
    reveal(kind_of);
    lemma_flag_words();
    lemma_starts("--skip="@, value);
    lemma_starts("--logfile="@, value);
    lemma_starts("--test-threads="@, value);
    lemma_starts("--color="@, value);
    lemma_starts("--format="@, value);
    lemma_starts("--filter="@, value);
    if value.len() > 0 && value[0] == '-' {
        assert("-"@ =~= value.subrange(0, 1));
    }
}

proof fn lemma_starts(start: Seq<char>, value: Seq<char>)
    requires
        start.len() > 3,
    ensures
        start.is_prefix_of(start + value),
        (start + value)[0] == start[0],
        (start + value)[1] == start[1],
        (start + value)[2] == start[2],
        (start + value)[3] == start[3],
        (start + value).skip(start.len() as int) == value,
{
    assert(start =~= (start + value).subrange(0, start.len() as int));
    assert((start + value).skip(start.len() as int) =~= value);
}

/// Whether one more argument adds certain texts to what listings, runs of single tests and
/// runs of whole targets are told, and nothing else but what is said.
pub open spec fn adds(
    fewer: LibtestUserArgs,
    more: LibtestUserArgs,
    listing: Seq<Seq<char>>,
    per_test: Seq<Seq<char>>,
    whole_target: Seq<Seq<char>>,
) -> bool {
    &&& more@.listing == listing + fewer@.listing
    &&& more@.per_test == per_test + fewer@.per_test
    &&& more@.whole_target == whole_target + fewer@.whole_target
}

/// Whether one more argument leaves what the runner itself is asked for.
pub open spec fn asks_the_same(fewer: LibtestUserArgs, more: LibtestUserArgs) -> bool {
    &&& more.ignored_policies@ == fewer.ignored_policies@
    &&& more.listing_only == fewer.listing_only
    &&& more.help == fewer.help
    &&& more.unstable_options == fewer.unstable_options
}

/// Filters narrow the listing and the run of a whole target, never the run of a single test,
/// which goes by its exact name.
pub proof fn law_filters_narrow_listings(
    all: &[String],
    rest: &[String],
    word: Seq<char>,
    more: LibtestUserArgs,
    fewer: LibtestUserArgs,
)
    requires
        text::views(all@) == seq![word] + text::views(rest@),
        call_ensures(LibtestUserArgs::parse, (all,), more),
        call_ensures(LibtestUserArgs::parse, (rest,), fewer),
    ensures
        !"-"@.is_prefix_of(word) || word == "--exact"@ ==> adds(
            fewer,
            more,
            seq![word],
            Seq::empty(),
            seq![word],
        ) && asks_the_same(fewer, more),
        forall|value: Seq<char>|
            word == #[trigger] ("--filter="@ + value) ==> adds(
                fewer,
                more,
                seq![value],
                Seq::empty(),
                seq![value],
            ),
        forall|value: Seq<char>|
            word == #[trigger] ("--skip="@ + value) ==> adds(
                fewer,
                more,
                seq!["--skip"@, value],
                Seq::empty(),
                seq!["--skip"@, value],
            ),
{
    reveal(UserArgsView::with_arg);
    lemma_kinds_a();
    let none = Seq::<Seq<char>>::empty();
    assert(none.push(word) =~= seq![word]);
    if !"-"@.is_prefix_of(word) || word == "--exact"@ {
        lemma_kinds_of_values(word);
        lemma_first(seq![word], text::views(rest@));
    }
    assert forall|value: Seq<char>| word == #[trigger] ("--filter="@ + value) implies adds(
        fewer,
        more,
        seq![value],
        Seq::empty(),
        seq![value],
    ) by {
        lemma_kinds_of_values(value);
        lemma_flag_words();
        lemma_starts("--filter="@, value);
        lemma_first(seq![word], text::views(rest@));
        assert(none.push(value) =~= seq![value]);
    }
    assert forall|value: Seq<char>| word == #[trigger] ("--skip="@ + value) implies adds(
        fewer,
        more,
        seq!["--skip"@, value],
        Seq::empty(),
        seq!["--skip"@, value],
    ) by {
        lemma_kinds_of_values(value);
        lemma_flag_words();
        lemma_starts("--skip="@, value);
        lemma_first(seq![word], text::views(rest@));
        assert(none.push("--skip"@).push(value) =~= seq!["--skip"@, value]);
    }
}

/// Flags of a run are for runs alone, those that select tests for listings too. Some need
/// unstable options.
pub proof fn law_run_flags_are_for_runs(
    all: &[String],
    rest: &[String],
    word: Seq<char>,
    more: LibtestUserArgs,
    fewer: LibtestUserArgs,
)
    requires
        text::views(all@) == seq![word] + text::views(rest@),
        call_ensures(LibtestUserArgs::parse, (all,), more),
        call_ensures(LibtestUserArgs::parse, (rest,), fewer),
    ensures
        word == "--test"@ || word == "--bench"@ || word == "--exclude-should-panic"@ ==> adds(
            fewer,
            more,
            seq![word],
            seq![word],
            seq![word],
        ) && asks_the_same(fewer, more),
        word == "--exclude-should-panic"@ ==> more.listing_needs_unstable
            && more.execution_needs_unstable,
        word == "--force-run-in-process"@ || word == "--no-capture"@ || word == "--nocapture"@
            || word == "--show-output"@ ==> adds(
            fewer,
            more,
            Seq::empty(),
            seq![word],
            seq![word],
        ) && asks_the_same(fewer, more) && more.execution_needs_unstable
            == fewer.execution_needs_unstable && more.listing_needs_unstable
            == fewer.listing_needs_unstable,
        word == "--fail-fast"@ || word == "--report-time"@ || word == "--ensure-time"@ || word
            == "--shuffle"@ ==> adds(fewer, more, Seq::empty(), seq![word], seq![word])
            && asks_the_same(fewer, more) && more.execution_needs_unstable
            && more.listing_needs_unstable == fewer.listing_needs_unstable,
{
    reveal(UserArgsView::with_arg);
    lemma_kinds_b();
    lemma_kinds_c();
    let none = Seq::<Seq<char>>::empty();
    assert(none.push(word) =~= seq![word]);
    if kind_of(word) is Selection || kind_of(word) is ExcludeShouldPanic || kind_of(
        word,
    ) is Execution || kind_of(word) is UnstableExecution {
        lemma_first(seq![word], text::views(rest@));
    }
}

/// What the runner itself is asked for: which ignored tests run, a listing alone, or help.
/// Its own number of threads and colours are not asked for.
pub proof fn law_the_runner_is_asked_itself(
    all: &[String],
    rest: &[String],
    word: Seq<char>,
    more: LibtestUserArgs,
    fewer: LibtestUserArgs,
)
    requires
        text::views(all@) == seq![word] + text::views(rest@),
        call_ensures(LibtestUserArgs::parse, (all,), more),
        call_ensures(LibtestUserArgs::parse, (rest,), fewer),
    ensures
        word == "--include-ignored"@ ==> more.ignored_policies@ == seq![
            IgnoredPolicy::IncludeIgnored,
        ] + fewer.ignored_policies@ && adds(
            fewer,
            more,
            Seq::empty(),
            Seq::empty(),
            Seq::empty(),
        ),
        word == "--ignored"@ ==> more.ignored_policies@ == seq![IgnoredPolicy::IgnoredOnly]
            + fewer.ignored_policies@ && adds(
            fewer,
            more,
            Seq::empty(),
            Seq::empty(),
            Seq::empty(),
        ),
        word == "--list"@ ==> more.listing_only && adds(
            fewer,
            more,
            Seq::empty(),
            Seq::empty(),
            Seq::empty(),
        ),
        word == "-h"@ || word == "--help"@ ==> more.help && adds(
            fewer,
            more,
            Seq::empty(),
            Seq::empty(),
            Seq::empty(),
        ),
        word == "-q"@ || word == "--quiet"@ ==> adds(
            fewer,
            more,
            Seq::empty(),
            Seq::empty(),
            Seq::empty(),
        ) && asks_the_same(fewer, more),
        forall|value: Seq<char>|
            word == #[trigger] ("--test-threads="@ + value) ==> adds(
                fewer,
                more,
                Seq::empty(),
                Seq::empty(),
                Seq::empty(),
            ) && asks_the_same(fewer, more),
        forall|value: Seq<char>|
            word == #[trigger] ("--color="@ + value) ==> adds(
                fewer,
                more,
                Seq::empty(),
                Seq::empty(),
                Seq::empty(),
            ) && asks_the_same(fewer, more),
{
    reveal(UserArgsView::with_arg);
    lemma_kinds_a();
    lemma_kinds_d();
    let none = Seq::<IgnoredPolicy>::empty();
    assert(none.push(IgnoredPolicy::IncludeIgnored) =~= seq![IgnoredPolicy::IncludeIgnored]);
    assert(none.push(IgnoredPolicy::IgnoredOnly) =~= seq![IgnoredPolicy::IgnoredOnly]);
    if kind_of(word) is IncludeIgnored || kind_of(word) is Ignored || kind_of(word) is List
        || kind_of(word) is Help || kind_of(word) is Quiet || kind_of(word) is DroppedValue {
        lemma_first(seq![word], text::views(rest@));
    }
    assert forall|value: Seq<char>| word == #[trigger] ("--test-threads="@ + value) implies adds(
        fewer,
        more,
        Seq::empty(),
        Seq::empty(),
        Seq::empty(),
    ) && asks_the_same(fewer, more) by {
        lemma_kinds_of_values(value);
        lemma_first(seq![word], text::views(rest@));
    }
    assert forall|value: Seq<char>| word == #[trigger] ("--color="@ + value) implies adds(
        fewer,
        more,
        Seq::empty(),
        Seq::empty(),
        Seq::empty(),
    ) && asks_the_same(fewer, more) by {
        lemma_kinds_of_values(value);
        lemma_first(seq![word], text::views(rest@));
    }
}

/// Flags with a value behind them: a skipped name or a filter narrows; a log file or a seed
/// is for runs; threads and colours are the runner's own.
pub proof fn law_flags_take_their_values(
    all: &[String],
    rest: &[String],
    word: Seq<char>,
    value: Seq<char>,
    more: LibtestUserArgs,
    fewer: LibtestUserArgs,
)
    requires
        text::views(all@) == seq![word, value] + text::views(rest@),
        call_ensures(LibtestUserArgs::parse, (all,), more),
        call_ensures(LibtestUserArgs::parse, (rest,), fewer),
    ensures
        word == "--skip"@ ==> adds(fewer, more, seq![word, value], Seq::empty(), seq![word, value])
            && asks_the_same(fewer, more),
        word == "--filter"@ ==> adds(fewer, more, seq![value], Seq::empty(), seq![value])
            && asks_the_same(fewer, more),
        word == "--logfile"@ ==> adds(
            fewer,
            more,
            Seq::empty(),
            seq![word, value],
            seq![word, value],
        ) && asks_the_same(fewer, more),
        word == "--shuffle-seed"@ ==> adds(
            fewer,
            more,
            Seq::empty(),
            seq![word, value],
            seq![word, value],
        ) && asks_the_same(fewer, more) && more.execution_needs_unstable,
        word == "--test-threads"@ || word == "--color"@ ==> adds(
            fewer,
            more,
            Seq::empty(),
            Seq::empty(),
            Seq::empty(),
        ) && asks_the_same(fewer, more),
{
    reveal(UserArgsView::with_arg);
    lemma_kinds_a();
    lemma_kinds_c();
    lemma_kinds_d();
    let none = Seq::<Seq<char>>::empty();
    assert(none.push(value) =~= seq![value]);
    assert(none.push(word).push(value) =~= seq![word, value]);
    let head = seq![word, value];
    assert(translator::arg_at(head + text::views(rest@), 1) == Some(value));
    if kind_of(word) is Skip || kind_of(word) is Filter || kind_of(word) is Logfile || kind_of(
        word,
    ) is Seed || kind_of(word) is Dropped {
        lemma_first(head, text::views(rest@));
    }
}

// ---------------------------------------------------------------------------
// What the harness is told.

/// The flag for ignored tests.
pub open spec fn ignored_flag(ignored: IgnoredPolicy) -> Seq<Seq<char>> {
    if ignored is IncludeIgnored {
        seq!["--include-ignored"@]
    } else if ignored is IgnoredOnly {
        seq!["--ignored"@]
    } else {
        Seq::empty()
    }
}

/// Tests are run by their exact names, one at a time and without colour, in the format that is
/// read afterwards; what the user says of runs comes last.
pub proof fn law_tests_are_run_by_their_exact_names(
    names: &[&str],
    ignored: IgnoredPolicy,
    format: RunFormat,
    args: &[String],
    user: LibtestUserArgs,
    r: Vec<String>,
)
    requires
        call_ensures(LibtestUserArgs::parse, (args,), user),
        call_ensures(libtest_execution_args, (names, ignored, format, args), r),
    ensures
        ({
            let told = text::views(r@);
            let fixed = seq!["--exact"@, "--test-threads=1"@, "--color=never"@];
            let unstable = seq!["-Z"@, "unstable-options"@];
            let n = names@.len() as int;
            &&& forall|i: int| 0 <= i < n ==> #[trigger] told[i] == names@[i]@
            &&& format is Json ==> told.skip(n) == fixed + ignored_flag(ignored) + unstable + seq![
                "--format"@,
                "json"@,
            ] + user@.per_test
            &&& format is Text && user.execution_needs_unstable ==> told.skip(n) == fixed
                + ignored_flag(ignored) + unstable + user@.per_test
            &&& format is Text && !user.execution_needs_unstable ==> told.skip(n) == fixed
                + ignored_flag(ignored) + user@.per_test
        }),
{
    let all = translator::name_texts(names@);
    let rest = text::views(r@).skip(names@.len() as int);
    let fixed = seq!["--exact"@, "--test-threads=1"@, "--color=never"@];
    let format_flags = translator::format_flags(format, user.execution_needs_unstable);
    assert(rest =~= fixed + ignored_flag(ignored) + format_flags + user@.per_test);
    assert(seq!["-Z"@, "unstable-options"@] + seq!["--format"@, "json"@] =~= seq![
        "-Z"@,
        "unstable-options"@,
        "--format"@,
        "json"@,
    ]);
    if format is Json {
        assert(rest =~= fixed + ignored_flag(ignored) + seq!["-Z"@, "unstable-options"@] + seq![
            "--format"@,
            "json"@,
        ] + user@.per_test);
    }
    if format is Text && !user.execution_needs_unstable {
        assert(rest =~= fixed + ignored_flag(ignored) + user@.per_test);
    }
}

/// Documentation tests run as a whole, one at a time and without colour; the user's filters
/// reach them.
pub proof fn law_documentation_tests_run_as_a_whole(
    ignored: IgnoredPolicy,
    format: RunFormat,
    args: &[String],
    user: LibtestUserArgs,
    r: Vec<String>,
)
    requires
        call_ensures(LibtestUserArgs::parse, (args,), user),
        call_ensures(doctest_execution_args, (ignored, format, args), r),
    ensures
        ({
            let told = text::views(r@);
            let fixed = seq!["--test-threads=1"@, "--color=never"@];
            let unstable = seq!["-Z"@, "unstable-options"@];
            &&& format is Json ==> told == fixed + ignored_flag(ignored) + unstable + seq![
                "--format"@,
                "json"@,
            ] + user@.whole_target
            &&& format is Text && user.execution_needs_unstable ==> told == fixed + ignored_flag(
                ignored,
            ) + unstable + user@.whole_target
            &&& format is Text && !user.execution_needs_unstable ==> told == fixed + ignored_flag(
                ignored,
            ) + user@.whole_target
        }),
{
    let fixed = seq!["--test-threads=1"@, "--color=never"@];
    let told = text::views(r@);
    if format is Json {
        assert(told =~= fixed + ignored_flag(ignored) + seq!["-Z"@, "unstable-options"@] + seq![
            "--format"@,
            "json"@,
        ] + user@.whole_target);
    }
    if format is Text && !user.execution_needs_unstable {
        assert(told =~= fixed + ignored_flag(ignored) + user@.whole_target);
    }
}

/// Tests are listed in the format that is read afterwards, narrowed as the user says.
pub proof fn law_listings_are_narrowed_as_the_user_says(
    ignored: IgnoredPolicy,
    format: ListFormat,
    args: &[String],
    user: LibtestUserArgs,
    r: Vec<String>,
)
    requires
        call_ensures(LibtestUserArgs::parse, (args,), user),
        call_ensures(libtest_listing_args, (ignored, format, args), r),
    ensures
        ({
            let told = text::views(r@);
            let unstable = seq!["-Z"@, "unstable-options"@];
            &&& format is Json ==> told == unstable + seq!["--list"@, "--format"@, "json"@]
                + ignored_flag(ignored) + user@.listing
            &&& format is Text && user.listing_needs_unstable ==> told == seq!["--list"@] + unstable
                + ignored_flag(ignored) + user@.listing
            &&& format is Text && !user.listing_needs_unstable ==> told == seq!["--list"@]
                + ignored_flag(ignored) + user@.listing
        }),
{
    let told = text::views(r@);
    let unstable = seq!["-Z"@, "unstable-options"@];
    if format is Json {
        assert(told =~= unstable + seq!["--list"@, "--format"@, "json"@] + ignored_flag(ignored)
            + user@.listing);
    } else if user.listing_needs_unstable {
        assert(told =~= seq!["--list"@] + unstable + ignored_flag(ignored) + user@.listing);
    }
}

/// The runner goes by what was read: help and a listing alone are as they were asked for; of
/// a format that needs unstable options it complains unless they are on or help is asked for.
pub proof fn law_formats_that_are_not_stable_are_complained_of(
    args: &[String],
    user: LibtestUserArgs,
    help: bool,
    listing: bool,
    r: Option<String>,
)
    requires
        call_ensures(LibtestUserArgs::parse, (args,), user),
        call_ensures(libtest_user_requests_help, (args,), help),
        call_ensures(libtest_user_requests_listing_only, (args,), listing),
        call_ensures(libtest_user_usage_error, (args,), r),
    ensures
        help == user.help,
        listing == user.listing_only,
        user.help ==> r is None,
        !user.help && user.format_error is Some ==> r is Some && r->0@ == user.format_error->0@,
        !user.help && user.format_error is None ==> (r is Some <==> !user.unstable_options && (
        user.output_format is Json || user.output_format is Junit)),
        !user.help && user.format_error is None && !user.unstable_options
            && user.output_format is Json ==> r->0@
            == "The \"json\" format is only accepted on the nightly compiler with -Z unstable-options"@,
{
    if !user.help && user.format_error is None && !user.unstable_options
        && user.output_format is Json {
        reveal_strlit("The \"");
        reveal_strlit("json");
        reveal_strlit("\" format is only accepted on the nightly compiler with -Z unstable-options");
        reveal_strlit(
            "The \"json\" format is only accepted on the nightly compiler with -Z unstable-options",
        );
        assert(r->0@
            =~= "The \"json\" format is only accepted on the nightly compiler with -Z unstable-options"@);
    }
}

// ---------------------------------------------------------------------------
// Listings.

/// Whether the tests after a line are those before it and one of a name.
pub open spec fn lists_one_more(
    before: Seq<listing::TestCaseView>,
    after: Seq<listing::TestCaseView>,
    name: Seq<char>,
    benchmark: bool,
) -> bool {
    &&& after.len() == before.len() + 1
    &&& after.take(before.len() as int) =~= before
    &&& after.last().name == name
    &&& !after.last().ignored
    &&& after.last().kind is Benchmark <==> benchmark
}

/// Whether a line says of no name that it is a test or a benchmark.
pub open spec fn lists_nothing(line: Seq<char>) -> bool {
    &&& forall|n: Seq<char>| text::trim_end(line) != #[trigger] (n + ": test"@)
    &&& forall|n: Seq<char>| text::trim_end(line) != #[trigger] (n + ": benchmark"@)
}

/// A text listing grows line by line: a line `name: test` or `name: benchmark` lists one test
/// more, which is not ignored; any other line lists none. An empty listing lists none.
pub proof fn law_text_listings_grow_line_by_line(
    lines: Seq<Seq<char>>,
    line: Seq<char>,
    name: Seq<char>,
    policy: IgnoredPolicy,
    shorter: &[u8],
    longer: &[u8],
    a: Result<Vec<TestCase>, ListingParseError>,
    b: Result<Vec<TestCase>, ListingParseError>,
)
    requires
        are_lines(lines.push(line)),
        valid_utf8(shorter@),
        valid_utf8(longer@),
        decode_utf8(shorter@) == listing_laws::ended(lines),
        decode_utf8(longer@) == listing_laws::ended(lines.push(line)),
        call_ensures(parse_listing, (ListFormat::Text, shorter, policy), a),
        call_ensures(parse_listing, (ListFormat::Text, longer, policy), b),
    ensures
        a is Ok && b is Ok,
        lines.len() == 0 ==> a->Ok_0@.len() == 0,
        (line == name + ": test"@ || line == name + ": benchmark"@) && name.len() > 0 && !(
        policy is IgnoredOnly) ==> lists_one_more(
            listing::case_views(a->Ok_0@),
            listing::case_views(b->Ok_0@),
            name,
            line == name + ": benchmark"@,
        ),
        policy is IgnoredOnly ==> listing::case_views(b->Ok_0@) == listing::case_views(a->Ok_0@),
        lists_nothing(line) ==> listing::case_views(b->Ok_0@) == listing::case_views(a->Ok_0@),
{
    assert forall|k: int| 0 <= k < lines.len() implies !(#[trigger] lines[k]).contains('\n') && (
    lines[k].len() > 0 ==> lines[k].last() != '\r') by {
        assert(lines.push(line)[k] == lines[k]);
    }
    listing_laws::lemma_ended_lines(lines);
    listing_laws::lemma_ended_lines(lines.push(line));
    lemma_cases_push(ListFormat::Text, lines, line, policy, lines.len());
    reveal_strlit(": test");
    reveal_strlit(": benchmark");
    let t = text::trim_end(line);
    if line == name + ": test"@ || line == name + ": benchmark"@ {
        assert(line.last() == 't' || line.last() == 'k');
        assert(t == line);
        if line == name + ": test"@ {
            assert(line.last() == 't');
            assert(line.subrange(line.len() - 6, line.len() as int) =~= ": test"@);
            assert(": test"@.is_suffix_of(line));
            assert(line.take(line.len() - 6) =~= name);
            if line == name + ": benchmark"@ {
                assert(line.last() == 'k');
            }
        } else {
            assert(line.last() == 'k');
            if ": test"@.is_suffix_of(line) {
                assert(line.last() == ": test"@.last());
            }
            assert(line.subrange(line.len() - 11, line.len() as int) =~= ": benchmark"@);
            assert(": benchmark"@.is_suffix_of(line));
            assert(line.take(line.len() - 11) =~= name);
        }
    }
    if lists_nothing(line) {
        if ": test"@.is_suffix_of(t) {
            assert(t =~= t.take(t.len() - 6) + ": test"@);
        }
        if ": benchmark"@.is_suffix_of(t) {
            assert(t =~= t.take(t.len() - 11) + ": benchmark"@);
        }
    }
}

proof fn lemma_cases_push(
    format: ListFormat,
    lines: Seq<Seq<char>>,
    line: Seq<char>,
    policy: IgnoredPolicy,
    n: nat,
)
    requires
        n <= lines.len(),
    ensures
        translator::cases_in(format, lines.push(line), policy, n) == translator::cases_in(
            format,
            lines,
            policy,
            n,
        ),
    decreases n,
{
    if n > 0 {
        lemma_cases_push(format, lines, line, policy, (n - 1) as nat);
        assert(lines.push(line)[n - 1] == lines[n - 1]);
    }
}

/// A listing that is no text is refused.
pub proof fn law_listings_are_text(
    format: ListFormat,
    stdout: &[u8],
    policy: IgnoredPolicy,
    r: Result<Vec<TestCase>, ListingParseError>,
)
    requires
        call_ensures(parse_listing, (format, stdout, policy), r),
    ensures
        r is Err <==> !valid_utf8(stdout@),
{
}

} // verus!

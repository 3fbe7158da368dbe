//! Looking into the history: which commands there are, which rows they list, in
//! which order, and how rows are laid out as a table.

use vstd::prelude::*;
use vstd::utf8::*;

use crate::duration_db::{self, DbView, DurationDb, DurationEstimate, Environment, FlakeRecord};
use crate::result::{IdentityView, TestIdentity};
use crate::text::{
    self, chars_of, decimal_text, find_text_chars, push_short_hex, str_eq, string_of, text_less,
    wide_decimal_text,
};

verus! {

// ---------------------------------------------------------------------------
// Commands.

/// A look into the history.
#[derive(Debug, Clone, PartialEq, Eq)]
pub struct DbCli {
    /// Where the history is; the default place when absent.
    pub duration_db: Option<String>,
    pub command: DbCommand,
}

/// What to look at.
#[derive(Debug, Clone, PartialEq, Eq)]
pub enum DbCommand {
    /// General statistics.
    Stats,
    /// The records of tests.
    List {
        /// One of target, name, p50, p95, runs, failures, flake-rate.
        sort: String,
        /// Only this environment: local or remote.
        env: Option<String>,
        /// Only targets that hold this text.
        target: Option<String>,
        /// Only names that hold this text.
        name: Option<String>,
        /// text or json.
        format: String,
    },
}

/// Whether a text stands before the first `--` of a command line.
pub open spec fn says_before_dashes(argv: Seq<String>, word: Seq<char>) -> bool {
    exists|i: int|
        0 <= i < argv.len() && (#[trigger] argv[i])@ == word && forall|k: int|
            0 <= k < i ==> (#[trigger] argv[k])@ != "--"@
}

/// Whether a command line asks to look into the history.
pub fn asks_for_db(argv: &[String]) -> (r: bool)
    ensures
        r == says_before_dashes(argv@, "db"@),
{
    proof {
        reveal_strlit("db");
        reveal_strlit("--");
        assert("db"@[0] != "--"@[0]);
    }
    let mut i: usize = 0;
    while i < argv.len()
        invariant
            i <= argv.len(),
            "db"@ != "--"@,
            forall|k: int| 0 <= k < i ==> (#[trigger] argv@[k])@ != "--"@,
            forall|k: int| 0 <= k < i ==> (#[trigger] argv@[k])@ != "db"@,
        decreases argv.len() - i,
    {
        if str_eq(argv[i].as_str(), "db") {
            return true;
        }
        if str_eq(argv[i].as_str(), "--") {
            proof {
                if says_before_dashes(argv@, "db"@) {
                    let at = choose|at: int|
                        0 <= at < argv@.len() && (#[trigger] argv@[at])@ == "db"@ && forall|k: int|
                            0 <= k < at ==> (#[trigger] argv@[k])@ != "--"@;
                    assert(at > i);
                    assert(argv@[i as int]@ != "--"@);
                }
            }
            return false;
        }
        i += 1;
    }
    false
}

/// By what rows are sorted.
#[derive(Debug, Clone, Copy, PartialEq, Eq, Structural)]
pub enum SortKey {
    Target,
    Name,
    P50,
    P95,
    Runs,
    Failures,
    FlakeRate,
}

/// The sort key of a name.
pub open spec fn sort_key(name: Seq<char>) -> Option<SortKey> {
    if name == "target"@ {
        Some(SortKey::Target)
    } else if name == "name"@ {
        Some(SortKey::Name)
    } else if name == "p50"@ {
        Some(SortKey::P50)
    } else if name == "p95"@ {
        Some(SortKey::P95)
    } else if name == "runs"@ {
        Some(SortKey::Runs)
    } else if name == "failures"@ {
        Some(SortKey::Failures)
    } else if name == "flake-rate"@ {
        Some(SortKey::FlakeRate)
    } else {
        None
    }
}

fn read_sort_key(name: &str) -> (r: Option<SortKey>)
    ensures
        r == sort_key(name@),
{
    if str_eq(name, "target") {
        Some(SortKey::Target)
    } else if str_eq(name, "name") {
        Some(SortKey::Name)
    } else if str_eq(name, "p50") {
        Some(SortKey::P50)
    } else if str_eq(name, "p95") {
        Some(SortKey::P95)
    } else if str_eq(name, "runs") {
        Some(SortKey::Runs)
    } else if str_eq(name, "failures") {
        Some(SortKey::Failures)
    } else if str_eq(name, "flake-rate") {
        Some(SortKey::FlakeRate)
    } else {
        None
    }
}

/// The environment of a name; `None` for a name that is none.
pub open spec fn env_filter(name: Option<Seq<char>>) -> Option<Option<Environment>> {
    match name {
        None => Some(None),
        Some(name) => if name == "local"@ {
            Some(Some(Environment::Local))
        } else if name == "remote"@ {
            Some(Some(Environment::Remote))
        } else {
            None
        },
    }
}

// ---------------------------------------------------------------------------
// Rows.

/// The record of one test.
#[derive(Debug, Clone, PartialEq, Eq)]
pub struct ListRow {
    pub key: u64,
    pub target: String,
    pub name: String,
    pub variant: String,
    pub p50_ms: Option<u64>,
    pub p95_ms: Option<u64>,
    pub runs: u64,
    pub failures: u64,
}

/// The record of one test as a mathematical value.
pub struct RowView {
    pub key: u64,
    pub target: Seq<char>,
    pub name: Seq<char>,
    pub variant: Seq<char>,
    pub p50_ms: Option<u64>,
    pub p95_ms: Option<u64>,
    pub runs: u64,
    pub failures: u64,
}

impl View for ListRow {
    type V = RowView;

    open spec fn view(&self) -> RowView {
        RowView {
            key: self.key,
            target: self.target@,
            name: self.name@,
            variant: self.variant@,
            p50_ms: self.p50_ms,
            p95_ms: self.p95_ms,
            runs: self.runs,
            failures: self.failures,
        }
    }
}

/// Rows as mathematical values.
pub open spec fn row_views(rows: Seq<ListRow>) -> Seq<RowView> {
    Seq::new(rows.len(), |i: int| rows[i]@)
}

/// What stands for a test whose name is not known.
pub open spec fn unknown_target(key: u64) -> Seq<char> {
    "<unknown:0x"@ + text::short_hex(key as nat) + ">"@
}

/// What stands in a row for the name behind a key.
pub open spec fn shown_identity(db: DbView, key: u64) -> IdentityView {
    if db.names.contains_key(key) {
        db.names[key]
    } else {
        IdentityView {
            target: unknown_target(key),
            name: Seq::empty(),
            variant: Seq::empty(),
        }
    }
}

/// The record behind a key, in one environment or in both.
pub open spec fn row_of(db: DbView, env: Option<Environment>, key: u64) -> RowView {
    let id = shown_identity(db, key);
    let estimate = duration_db::estimate_from(db.samples(env, key));
    let flake = db.flakes(env, key);
    RowView {
        key,
        target: id.target,
        name: id.name,
        variant: id.variant,
        p50_ms: match estimate {
            DurationEstimate::Measured { p50_ms, p95_ms } => Some(p50_ms),
            DurationEstimate::Unseen => None,
        },
        p95_ms: match estimate {
            DurationEstimate::Measured { p50_ms, p95_ms } => Some(p95_ms),
            DurationEstimate::Unseen => None,
        },
        runs: match flake {
            Some(flake) => flake.runs,
            None => 0,
        },
        failures: match flake {
            Some(flake) => flake.failures,
            None => 0,
        },
    }
}

/// Whether a text holds the text that is asked for.
pub open spec fn holds(s: Seq<char>, pattern: Option<Seq<char>>) -> bool {
    match pattern {
        Some(pattern) => text::find_text(s, pattern, 0) is Some,
        None => true,
    }
}

/// The records behind the first `n` keys whose target and name are asked for.
pub open spec fn listed_rows(
    db: DbView,
    env: Option<Environment>,
    target: Option<Seq<char>>,
    name: Option<Seq<char>>,
    keys: Seq<u64>,
    n: nat,
) -> Seq<RowView>
    decreases n,
{
    if n == 0 {
        Seq::empty()
    } else {
        let before = listed_rows(db, env, target, name, keys, (n - 1) as nat);
        let id = shown_identity(db, keys[n - 1]);
        if holds(id.target, target) && holds(id.name, name) {
            before.push(row_of(db, env, keys[n - 1]))
        } else {
            before
        }
    }
}

/// Whether keys are all keys of a history, in order.
pub open spec fn are_all_keys(db: DbView, keys: Seq<u64>) -> bool {
    &&& forall|i: int, j: int| 0 <= i < j < keys.len() ==> keys[i] < keys[j]
    &&& forall|k: u64| keys.contains(k) <==> #[trigger] db.has_key(k)
}

fn text_holds(s: &str, pattern: &Option<String>) -> (r: bool)
    ensures
        r == holds(
            s@,
            match *pattern {
                Some(pattern) => Some(pattern@),
                None => None,
            },
        ),
{
    match pattern {
        Some(pattern) => {
            let cs: Vec<char> = chars_of(s);
            let pat: Vec<char> = chars_of(pattern.as_str());
            find_text_chars(cs.as_slice(), pat.as_slice(), 0).is_some()
        },
        None => true,
    }
}

fn unknown_target_text(key: u64) -> (r: String)
    ensures
        r@ == unknown_target(key),
{
    let mut digits: Vec<char> = Vec::new();
    push_short_hex(&mut digits, key);
    proof {
        assert(digits@ =~= text::short_hex(key as nat));
    }
    let mut out: String = "<unknown:0x".to_owned();
    out.push_str(string_of(digits.as_slice()).as_str());
    out.push_str(">");
    out
}

fn make_row(db: &DurationDb, env: Option<Environment>, key: u64) -> (r: ListRow)
    ensures
        r@ == row_of(db@, env, key),
{
    let (target, name, variant): (String, String, String) = match db.get_name(key) {
        Some(id) => (id.target.clone(), id.name.clone(), id.variant.label()),
        None => (unknown_target_text(key), String::new(), String::new()),
    };
    let (p50_ms, p95_ms): (Option<u64>, Option<u64>) = match db.estimate_by_key(env, key) {
        DurationEstimate::Measured { p50_ms, p95_ms } => (Some(p50_ms), Some(p95_ms)),
        DurationEstimate::Unseen => (None, None),
    };
    let (runs, failures): (u64, u64) = match db.get_flake_record(env, key) {
        Some(flake) => (flake.runs, flake.failures),
        None => (0, 0),
    };
    ListRow { key, target, name, variant, p50_ms, p95_ms, runs, failures }
}

/// The view of a text that may be absent.
pub open spec fn seen(s: Option<String>) -> Option<Seq<char>> {
    match s {
        Some(s) => Some(s@),
        None => None,
    }
}

/// The records of a history that are asked for, by key.
pub fn list_rows(
    db: &DurationDb,
    env: Option<Environment>,
    target: &Option<String>,
    name: &Option<String>,
) -> (r: Vec<ListRow>)
    ensures
        exists|keys: Seq<u64>|
            are_all_keys(db@, keys) && row_views(r@) == #[trigger] listed_rows(
                db@,
                env,
                seen(*target),
                seen(*name),
                keys,
                keys.len(),
            ),
{
    let keys: Vec<u64> = db.all_keys();
    let mut rows: Vec<ListRow> = Vec::new();
    let mut i: usize = 0;
    proof {
        assert(row_views(rows@) =~= Seq::<RowView>::empty());
    }
    while i < keys.len()
        invariant
            i <= keys.len(),
            row_views(rows@) == listed_rows(
                db@,
                env,
                seen(*target),
                seen(*name),
                keys@,
                i as nat,
            ),
        decreases keys.len() - i,
    {
        let row: ListRow = make_row(db, env, keys[i]);
        let ghost before = rows@;
        if text_holds(row.target.as_str(), target) && text_holds(row.name.as_str(), name) {
            rows.push(row);
            proof {
                assert(row_views(rows@) =~= row_views(before).push(row@));
            }
        }
        i += 1;
    }
    proof {
        assert(are_all_keys(db@, keys@));
    }
    rows
}

// ---------------------------------------------------------------------------
// Statistics.

/// Counts over a whole history.
#[derive(Debug, Clone, Copy, PartialEq, Eq)]
pub struct DbStats {
    pub keys: usize,
    pub named: usize,
    pub runs: u128,
    pub failures: u128,
}

/// How many of the first `n` keys have a name.
pub open spec fn named_keys(db: DbView, keys: Seq<u64>, n: nat) -> nat
    decreases n,
{
    if n == 0 {
        0
    } else {
        named_keys(db, keys, (n - 1) as nat) + if db.names.contains_key(keys[n - 1]) {
            1nat
        } else {
            0nat
        }
    }
}

/// The runs behind the first `n` keys.
pub open spec fn total_runs(db: DbView, keys: Seq<u64>, n: nat) -> nat
    decreases n,
{
    if n == 0 {
        0
    } else {
        total_runs(db, keys, (n - 1) as nat) + match db.flakes(None, keys[n - 1]) {
            Some(flake) => flake.runs as nat,
            None => 0,
        }
    }
}

/// The failures behind the first `n` keys.
pub open spec fn total_failures(db: DbView, keys: Seq<u64>, n: nat) -> nat
    decreases n,
{
    if n == 0 {
        0
    } else {
        total_failures(db, keys, (n - 1) as nat) + match db.flakes(None, keys[n - 1]) {
            Some(flake) => flake.failures as nat,
            None => 0,
        }
    }
}

/// Whether counts are those of a history.
pub open spec fn are_stats(db: DbView, keys: Seq<u64>, s: DbStats) -> bool {
    &&& s.keys == keys.len()
    &&& s.named == named_keys(db, keys, keys.len())
    &&& s.runs == total_runs(db, keys, keys.len())
    &&& s.failures == total_failures(db, keys, keys.len())
}

/// Whether counts are those over all keys of a history.
pub open spec fn sums_up(db: DbView, s: DbStats) -> bool {
    exists|keys: Seq<u64>| are_all_keys(db, keys) && #[trigger] are_stats(db, keys, s)
}

/// Counts over a whole history.
pub fn db_stats(db: &DurationDb) -> (r: DbStats)
    ensures
        sums_up(db@, r),
{
    let keys: Vec<u64> = db.all_keys();
    let mut named: usize = 0;
    let mut runs: u128 = 0;
    let mut failures: u128 = 0;
    let mut i: usize = 0;
    while i < keys.len()
        invariant
            i <= keys.len(),
            named <= i,
            named == named_keys(db@, keys@, i as nat),
            runs == total_runs(db@, keys@, i as nat),
            runs <= i * u64::MAX,
            failures == total_failures(db@, keys@, i as nat),
            failures <= i * u64::MAX,
        decreases keys.len() - i,
    {
        proof {
            assert(i * u64::MAX <= usize::MAX * u64::MAX) by (nonlinear_arith)
                requires
                    i <= usize::MAX,
            ;
            assert((i + 1) * u64::MAX == i * u64::MAX + u64::MAX) by (nonlinear_arith);
        }
        if db.get_name(keys[i]).is_some() {
            named += 1;
        }
        if let Some(flake) = db.get_flake_record(None, keys[i]) {
            runs += flake.runs as u128;
            failures += flake.failures as u128;
        }
        i += 1;
    }
    let stats = DbStats { keys: keys.len(), named, runs, failures };
    proof {
        assert(are_all_keys(db@, keys@));
        assert(are_stats(db@, keys@, stats));
    }
    stats
}

/// The statistics as text. `size` is the size on disk, as it is shown.
pub fn stats_text(place: &str, size: &str, stats: &DbStats) -> (r: String)
    ensures
        r@ == "Database directory: "@ + place@ + "\nTotal size on disk:  "@ + size@
            + "\nTotal distinct keys: "@ + text::decimal(stats.keys as nat)
            + "\nNamed test records:  "@ + text::decimal(stats.named as nat)
            + "\nTotal test runs:     "@ + text::decimal(stats.runs as nat)
            + "\nTotal failures:      "@ + text::decimal(stats.failures as nat) + "\n"@,
{
    let mut out: String = "Database directory: ".to_owned();
    out.push_str(place);
    out.push_str("\nTotal size on disk:  ");
    out.push_str(size);
    out.push_str("\nTotal distinct keys: ");
    out.push_str(wide_decimal_text(stats.keys as u128).as_str());
    out.push_str("\nNamed test records:  ");
    out.push_str(wide_decimal_text(stats.named as u128).as_str());
    out.push_str("\nTotal test runs:     ");
    out.push_str(wide_decimal_text(stats.runs).as_str());
    out.push_str("\nTotal failures:      ");
    out.push_str(wide_decimal_text(stats.failures).as_str());
    out.push_str("\n");
    out
}

// ---------------------------------------------------------------------------
// What a command finds.

/// What a command finds in a history.
#[derive(Debug)]
pub enum DbReport {
    Stats(DbStats),
    /// The rows by key, and how they are to be shown.
    Rows { rows: Vec<ListRow>, sort: SortKey, json: bool },
}

/// The complaint about a command, if there is one. A wrong environment goes before
/// a wrong sort key.
pub open spec fn command_error(command: DbCommand) -> Option<Seq<char>> {
    match command {
        DbCommand::Stats => None,
        DbCommand::List { sort, env, target, name, format } => if env_filter(seen(env)) is None {
            Some("Invalid env '"@ + env->0@ + "': expected 'local' or 'remote'"@)
        } else if sort_key(sort@) is None {
            Some("Invalid sort option '"@ + sort@ + "'"@)
        } else {
            None
        },
    }
}

/// Whether a report is what a command asks for.
pub open spec fn is_report(db: DbView, command: DbCommand, report: DbReport) -> bool {
    match command {
        DbCommand::Stats => report matches DbReport::Stats(stats) && sums_up(db, stats),
        DbCommand::List { sort, env, target, name, format } => {
            &&& report matches DbReport::Rows { rows, sort: key, json }
            &&& sort_key(sort@) == Some(key)
            &&& json == (format@ == "json"@)
            &&& env_filter(seen(env)) matches Some(filter)
            &&& exists|keys: Seq<u64>|
                are_all_keys(db, keys) && row_views(rows@) == #[trigger] listed_rows(
                    db,
                    filter,
                    seen(target),
                    seen(name),
                    keys,
                    keys.len(),
                )
        },
    }
}

fn read_env(env: &Option<String>) -> (r: Option<Option<Environment>>)
    ensures
        r == env_filter(seen(*env)),
{
    match env {
        None => Some(None),
        Some(name) => {
            if str_eq(name.as_str(), "local") {
                Some(Some(Environment::Local))
            } else if str_eq(name.as_str(), "remote") {
                Some(Some(Environment::Remote))
            } else {
                None
            }
        },
    }
}

/// Looks into a history.
pub fn run_db_command(cli: &DbCli, db: &DurationDb) -> (r: Result<DbReport, String>)
    ensures
        r is Ok <==> command_error(cli.command) is None,
        r matches Err(error) ==> command_error(cli.command) == Some(error@),
        r matches Ok(report) ==> is_report(db@, cli.command, report),
{
    match &cli.command {
        DbCommand::Stats => Ok(DbReport::Stats(db_stats(db))),
        DbCommand::List { sort, env, target, name, format } => {
            let filter: Option<Environment> = match read_env(env) {
                Some(filter) => filter,
                None => {
                    let mut error: String = "Invalid env '".to_owned();
                    if let Some(env) = env {
                        error.push_str(env.as_str());
                    }
                    error.push_str("': expected 'local' or 'remote'");
                    return Err(error);
                },
            };
            let key: SortKey = match read_sort_key(sort.as_str()) {
                Some(key) => key,
                None => {
                    let mut error: String = "Invalid sort option '".to_owned();
                    error.push_str(sort.as_str());
                    error.push_str("'");
                    return Err(error);
                },
            };
            let rows: Vec<ListRow> = list_rows(db, filter, target, name);
            let ghost found = rows@;
            let json: bool = str_eq(format.as_str(), "json");
            let report = DbReport::Rows { rows, sort: key, json };
            proof {
                let keys = choose|keys: Seq<u64>|
                    are_all_keys(db@, keys) && row_views(found) == #[trigger] listed_rows(
                        db@,
                        filter,
                        seen(*target),
                        seen(*name),
                        keys,
                        keys.len(),
                    );
                assert(row_views(report->rows@) == listed_rows(
                    db@,
                    filter,
                    seen(*target),
                    seen(*name),
                    keys,
                    keys.len(),
                ));
                assert(is_report(db@, cli.command, report));
            }
            Ok(report)
        },
    }
}

// ---------------------------------------------------------------------------
// The order of rows.

/// A row with its flake rate: a number by which rates are ordered, and the rate as
/// it is shown.
#[derive(Debug, Clone, PartialEq, Eq)]
pub struct RatedRow {
    pub row: ListRow,
    pub rate: u64,
    pub rate_text: String,
}

/// A number that may be missing; a missing one counts as zero.
pub open spec fn or_zero(n: Option<u64>) -> u64 {
    match n {
        Some(n) => n,
        None => 0,
    }
}

/// Whether two texts stand in order; where the first ones are equal, the second
/// ones decide.
pub open spec fn in_order(a: Seq<char>, a2: Seq<char>, b: Seq<char>, b2: Seq<char>) -> bool {
    text::text_lt(a, b) || (a == b && !text::text_lt(b2, a2))
}

/// Whether row `a` may stand before row `b`: texts ascend, numbers descend.
pub open spec fn may_precede(sort: SortKey, a: RatedRow, b: RatedRow) -> bool {
    match sort {
        SortKey::Target => in_order(a.row.target@, a.row.name@, b.row.target@, b.row.name@),
        SortKey::Name => in_order(a.row.name@, a.row.target@, b.row.name@, b.row.target@),
        SortKey::P50 => or_zero(a.row.p50_ms) >= or_zero(b.row.p50_ms),
        SortKey::P95 => or_zero(a.row.p95_ms) >= or_zero(b.row.p95_ms),
        SortKey::Runs => a.row.runs >= b.row.runs,
        SortKey::Failures => a.row.failures >= b.row.failures,
        SortKey::FlakeRate => a.rate >= b.rate,
    }
}

/// Whether the row at `p` goes before the one at `q`: by the sort key, and as they
/// stand where that does not decide.
pub open spec fn goes_before(sort: SortKey, rows: Seq<RatedRow>, p: int, q: int) -> bool {
    may_precede(sort, rows[p], rows[q]) && (may_precede(sort, rows[q], rows[p]) ==> p < q)
}

/// Whether places name every row once, in order.
pub open spec fn is_arrangement(sort: SortKey, rows: Seq<RatedRow>, places: Seq<int>) -> bool {
    &&& places.len() == rows.len()
    &&& forall|i: int| 0 <= i < places.len() ==> 0 <= #[trigger] places[i] < rows.len()
    &&& forall|i: int, j: int|
        0 <= i < j < places.len() ==> goes_before(
            sort,
            rows,
            #[trigger] places[i],
            #[trigger] places[j],
        )
}

/// Whether rows are those that were given, sorted, with equal ones as they stood.
pub open spec fn are_sorted_rows(sort: SortKey, rows: Seq<RatedRow>, r: Seq<RatedRow>) -> bool {
    exists|places: Seq<int>| #[trigger]
        is_arrangement(sort, rows, places) && r.len() == rows.len() && forall|i: int|
            0 <= i < r.len() ==> #[trigger] r[i] == rows[places[i]]
}

/// In an arrangement no row stands twice, so every row stands somewhere.
pub proof fn law_sorting_keeps_every_row(sort: SortKey, rows: Seq<RatedRow>, places: Seq<int>)
    requires
        is_arrangement(sort, rows, places),
    ensures
        places.no_duplicates(),
        forall|p: int| 0 <= p < rows.len() ==> #[trigger] places.contains(p),
{
    assert(places.no_duplicates());
    let all = Set::<int>::range(0, rows.len() as int);
    places.unique_seq_to_set();
    vstd::set_lib::lemma_int_range(0, rows.len() as int);
    assert(places.to_set().subset_of(all));
    vstd::set_lib::lemma_subset_equality(places.to_set(), all);
    assert forall|p: int| 0 <= p < rows.len() implies #[trigger] places.contains(p) by {
        assert(all.contains(p));
        assert(places.to_set().contains(p));
    }
}

proof fn lemma_in_order(
    a: Seq<char>,
    a2: Seq<char>,
    b: Seq<char>,
    b2: Seq<char>,
    c: Seq<char>,
    c2: Seq<char>,
)
    ensures
        in_order(a, a2, b, b2) || in_order(b, b2, a, a2),
        in_order(a, a2, b, b2) && in_order(b, b2, c, c2) ==> in_order(a, a2, c, c2),
{
    text::lemma_text_lt_total(a, b);
    text::lemma_text_lt_total(b, a);
    text::lemma_text_lt_total(a2, b2);
    text::lemma_text_lt_total(b2, c2);
    text::lemma_text_lt_total(c2, a2);
    if text::text_lt(a, b) && text::text_lt(b, c) {
        text::lemma_text_lt_transitive(a, b, c);
    }
    if a == b && b == c && text::text_lt(c2, a2) {
        if text::text_lt(a2, b2) {
            text::lemma_text_lt_transitive(c2, a2, b2);
        }
        if text::text_lt(b2, c2) {
            text::lemma_text_lt_transitive(b2, c2, a2);
        }
    }
}

proof fn lemma_may_precede(sort: SortKey, a: RatedRow, b: RatedRow, c: RatedRow)
    ensures
        may_precede(sort, a, b) || may_precede(sort, b, a),
        may_precede(sort, a, b) && may_precede(sort, b, c) ==> may_precede(sort, a, c),
{
    let x = (a.row.target@, a.row.name@);
    let y = (b.row.target@, b.row.name@);
    let z = (c.row.target@, c.row.name@);
    lemma_in_order(x.0, x.1, y.0, y.1, z.0, z.1);
    lemma_in_order(x.1, x.0, y.1, y.0, z.1, z.0);
}

fn texts_in_order(a: &str, a2: &str, b: &str, b2: &str) -> (r: bool)
    ensures
        r == in_order(a@, a2@, b@, b2@),
{
    text_less(a, b) || (str_eq(a, b) && !text_less(b2, a2))
}

fn number_or_zero(n: Option<u64>) -> (r: u64)
    ensures
        r == or_zero(n),
{
    match n {
        Some(n) => n,
        None => 0,
    }
}

fn precedes(sort: SortKey, a: &RatedRow, b: &RatedRow) -> (r: bool)
    ensures
        r == may_precede(sort, *a, *b),
{
    match sort {
        SortKey::Target => texts_in_order(
            a.row.target.as_str(),
            a.row.name.as_str(),
            b.row.target.as_str(),
            b.row.name.as_str(),
        ),
        SortKey::Name => texts_in_order(
            a.row.name.as_str(),
            a.row.target.as_str(),
            b.row.name.as_str(),
            b.row.target.as_str(),
        ),
        SortKey::P50 => number_or_zero(a.row.p50_ms) >= number_or_zero(b.row.p50_ms),
        SortKey::P95 => number_or_zero(a.row.p95_ms) >= number_or_zero(b.row.p95_ms),
        SortKey::Runs => a.row.runs >= b.row.runs,
        SortKey::Failures => a.row.failures >= b.row.failures,
        SortKey::FlakeRate => a.rate >= b.rate,
    }
}

impl RatedRow {
    /// An equal copy.
    pub fn duplicate(&self) -> (r: RatedRow)
        ensures
            r == *self,
    {
        RatedRow {
            row: ListRow {
                key: self.row.key,
                target: self.row.target.clone(),
                name: self.row.name.clone(),
                variant: self.row.variant.clone(),
                p50_ms: self.row.p50_ms,
                p95_ms: self.row.p95_ms,
                runs: self.row.runs,
                failures: self.row.failures,
            },
            rate: self.rate,
            rate_text: self.rate_text.clone(),
        }
    }
}

/// Places as mathematical integers.
spec fn as_places(order: Seq<usize>) -> Seq<int> {
    Seq::new(order.len(), |i: int| order[i] as int)
}

/// Whether places name the first `n` rows in order.
spec fn arranged_upto(sort: SortKey, rows: Seq<RatedRow>, order: Seq<usize>, n: int) -> bool {
    &&& order.len() == n
    &&& forall|i: int| 0 <= i < n ==> #[trigger] order[i] < n
    &&& forall|i: int, j: int|
        0 <= i < j < n ==> goes_before(
            sort,
            rows,
            #[trigger] order[i] as int,
            #[trigger] order[j] as int,
        )
}

fn place_row(sort: SortKey, rows: &Vec<RatedRow>, order: &mut Vec<usize>, n: usize)
    requires
        n < rows@.len(),
        arranged_upto(sort, rows@, old(order)@, n as int),
    ensures
        arranged_upto(sort, rows@, final(order)@, n + 1),
{
    let ghost before = order@;
    let mut at: usize = order.len();
    while at > 0 && !precedes(sort, &rows[order[at - 1]], &rows[n])
        invariant
            at <= order.len(),
            order@ == before,
            n < rows@.len(),
            arranged_upto(sort, rows@, before, n as int),
            forall|k: int|
                at <= k < before.len() ==> !may_precede(
                    sort,
                    rows@[#[trigger] before[k] as int],
                    rows@[n as int],
                ),
        decreases at,
    {
        at -= 1;
    }
    order.insert(at, n);
    proof {
        let after = order@;
        assert(after == before.insert(at as int, n));
        assert forall|i: int, j: int| 0 <= i < j < n + 1 implies goes_before(
            sort,
            rows@,
            #[trigger] after[i] as int,
            #[trigger] after[j] as int,
        ) by {
            let item = rows@[n as int];
            if j == at {
                let last = before[at - 1] as int;
                assert(may_precede(sort, rows@[last], item));
                let x = before[i] as int;
                if i < at - 1 {
                    assert(goes_before(sort, rows@, before[i] as int, before[at - 1] as int));
                    lemma_may_precede(sort, rows@[x], rows@[last], item);
                }
                assert(x < n);
            } else if i == at {
                let y = before[j - 1] as int;
                assert(!may_precede(sort, rows@[y], item));
                lemma_may_precede(sort, rows@[y], item, item);
            } else {
                let x = if i < at {
                    i
                } else {
                    i - 1
                };
                let y = if j < at {
                    j
                } else {
                    j - 1
                };
                assert(goes_before(sort, rows@, before[x] as int, before[y] as int));
            }
        }
        assert forall|i: int| 0 <= i < n + 1 implies #[trigger] after[i] < n + 1 by {
            if i < at {
                assert(before[i] < n);
            } else if i > at {
                assert(before[i - 1] < n);
            }
        }
    }
}

/// Sorts rows; rows that are equal under the sort key keep their order.
pub fn sort_rows(sort: SortKey, rows: Vec<RatedRow>) -> (r: Vec<RatedRow>)
    ensures
        are_sorted_rows(sort, rows@, r@),
{
    let mut order: Vec<usize> = Vec::new();
    let mut n: usize = 0;
    while n < rows.len()
        invariant
            n <= rows.len(),
            arranged_upto(sort, rows@, order@, n as int),
        decreases rows.len() - n,
    {
        place_row(sort, &rows, &mut order, n);
        n += 1;
    }
    let ghost places = as_places(order@);
    let mut out: Vec<RatedRow> = Vec::new();
    let mut i: usize = 0;
    while i < order.len()
        invariant
            i <= order.len(),
            order.len() == rows.len(),
            places == as_places(order@),
            forall|k: int| 0 <= k < order.len() ==> #[trigger] order@[k] < rows@.len(),
            out@.len() == i,
            forall|k: int| 0 <= k < i ==> #[trigger] out@[k] == rows@[places[k]],
        decreases order.len() - i,
    {
        out.push(rows[order[i]].duplicate());
        i += 1;
    }
    proof {
        assert(is_arrangement(sort, rows@, places)) by {
            assert forall|i: int, j: int| 0 <= i < j < places.len() implies goes_before(
                sort,
                rows@,
                #[trigger] places[i],
                #[trigger] places[j],
            ) by {
                assert(goes_before(sort, rows@, order@[i] as int, order@[j] as int));
            }
        }
    }
    out
}

// ---------------------------------------------------------------------------
// The table.

/// The columns of the table.
pub const COLUMNS: usize = 8;

/// The titles of the columns.
pub open spec fn titles() -> Seq<Seq<char>> {
    seq![
        "Target"@,
        "Test Name"@,
        "Variant"@,
        "p50 (ms)"@,
        "p95 (ms)"@,
        "Runs"@,
        "Failures"@,
        "Flake %"@,
    ]
}

/// A number that may be missing, as it is shown.
pub open spec fn shown_number(n: Option<u64>) -> Seq<char> {
    match n {
        Some(n) => text::decimal(n as nat),
        None => "N/A"@,
    }
}

/// What the columns show of a row.
pub open spec fn cells(r: RatedRow) -> Seq<Seq<char>> {
    seq![
        r.row.target@,
        r.row.name@,
        r.row.variant@,
        shown_number(r.row.p50_ms),
        shown_number(r.row.p95_ms),
        text::decimal(r.row.runs as nat),
        text::decimal(r.row.failures as nat),
        r.rate_text@,
    ]
}

/// How wide a row makes a column: as many bytes as the cell has, four for a number
/// that is missing.
pub open spec fn cell_width(r: RatedRow, column: int) -> nat {
    if (column == 3 && r.row.p50_ms is None) || (column == 4 && r.row.p95_ms is None) {
        4
    } else {
        encode_utf8(cells(r)[column]).len()
    }
}

/// How wide the title and the first `n` rows make a column.
pub open spec fn column_width(rows: Seq<RatedRow>, column: int, n: nat) -> nat
    decreases n,
{
    if n == 0 {
        encode_utf8(titles()[column]).len()
    } else {
        let before = column_width(rows, column, (n - 1) as nat);
        let cell = cell_width(rows[n - 1], column);
        if cell > before {
            cell
        } else {
            before
        }
    }
}

/// A character `n` times.
pub open spec fn repeated(c: char, n: nat) -> Seq<char> {
    Seq::new(n, |i: int| c)
}

/// A cell filled up with spaces: numbers stand at the right, texts at the left.
pub open spec fn padded(cell: Seq<char>, width: nat, column: int) -> Seq<char> {
    let fill = if width > cell.len() {
        repeated(' ', (width - cell.len()) as nat)
    } else {
        Seq::empty()
    };
    if column >= 3 {
        fill + cell
    } else {
        cell + fill
    }
}

/// The first `n` cells of a line.
pub open spec fn line_upto(cells: Seq<Seq<char>>, widths: Seq<nat>, n: nat) -> Seq<char>
    decreases n,
{
    if n == 0 {
        Seq::empty()
    } else {
        line_upto(cells, widths, (n - 1) as nat) + padded(cells[n - 1], widths[n - 1], n - 1) + " "@
    }
}

/// A line of the table.
pub open spec fn table_line(cells: Seq<Seq<char>>, widths: Seq<nat>) -> Seq<char> {
    line_upto(cells, widths, COLUMNS as nat) + "\n"@
}

/// The lines of the first `n` rows.
pub open spec fn table_lines(rows: Seq<RatedRow>, widths: Seq<nat>, n: nat) -> Seq<char>
    decreases n,
{
    if n == 0 {
        Seq::empty()
    } else {
        table_lines(rows, widths, (n - 1) as nat) + table_line(cells(rows[n - 1]), widths)
    }
}

/// The widths of the columns.
pub open spec fn table_widths(rows: Seq<RatedRow>) -> Seq<nat> {
    Seq::new(COLUMNS as nat, |c: int| column_width(rows, c, rows.len()))
}

/// Rows as a table: the titles, a line of dashes, the rows.
pub open spec fn table(rows: Seq<RatedRow>) -> Seq<char> {
    if rows.len() == 0 {
        "No records found.\n"@
    } else {
        let widths = table_widths(rows);
        table_line(titles(), widths) + table_line(
            Seq::new(COLUMNS as nat, |c: int| repeated('-', widths[c])),
            widths,
        ) + table_lines(rows, widths, rows.len())
    }
}

fn title_texts() -> (r: Vec<String>)
    ensures
        text::views(r@) == titles(),
{
    let mut out: Vec<String> = Vec::new();
    out.push("Target".to_owned());
    out.push("Test Name".to_owned());
    out.push("Variant".to_owned());
    out.push("p50 (ms)".to_owned());
    out.push("p95 (ms)".to_owned());
    out.push("Runs".to_owned());
    out.push("Failures".to_owned());
    out.push("Flake %".to_owned());
    proof {
        assert(text::views(out@) =~= titles());
    }
    out
}

fn number_text(n: Option<u64>) -> (r: String)
    ensures
        r@ == shown_number(n),
{
    match n {
        Some(n) => decimal_text(n),
        None => "N/A".to_owned(),
    }
}

fn cell_texts(r: &RatedRow) -> (out: Vec<String>)
    ensures
        text::views(out@) == cells(*r),
{
    let mut out: Vec<String> = Vec::new();
    out.push(r.row.target.clone());
    out.push(r.row.name.clone());
    out.push(r.row.variant.clone());
    out.push(number_text(r.row.p50_ms));
    out.push(number_text(r.row.p95_ms));
    out.push(decimal_text(r.row.runs));
    out.push(decimal_text(r.row.failures));
    out.push(r.rate_text.clone());
    proof {
        assert(text::views(out@) =~= cells(*r));
    }
    out
}

fn width_of(rows: &Vec<RatedRow>, column: usize) -> (r: usize)
    requires
        column < COLUMNS,
    ensures
        r == column_width(rows@, column as int, rows@.len()),
{
    let names: Vec<String> = title_texts();
    proof {
        assert(text::views(names@).len() == names@.len());
        assert(text::views(names@)[column as int] == names@[column as int]@);
    }
    let mut width: usize = names[column].as_str().as_bytes().len();
    let mut i: usize = 0;
    while i < rows.len()
        invariant
            i <= rows.len(),
            column < COLUMNS,
            width == column_width(rows@, column as int, i as nat),
        decreases rows.len() - i,
    {
        let shown: Vec<String> = cell_texts(&rows[i]);
        proof {
            assert(text::views(shown@).len() == shown@.len());
            assert(text::views(shown@)[column as int] == shown@[column as int]@);
        }
        let missing: bool = (column == 3 && rows[i].row.p50_ms.is_none()) || (column == 4
            && rows[i].row.p95_ms.is_none());
        let cell: usize = if missing {
            4
        } else {
            shown[column].as_str().as_bytes().len()
        };
        if cell > width {
            width = cell;
        }
        i += 1;
    }
    width
}

fn push_repeated(out: &mut String, c: char, n: usize)
    ensures
        final(out)@ == old(out)@ + repeated(c, n as nat),
{
    let ghost before = out@;
    let mut i: usize = 0;
    proof {
        assert(out@ =~= before + repeated(c, 0));
    }
    while i < n
        invariant
            i <= n,
            out@ == before + repeated(c, i as nat),
        decreases n - i,
    {
        out.push(c);
        proof {
            assert(out@ =~= before + repeated(c, (i + 1) as nat));
        }
        i += 1;
    }
}

fn padded_text(cell: &str, width: usize, column: usize) -> (r: String)
    ensures
        r@ == padded(cell@, width as nat, column as int),
{
    let len: usize = chars_of(cell).len();
    let mut fill: String = String::new();
    if width > len {
        push_repeated(&mut fill, ' ', width - len);
        proof {
            assert(fill@ =~= repeated(' ', (width - len) as nat));
        }
    }
    if column >= 3 {
        fill.push_str(cell);
        fill
    } else {
        let mut out: String = cell.to_owned();
        out.push_str(fill.as_str());
        out
    }
}

spec fn as_widths(widths: Seq<usize>) -> Seq<nat> {
    Seq::new(widths.len(), |i: int| widths[i] as nat)
}

fn line_text(cells: &Vec<String>, widths: &Vec<usize>) -> (r: String)
    requires
        cells@.len() == COLUMNS,
        widths@.len() == COLUMNS,
    ensures
        r@ == table_line(text::views(cells@), as_widths(widths@)),
{
    let mut out: String = String::new();
    let mut i: usize = 0;
    while i < COLUMNS
        invariant
            i <= COLUMNS,
            cells@.len() == COLUMNS,
            widths@.len() == COLUMNS,
            out@ == line_upto(text::views(cells@), as_widths(widths@), i as nat),
        decreases COLUMNS - i,
    {
        out.push_str(padded_text(cells[i].as_str(), widths[i], i).as_str());
        out.push_str(" ");
        i += 1;
    }
    out.push_str("\n");
    out
}

/// Rows as a table.
pub fn table_text(rows: &Vec<RatedRow>) -> (r: String)
    ensures
        r@ == table(rows@),
{
    if rows.len() == 0 {
        return "No records found.\n".to_owned();
    }
    let mut widths: Vec<usize> = Vec::new();
    let mut dashes: Vec<String> = Vec::new();
    let mut c: usize = 0;
    while c < COLUMNS
        invariant
            c <= COLUMNS,
            widths@.len() == c,
            dashes@.len() == c,
            forall|k: int|
                0 <= k < c ==> #[trigger] widths@[k] == column_width(rows@, k, rows@.len()),
            forall|k: int|
                0 <= k < c ==> (#[trigger] dashes@[k])@ == repeated('-', widths@[k] as nat),
        decreases COLUMNS - c,
    {
        let width: usize = width_of(rows, c);
        let mut dash: String = String::new();
        push_repeated(&mut dash, '-', width);
        proof {
            assert(dash@ =~= repeated('-', width as nat));
        }
        widths.push(width);
        dashes.push(dash);
        c += 1;
    }
    let ghost all = table_widths(rows@);
    let names: Vec<String> = title_texts();
    proof {
        assert(as_widths(widths@) =~= all);
        assert(text::views(dashes@) =~= Seq::new(COLUMNS as nat, |c: int| repeated('-', all[c])));
        assert(text::views(names@).len() == names@.len());
    }
    let mut out: String = line_text(&names, &widths);
    out.push_str(line_text(&dashes, &widths).as_str());
    let mut lines: String = String::new();
    let mut i: usize = 0;
    while i < rows.len()
        invariant
            i <= rows.len(),
            widths@.len() == COLUMNS,
            as_widths(widths@) == all,
            lines@ == table_lines(rows@, all, i as nat),
        decreases rows.len() - i,
    {
        let shown: Vec<String> = cell_texts(&rows[i]);
        proof {
            assert(text::views(shown@).len() == shown@.len());
        }
        lines.push_str(line_text(&shown, &widths).as_str());
        i += 1;
    }
    out.push_str(lines.as_str());
    out
}

} // verus!

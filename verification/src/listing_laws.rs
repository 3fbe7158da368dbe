//! What the runner shows of a listing is what it reads of one.

use vstd::prelude::*;

use crate::json::{self, FieldsView, JsonView};
use crate::listing::{IgnoredPolicy, LocationView, TestCaseKind, TestCaseView};
use crate::text;
use crate::translator::{self, LibtestListOutputFormat, ListFormat};

verus! {

/// Whether a listing can show the tests: names are not empty and fill no more than
/// a line.
pub open spec fn showable(cases: Seq<TestCaseView>) -> bool {
    forall|i: int|
        0 <= i < cases.len() ==> (#[trigger] cases[i]).name.len() > 0 && !cases[i].name.contains(
            '\n',
        )
}

/// The tests without what a text listing does not say.
pub open spec fn plain_cases(cases: Seq<TestCaseView>) -> Seq<TestCaseView> {
    Seq::new(cases.len(), |i: int| translator::plain_case(cases[i].name, cases[i].kind))
}

/// The line of a test, without its end.
spec fn shown(case: TestCaseView) -> Seq<char> {
    case.name + match case.kind {
        TestCaseKind::Test => ": test"@,
        TestCaseKind::Benchmark => ": benchmark"@,
    }
}

spec fn all_shown(cases: Seq<TestCaseView>) -> Seq<Seq<char>> {
    Seq::new(cases.len(), |i: int| shown(cases[i]))
}

proof fn lemma_find_in_rest(s: Seq<char>, c: char, i: int)
    requires
        0 <= i <= s.len(),
    ensures
        text::find_from(s.skip(i), c, 0) + i == text::find_from(s, c, i),
{
    text::lemma_find_from(s.skip(i), c, 0);
    let at = text::find_from(s.skip(i), c, 0);
    assert forall|k: int| i <= k < at + i implies s[k] != c by {
        assert(s.skip(i)[k - i] == s[k]);
    }
    if at < s.skip(i).len() {
        assert(s.skip(i)[at] == s[at + i]);
    }
    text::lemma_find_from_is(s, c, i, at + i);
}

proof fn lemma_lines_of_rest(s: Seq<char>, i: int)
    requires
        0 <= i <= s.len(),
    ensures
        text::lines_from(s, i) == text::lines(s.skip(i)),
    decreases s.len() - i,
{
    let rest = s.skip(i);
    if i < s.len() {
        lemma_find_in_rest(s, '\n', i);
        text::lemma_find_from(s, '\n', i);
        let at = text::find_from(s, '\n', i);
        if at < s.len() {
            lemma_lines_of_rest(s, at + 1);
            lemma_lines_of_rest(rest, at - i + 1);
            assert(rest.skip(at - i + 1) =~= s.skip(at + 1));
            assert(rest.subrange(0, at - i) =~= s.subrange(i, at));
        } else {
            assert(rest.subrange(0, rest.len() as int) =~= s.subrange(i, s.len() as int));
        }
    }
}

/// A line, its end and a rest are read as the line and what the rest holds.
proof fn lemma_first_line(line: Seq<char>, rest: Seq<char>)
    requires
        !line.contains('\n'),
        line.len() > 0 ==> line.last() != '\r',
    ensures
        text::lines(line + seq!['\n'] + rest) == seq![line] + text::lines(rest),
{
    let s = line + seq!['\n'] + rest;
    assert forall|k: int| 0 <= k < line.len() implies s[k] != '\n' by {
        assert(s[k] == line[k]);
        assert(line.contains(line[k]));
    }
    text::lemma_find_from_is(s, '\n', 0, line.len() as int);
    assert(s.subrange(0, line.len() as int) =~= line);
    lemma_lines_of_rest(s, line.len() as int + 1);
    assert(s.skip(line.len() as int + 1) =~= rest);
}

proof fn lemma_text_lines_front(cases: Seq<TestCaseView>)
    requires
        cases.len() > 0,
    ensures
        translator::text_lines(cases) == translator::text_line(cases[0]) + translator::text_lines(
            cases.skip(1),
        ),
    decreases cases.len(),
{
    if cases.len() == 1 {
        assert(cases.drop_last() =~= Seq::<TestCaseView>::empty());
        assert(cases.skip(1) =~= Seq::<TestCaseView>::empty());
        assert(translator::text_lines(cases.drop_last()) =~= Seq::<char>::empty());
        assert(cases.last() == cases[0]);
        assert(translator::text_lines(cases) =~= translator::text_line(cases[0]));
        assert(translator::text_line(cases[0]) + Seq::<char>::empty() =~= translator::text_line(
            cases[0],
        ));
    } else {
        lemma_text_lines_front(cases.drop_last());
        assert(cases.drop_last().skip(1) =~= cases.skip(1).drop_last());
        assert(cases.skip(1).last() == cases.last());
        assert(translator::text_lines(cases) =~= translator::text_line(cases[0])
            + translator::text_lines(cases.skip(1)));
    }
}

proof fn lemma_shown(case: TestCaseView)
    requires
        case.name.len() > 0,
        !case.name.contains('\n'),
    ensures
        translator::text_line(case) == shown(case) + seq!['\n'],
        !shown(case).contains('\n'),
        shown(case).last() != '\r',
        translator::text_case(shown(case)) == Some(translator::plain_case(case.name, case.kind)),
{
    reveal_strlit(": test");
    reveal_strlit(": test\n");
    reveal_strlit(": benchmark");
    reveal_strlit(": benchmark\n");
    let line = shown(case);
    assert(translator::text_line(case) =~= line + seq!['\n']);
    let tail = line.skip(case.name.len() as int);
    assert forall|k: int| 0 <= k < line.len() implies line[k] != '\n' by {
        if k < case.name.len() {
            assert(line[k] == case.name[k]);
            assert(case.name.contains(case.name[k]));
        } else {
            assert(line[k] == tail[k - case.name.len()]);
        }
    }
    match case.kind {
        TestCaseKind::Test => {
            assert(line.last() == 't');
            assert(text::trim_end(line) == line);
            assert(": test"@.is_suffix_of(line));
            assert(line.take(line.len() - ": test"@.len()) =~= case.name);
        },
        TestCaseKind::Benchmark => {
            assert(line.last() == 'k');
            assert(text::trim_end(line) == line);
            assert(!": test"@.is_suffix_of(line)) by {
                assert(": test"@.last() == 't');
            }
            assert(": benchmark"@.is_suffix_of(line));
            assert(line.take(line.len() - ": benchmark"@.len()) =~= case.name);
        },
    }
}

proof fn lemma_all_lines(cases: Seq<TestCaseView>, tail: Seq<char>)
    requires
        showable(cases),
    ensures
        text::lines(translator::text_lines(cases) + tail) == all_shown(cases) + text::lines(tail),
    decreases cases.len(),
{
    if cases.len() == 0 {
        assert(translator::text_lines(cases) + tail =~= tail);
        assert(all_shown(cases) + text::lines(tail) =~= text::lines(tail));
    } else {
        let rest = cases.skip(1);
        assert forall|i: int| 0 <= i < rest.len() implies (#[trigger] rest[i]).name.len() > 0
            && !rest[i].name.contains('\n') by {
            assert(rest[i] == cases[i + 1]);
        }
        lemma_all_lines(rest, tail);
        lemma_text_lines_front(cases);
        lemma_shown(cases[0]);
        let more = translator::text_lines(rest) + tail;
        lemma_first_line(shown(cases[0]), more);
        assert(translator::text_lines(cases) + tail =~= shown(cases[0]) + seq!['\n'] + more);
        assert(seq![shown(cases[0])] + (all_shown(rest) + text::lines(tail)) =~= all_shown(cases)
            + text::lines(tail));
    }
}

proof fn lemma_read_back(
    cases: Seq<TestCaseView>,
    lines: Seq<Seq<char>>,
    policy: IgnoredPolicy,
    n: nat,
)
    requires
        showable(cases),
        n <= cases.len() <= lines.len(),
        lines.take(cases.len() as int) == all_shown(cases),
        policy.spec_selects(false),
    ensures
        translator::cases_in(ListFormat::Text, lines, policy, n) == plain_cases(cases).take(
            n as int,
        ),
    decreases n,
{
    if n > 0 {
        lemma_read_back(cases, lines, policy, (n - 1) as nat);
        assert(lines[n - 1] == lines.take(cases.len() as int)[n - 1]);
        lemma_shown(cases[n - 1]);
        assert(plain_cases(cases).take(n as int) =~= plain_cases(cases).take(n - 1).push(
            plain_cases(cases)[n - 1],
        ));
    } else {
        assert(plain_cases(cases).take(0) =~= Seq::<TestCaseView>::empty());
    }
}

/// The summary of a text listing, without the empty line before it and its end.
spec fn summary_line(cases: Seq<TestCaseView>) -> Seq<char> {
    translator::counted(
        translator::kind_count(cases, TestCaseKind::Test),
        "test"@,
        "tests"@,
    ) + ", "@ + translator::counted(
        translator::kind_count(cases, TestCaseKind::Benchmark),
        "benchmark"@,
        "benchmarks"@,
    )
}

proof fn lemma_counted(count: nat, one: Seq<char>, several: Seq<char>)
    requires
        one.len() > 0,
        several.len() > 0,
        !one.contains('\n'),
        !several.contains('\n'),
    ensures
        ({
            let s = translator::counted(count, one, several);
            let word = if count == 1 { one } else { several };
            &&& !s.contains('\n')
            &&& s.len() >= word.len() + 2
            &&& s.last() == word.last()
            &&& text::is_digit(s[s.len() - word.len() - 2])
            &&& s.skip(s.len() - word.len()) == word
        }),
{
    reveal_strlit(" ");
    text::lemma_decimal_reads_back(count);
    let s = translator::counted(count, one, several);
    let word = if count == 1 { one } else { several };
    let n = text::decimal(count);
    assert forall|k: int| 0 <= k < s.len() implies s[k] != '\n' by {
        if k < n.len() {
            assert(s[k] == n[k] && text::is_digit(n[k]));
        } else if k > n.len() {
            assert(s[k] == word[k - n.len() - 1]);
            assert(word.contains(word[k - n.len() - 1]));
        }
    }
    assert(s[n.len() - 1] == n[n.len() - 1]);
    assert(s.skip(s.len() - word.len()) =~= word);
}

/// The summary names no test.
proof fn lemma_summary(cases: Seq<TestCaseView>)
    ensures
        translator::text_summary(cases) == Seq::<char>::empty() + seq!['\n'] + (summary_line(cases)
            + seq!['\n'] + Seq::<char>::empty()),
        !summary_line(cases).contains('\n'),
        summary_line(cases).len() > 0,
        summary_line(cases).last() != '\r',
        translator::text_case(summary_line(cases)) is None,
        translator::text_case(Seq::<char>::empty()) is None,
{
    reveal_strlit("\n");
    reveal_strlit(", ");
    reveal_strlit("test");
    reveal_strlit("tests");
    reveal_strlit("benchmark");
    reveal_strlit("benchmarks");
    reveal_strlit(": test");
    reveal_strlit(": benchmark");
    let tests = translator::kind_count(cases, TestCaseKind::Test);
    let benchmarks = translator::kind_count(cases, TestCaseKind::Benchmark);
    lemma_counted(tests, "test"@, "tests"@);
    lemma_counted(benchmarks, "benchmark"@, "benchmarks"@);
    let head = translator::counted(tests, "test"@, "tests"@) + ", "@;
    let tail = translator::counted(benchmarks, "benchmark"@, "benchmarks"@);
    let line = summary_line(cases);
    assert(line =~= head + tail);
    assert(translator::text_summary(cases) =~= Seq::<char>::empty() + seq!['\n'] + (line
        + seq!['\n'] + Seq::<char>::empty()));
    assert forall|k: int| 0 <= k < line.len() implies line[k] != '\n' by {
        let first = translator::counted(tests, "test"@, "tests"@);
        if k < first.len() {
            assert(line[k] == first[k]);
            assert(first.contains(first[k]));
        } else if k >= head.len() {
            assert(line[k] == tail[k - head.len()]);
            assert(tail.contains(tail[k - head.len()]));
        }
    }
    assert(line.last() == tail.last());
    assert(text::trim_end(line) == line);
    assert(!": test"@.is_suffix_of(line)) by {
        assert(": test"@.last() == 't');
    }
    if ": benchmark"@.is_suffix_of(line) {
        let at = line.len() - ": benchmark"@.len();
        assert(line.subrange(at, line.len() as int) == ": benchmark"@);
        assert(line.subrange(at, line.len() as int)[0] == line[at]);
        assert(line.subrange(at, line.len() as int).last() == line.last());
        assert(": benchmark"@.last() == 'k');
        assert(line[at] == ':');
        assert(line[at] == tail[at - head.len()]);
        assert(false);
    }
    assert(text::trim_end(Seq::<char>::empty()) =~= Seq::<char>::empty());
}

/// Lines that name no test add none.
proof fn lemma_no_more(lines: Seq<Seq<char>>, policy: IgnoredPolicy, from: nat, to: nat)
    requires
        from <= to <= lines.len(),
        forall|k: int| from <= k < to ==> translator::text_case(#[trigger] lines[k]) is None,
    ensures
        translator::cases_in(ListFormat::Text, lines, policy, to) == translator::cases_in(
            ListFormat::Text,
            lines,
            policy,
            from,
        ),
    decreases to - from,
{
    if from < to {
        lemma_no_more(lines, policy, from, (to - 1) as nat);
        assert(translator::text_case(lines[to - 1]) is None);
    }
}

/// A text listing that the runner shows, with its summary or without one, reads as
/// the tests that it shows, in their order, with their names and kinds.
pub proof fn law_shown_tests_read_back(
    user: translator::UserArgsView,
    cases: Seq<TestCaseView>,
    policy: IgnoredPolicy,
)
    requires
        showable(cases),
        policy.spec_selects(false),
        translator::list_format_for(user.output_format) is Text,
    ensures
        translator::cases_of(ListFormat::Text, translator::list_output(user, cases), policy)
            == plain_cases(cases),
{
    let none = Seq::<char>::empty();
    assert(text::lines(none) =~= Seq::<Seq<char>>::empty());
    let tail = match translator::list_format_for(user.output_format) {
        LibtestListOutputFormat::Text { summary: true } => translator::text_summary(cases),
        _ => none,
    };
    let output = translator::text_lines(cases) + tail;
    lemma_summary(cases);
    lemma_all_lines(cases, tail);
    let more = text::lines(tail);
    if tail != none {
        let line = summary_line(cases);
        lemma_first_line(none, line + seq!['\n'] + none);
        lemma_first_line(line, none);
        assert(more =~= seq![none, line]);
    }
    let lines = text::lines(output);
    assert(lines =~= all_shown(cases) + more);
    assert(lines.take(cases.len() as int) =~= all_shown(cases));
    lemma_read_back(cases, lines, policy, cases.len());
    assert(plain_cases(cases).take(cases.len() as int) =~= plain_cases(cases));
    assert forall|k: int| cases.len() <= k < lines.len() implies translator::text_case(
        #[trigger] lines[k],
    ) is None by {
        assert(lines[k] == more[k - cases.len()]);
    }
    lemma_no_more(lines, policy, cases.len(), lines.len());
}

// ---------------------------------------------------------------------------
// JSON listings.

/// The tests that the policy runs, in order.
pub open spec fn selected(cases: Seq<TestCaseView>, policy: IgnoredPolicy) -> Seq<TestCaseView>
    decreases cases.len(),
{
    if cases.len() == 0 {
        Seq::empty()
    } else if policy.spec_selects(cases.last().ignored) {
        selected(cases.drop_last(), policy).push(cases.last())
    } else {
        selected(cases.drop_last(), policy)
    }
}

/// Whether every line of a listing that is not blank reads as what was written on it.
pub open spec fn lines_read_as_written(output: Seq<char>) -> bool {
    forall|k: int|
        0 <= k < text::lines(output).len() && text::trim(
            #[trigger] text::lines(output)[k],
        ).len() > 0 ==> json::reads_as_written(text::trim(text::lines(output)[k]))
}

/// Whether JSON strings hold the character as it is.
spec fn is_bare(c: char) -> bool {
    c != '"' && c != '\\' && c as int >= 32
}

proof fn lemma_bare(s: Seq<char>)
    requires
        forall|i: int| 0 <= i < s.len() ==> is_bare(#[trigger] s[i]),
    ensures
        json::json_escaped(s) == s,
        json::json_quoted(s) == seq!['"'] + s + seq!['"'],
    decreases s.len(),
{
    if s.len() > 0 {
        let front = s.drop_last();
        assert forall|i: int| 0 <= i < front.len() implies is_bare(#[trigger] front[i]) by {
            assert(front[i] == s[i]);
        }
        lemma_bare(front);
        assert(is_bare(s[s.len() - 1]));
        assert(json::json_escape(s.last()) =~= seq![s.last()]);
        assert(front + seq![s.last()] =~= s);
    }
}

/// No line ends inside a JSON string.
proof fn lemma_escaped_is_one_line(s: Seq<char>)
    ensures
        !json::json_escaped(s).contains('\n'),
        !json::json_quoted(s).contains('\n'),
    decreases s.len(),
{
    let e = json::json_escaped(s);
    if s.len() > 0 {
        lemma_escaped_is_one_line(s.drop_last());
        let front = json::json_escaped(s.drop_last());
        let c = s.last();
        let last = json::json_escape(c);
        assert forall|k: int| 0 <= k < last.len() implies last[k] != '\n' by {
            if (c as int) < 32 {
                lemma_hex_is_one_line(c as nat, 4);
                if last.len() > 2 && k >= 2 {
                    assert(last[k] == text::hex(c as nat, 4)[k - 2]);
                    assert(text::hex(c as nat, 4).contains(last[k]));
                }
            }
        }
        assert forall|k: int| 0 <= k < e.len() implies e[k] != '\n' by {
            if k < front.len() {
                assert(e[k] == front[k]);
                assert(front.contains(front[k]));
            } else {
                assert(e[k] == last[k - front.len()]);
            }
        }
    }
    let q = json::json_quoted(s);
    assert forall|k: int| 0 <= k < q.len() implies q[k] != '\n' by {
        if 0 < k < q.len() - 1 {
            assert(q[k] == e[k - 1]);
            assert(e.contains(e[k - 1]));
        }
    }
}

proof fn lemma_hex_is_one_line(n: nat, k: nat)
    ensures
        !text::hex(n, k).contains('\n'),
    decreases k,
{
    if k > 0 {
        lemma_hex_is_one_line(n / 16, (k - 1) as nat);
        let front = text::hex(n / 16, (k - 1) as nat);
        let h = text::hex(n, k);
        assert(text::hex_char(n % 16) != '\n');
        assert forall|i: int| 0 <= i < h.len() implies h[i] != '\n' by {
            if i < front.len() {
                assert(h[i] == front[i]);
                assert(front.contains(front[i]));
            }
        }
    }
}

/// A key behind a member, up to its value.
spec fn json_key(key: Seq<char>) -> Seq<char> {
    ", "@ + json::json_quoted(key) + ": "@
}

proof fn lemma_key_ignore()
    ensures
        json_key("ignore"@) == ", \"ignore\": "@,
        "ignore"@.len() == 6,
{
    reveal_strlit("ignore");
    reveal_strlit(", \"ignore\": ");
    reveal_strlit(", ");
    reveal_strlit(": ");
    lemma_bare("ignore"@);
    assert(json_key("ignore"@) =~= ", \"ignore\": "@);
}

proof fn lemma_key_ignore_message()
    ensures
        json_key("ignore_message"@) == ", \"ignore_message\": "@,
        "ignore_message"@.len() == 14,
{
    reveal_strlit("ignore_message");
    reveal_strlit(", \"ignore_message\": ");
    reveal_strlit(", ");
    reveal_strlit(": ");
    lemma_bare("ignore_message"@);
    assert(json_key("ignore_message"@) =~= ", \"ignore_message\": "@);
}

proof fn lemma_key_source_path()
    ensures
        json_key("source_path"@) == ", \"source_path\": "@,
        "source_path"@.len() == 11,
{
    reveal_strlit("source_path");
    reveal_strlit(", \"source_path\": ");
    reveal_strlit(", ");
    reveal_strlit(": ");
    lemma_bare("source_path"@);
    assert(json_key("source_path"@) =~= ", \"source_path\": "@);
}

proof fn lemma_key_start_line()
    ensures
        json_key("start_line"@) == ", \"start_line\": "@,
        "start_line"@.len() == 10,
{
    reveal_strlit("start_line");
    reveal_strlit(", \"start_line\": ");
    reveal_strlit(", ");
    reveal_strlit(": ");
    lemma_bare("start_line"@);
    assert(json_key("start_line"@) =~= ", \"start_line\": "@);
}

proof fn lemma_key_start_col()
    ensures
        json_key("start_col"@) == ", \"start_col\": "@,
        "start_col"@.len() == 9,
{
    reveal_strlit("start_col");
    reveal_strlit(", \"start_col\": ");
    reveal_strlit(", ");
    reveal_strlit(": ");
    lemma_bare("start_col"@);
    assert(json_key("start_col"@) =~= ", \"start_col\": "@);
}

proof fn lemma_key_end_line()
    ensures
        json_key("end_line"@) == ", \"end_line\": "@,
        "end_line"@.len() == 8,
{
    reveal_strlit("end_line");
    reveal_strlit(", \"end_line\": ");
    reveal_strlit(", ");
    reveal_strlit(": ");
    lemma_bare("end_line"@);
    assert(json_key("end_line"@) =~= ", \"end_line\": "@);
}

proof fn lemma_key_end_col()
    ensures
        json_key("end_col"@) == ", \"end_col\": "@,
        "end_col"@.len() == 7,
{
    reveal_strlit("end_col");
    reveal_strlit(", \"end_col\": ");
    reveal_strlit(", ");
    reveal_strlit(": ");
    lemma_bare("end_col"@);
    assert(json_key("end_col"@) =~= ", \"end_col\": "@);
}

proof fn lemma_key_benchmarks()
    ensures
        json_key("benchmarks"@) == ", \"benchmarks\": "@,
        "benchmarks"@.len() == 10,
{
    reveal_strlit("benchmarks");
    reveal_strlit(", \"benchmarks\": ");
    reveal_strlit(", ");
    reveal_strlit(": ");
    lemma_bare("benchmarks"@);
    assert(json_key("benchmarks"@) =~= ", \"benchmarks\": "@);
}

proof fn lemma_key_total()
    ensures
        json_key("total"@) == ", \"total\": "@,
        "total"@.len() == 5,
{
    reveal_strlit("total");
    reveal_strlit(", \"total\": ");
    reveal_strlit(", ");
    reveal_strlit(": ");
    lemma_bare("total"@);
    assert(json_key("total"@) =~= ", \"total\": "@);
}

proof fn lemma_key_ignored()
    ensures
        json_key("ignored"@) == ", \"ignored\": "@,
        "ignored"@.len() == 7,
{
    reveal_strlit("ignored");
    reveal_strlit(", \"ignored\": ");
    reveal_strlit(", ");
    reveal_strlit(": ");
    lemma_bare("ignored"@);
    assert(json_key("ignored"@) =~= ", \"ignored\": "@);
}

/// The fields of an object with one more at their end, as JSON.
proof fn lemma_one_more(fields: FieldsView, key: Seq<char>, v: JsonView)
    requires
        fields.len() > 0,
    ensures
        json::members_text(json::written_members(fields.push((key, v)))) == json::members_text(
            json::written_members(fields),
        ) + json_key(key) + json::value_text(v),
{
    let before = json::written_members(fields);
    let after = json::written_members(fields.push((key, v)));
    assert(after =~= before.push((key, json::value_text(v))));
    assert(after.drop_last() =~= before);
    assert(after.last() == (key, json::value_text(v)));
    assert(json::members_text(after) =~= json::members_text(before) + json_key(key)
        + json::value_text(v));
}

/// The value under a key, with one more member at the end.
proof fn lemma_member_pushed(fields: FieldsView, key: Seq<char>, v: JsonView, asked: Seq<char>)
    ensures
        json::member(fields.push((key, v)), asked) == (match json::member(fields, asked) {
            Some(found) => Some(found),
            None => if key == asked {
                Some(v)
            } else {
                None
            },
        }),
    decreases fields.len(),
{
    let more = fields.push((key, v));
    if fields.len() > 0 {
        lemma_member_pushed(fields.skip(1), key, v, asked);
        assert(more.skip(1) =~= fields.skip(1).push((key, v)));
    } else {
        assert(more[0] == (key, v));
        assert(more.skip(1).len() == 0);
        assert(json::member(more.skip(1), asked) is None);
    }
}

/// The name of a kind of test.
spec fn kind_text(kind: TestCaseKind) -> Seq<char> {
    match kind {
        TestCaseKind::Test => "test"@,
        TestCaseKind::Benchmark => "benchmark"@,
    }
}

/// The members that every test has.
spec fn head_fields(case: TestCaseView) -> FieldsView {
    seq![
        ("type"@, JsonView::Text(kind_text(case.kind))),
        ("event"@, JsonView::Text("discovered"@)),
        ("name"@, JsonView::Text(case.name)),
        ("ignore"@, JsonView::Bool(case.ignored)),
    ]
}

/// The members with the message of an ignored test.
spec fn message_fields(case: TestCaseView) -> FieldsView {
    match case.ignore_message {
        Some(message) => head_fields(case).push(("ignore_message"@, JsonView::Text(message))),
        None => head_fields(case),
    }
}

/// All members of a test.
spec fn case_fields(case: TestCaseView) -> FieldsView {
    match case.location {
        Some(l) => message_fields(case).push(("source_path"@, JsonView::Text(l.source_path))).push(
            ("start_line"@, JsonView::Count(l.start_line)),
        ).push(("start_col"@, JsonView::Count(l.start_col))).push(
            ("end_line"@, JsonView::Count(l.end_line)),
        ).push(("end_col"@, JsonView::Count(l.end_col))),
        None => message_fields(case),
    }
}

/// Members on a line of their own, without its end.
pub open spec fn object_line(fields: FieldsView) -> Seq<char> {
    json::object_text(json::written_members(fields))
}

proof fn lemma_head(case: TestCaseView)
    ensures
        "{ "@ + json::members_text(json::written_members(head_fields(case))) == "{ \"type\": \""@
            + kind_text(case.kind) + "\", \"event\": \"discovered\", \"name\": "@
            + json::json_quoted(case.name) + ", \"ignore\": "@ + (if case.ignored {
            "true"@
        } else {
            "false"@
        }),
{
    reveal_strlit("type");
    reveal_strlit("event");
    reveal_strlit("name");
    reveal_strlit("test");
    reveal_strlit("benchmark");
    reveal_strlit("discovered");
    reveal_strlit("{ ");
    reveal_strlit(", ");
    reveal_strlit(": ");
    reveal_strlit("{ \"type\": \"");
    reveal_strlit("\", \"event\": \"discovered\", \"name\": ");
    lemma_bare("type"@);
    lemma_bare("event"@);
    lemma_bare("name"@);
    lemma_bare("discovered"@);
    lemma_bare(kind_text(case.kind));
    lemma_key_ignore();
    let one: FieldsView = seq![("type"@, JsonView::Text(kind_text(case.kind)))];
    let two = one.push(("event"@, JsonView::Text("discovered"@)));
    let three = two.push(("name"@, JsonView::Text(case.name)));
    let four = three.push(("ignore"@, JsonView::Bool(case.ignored)));
    assert(four =~= head_fields(case));
    lemma_one_more(one, "event"@, JsonView::Text("discovered"@));
    lemma_one_more(two, "name"@, JsonView::Text(case.name));
    lemma_one_more(three, "ignore"@, JsonView::Bool(case.ignored));
    let first = json::members_text(json::written_members(one));
    assert(json::written_members(one).len() == 1);
    assert(first == json::member_text(json::written_members(one)[0]));
    let kind = kind_text(case.kind);
    assert("{ "@ + first =~= "{ \"type\": \""@ + kind + seq!['"']);
    assert(seq!['"'] + json_key("event"@) + json::json_quoted("discovered"@) + json_key("name"@)
        =~= "\", \"event\": \"discovered\", \"name\": "@);
    let flag = json::value_text(JsonView::Bool(case.ignored));
    assert("{ "@ + json::members_text(json::written_members(four)) =~= ("{ "@ + first) + json_key(
        "event"@,
    ) + json::json_quoted("discovered"@) + json_key("name"@) + json::json_quoted(case.name)
        + json_key("ignore"@) + flag);
    assert(("{ "@ + first) + json_key("event"@) + json::json_quoted("discovered"@) + json_key(
        "name"@,
    ) =~= "{ \"type\": \""@ + kind + (seq!['"'] + json_key("event"@) + json::json_quoted(
        "discovered"@,
    ) + json_key("name"@)));
}

proof fn lemma_place(case: TestCaseView, l: LocationView)
    requires
        case.location == Some(l),
    ensures
        json::members_text(json::written_members(case_fields(case))) == json::members_text(
            json::written_members(message_fields(case)),
        ) + translator::json_location(l),
{
    lemma_key_source_path();
    lemma_key_start_line();
    lemma_key_start_col();
    lemma_key_end_line();
    lemma_key_end_col();
    let f = message_fields(case);
    let t = json::members_text(json::written_members(f));
    let a = f.push(("source_path"@, JsonView::Text(l.source_path)));
    let b = a.push(("start_line"@, JsonView::Count(l.start_line)));
    let c = b.push(("start_col"@, JsonView::Count(l.start_col)));
    let d = c.push(("end_line"@, JsonView::Count(l.end_line)));
    lemma_one_more(f, "source_path"@, JsonView::Text(l.source_path));
    lemma_one_more(a, "start_line"@, JsonView::Count(l.start_line));
    lemma_one_more(b, "start_col"@, JsonView::Count(l.start_col));
    lemma_one_more(c, "end_line"@, JsonView::Count(l.end_line));
    lemma_one_more(d, "end_col"@, JsonView::Count(l.end_col));
    let p1 = ", \"source_path\": "@;
    let p2 = p1 + json::json_quoted(l.source_path);
    let p3 = p2 + ", \"start_line\": "@;
    let p4 = p3 + text::decimal(l.start_line as nat);
    let p5 = p4 + ", \"start_col\": "@;
    let p6 = p5 + text::decimal(l.start_col as nat);
    let p7 = p6 + ", \"end_line\": "@;
    let p8 = p7 + text::decimal(l.end_line as nat);
    let p9 = p8 + ", \"end_col\": "@;
    lemma_regroup(t, p1, json::json_quoted(l.source_path));
    lemma_regroup(t, p2, ", \"start_line\": "@);
    lemma_regroup(t, p3, text::decimal(l.start_line as nat));
    lemma_regroup(t, p4, ", \"start_col\": "@);
    lemma_regroup(t, p5, text::decimal(l.start_col as nat));
    lemma_regroup(t, p6, ", \"end_line\": "@);
    lemma_regroup(t, p7, text::decimal(l.end_line as nat));
    lemma_regroup(t, p8, ", \"end_col\": "@);
    lemma_regroup(t, p9, text::decimal(l.end_col as nat));
}

proof fn lemma_regroup(a: Seq<char>, b: Seq<char>, c: Seq<char>)
    ensures
        a + (b + c) == a + b + c,
{
    assert(a + (b + c) =~= a + b + c);
}

/// A test's object is written as its members.
proof fn lemma_case_line(case: TestCaseView)
    ensures
        translator::json_line(case) == object_line(case_fields(case)) + seq!['\n'],
{
    reveal_strlit(" }");
    reveal_strlit(" }\n");
    lemma_head(case);
    lemma_key_ignore_message();
    let start = "{ "@;
    let h = json::members_text(json::written_members(head_fields(case)));
    let message = match case.ignore_message {
        Some(message) => ", \"ignore_message\": "@ + json::json_quoted(message),
        None => Seq::empty(),
    };
    match case.ignore_message {
        Some(m) => {
            lemma_one_more(head_fields(case), "ignore_message"@, JsonView::Text(m));
            lemma_regroup(h, ", \"ignore_message\": "@, json::json_quoted(m));
        },
        None => {
            assert(h + message =~= h);
        },
    }
    let t = json::members_text(json::written_members(message_fields(case)));
    assert(t == h + message);
    let place = match case.location {
        Some(l) => translator::json_location(l),
        None => Seq::empty(),
    };
    match case.location {
        Some(l) => {
            lemma_place(case, l);
        },
        None => {
            assert(t + place =~= t);
        },
    }
    let all = json::members_text(json::written_members(case_fields(case)));
    assert(all == t + place);
    lemma_regroup(start, h, message);
    lemma_regroup(start, t, place);
    assert(" }"@ + seq!['\n'] =~= " }\n"@);
    lemma_regroup(start + all, " }"@, seq!['\n']);
}

/// The lengths of the keys, which tell them apart.
proof fn lemma_keys()
    ensures
        "type"@.len() == 4,
        "event"@.len() == 5,
        "name"@.len() == 4,
        "type"@ != "name"@,
        "ignore"@.len() == 6,
        "ignore_message"@.len() == 14,
        "source_path"@.len() == 11,
        "start_line"@.len() == 10,
        "start_col"@.len() == 9,
        "end_line"@.len() == 8,
        "end_col"@.len() == 7,
{
    reveal_strlit("type");
    reveal_strlit("event");
    reveal_strlit("name");
    assert("type"@[0] != "name"@[0]);
    lemma_key_ignore();
    lemma_key_ignore_message();
    lemma_key_source_path();
    lemma_key_start_line();
    lemma_key_start_col();
    lemma_key_end_line();
    lemma_key_end_col();
}

proof fn lemma_case_fields(case: TestCaseView)
    ensures
        json::is_writable(case_fields(case)),
{
    lemma_keys();
}

/// The value under a key of the members that every test has.
proof fn lemma_head_member(case: TestCaseView, key: Seq<char>)
    ensures
        json::member(head_fields(case), key) == (if key == "type"@ {
            Some(JsonView::Text(kind_text(case.kind)))
        } else if key == "event"@ {
            Some(JsonView::Text("discovered"@))
        } else if key == "name"@ {
            Some(JsonView::Text(case.name))
        } else if key == "ignore"@ {
            Some(JsonView::Bool(case.ignored))
        } else {
            None
        }),
{
    lemma_keys();
    let none: FieldsView = Seq::empty();
    let one = none.push(("type"@, JsonView::Text(kind_text(case.kind))));
    let two = one.push(("event"@, JsonView::Text("discovered"@)));
    let three = two.push(("name"@, JsonView::Text(case.name)));
    let four = three.push(("ignore"@, JsonView::Bool(case.ignored)));
    assert(four =~= head_fields(case));
    lemma_member_pushed(none, "type"@, JsonView::Text(kind_text(case.kind)), key);
    lemma_member_pushed(one, "event"@, JsonView::Text("discovered"@), key);
    lemma_member_pushed(two, "name"@, JsonView::Text(case.name), key);
    lemma_member_pushed(three, "ignore"@, JsonView::Bool(case.ignored), key);
}

/// The value under a key of a test's members.
proof fn lemma_case_member(case: TestCaseView, key: Seq<char>)
    ensures
        json::member(case_fields(case), key) == (match json::member(head_fields(case), key) {
            Some(v) => Some(v),
            None => if key == "ignore_message"@ && case.ignore_message is Some {
                Some(JsonView::Text(case.ignore_message->0))
            } else {
                match case.location {
                    Some(l) => if key == "source_path"@ {
                        Some(JsonView::Text(l.source_path))
                    } else if key == "start_line"@ {
                        Some(JsonView::Count(l.start_line))
                    } else if key == "start_col"@ {
                        Some(JsonView::Count(l.start_col))
                    } else if key == "end_line"@ {
                        Some(JsonView::Count(l.end_line))
                    } else if key == "end_col"@ {
                        Some(JsonView::Count(l.end_col))
                    } else {
                        None
                    },
                    None => None,
                }
            },
        }),
{
    lemma_keys();
    match case.ignore_message {
        Some(m) => {
            lemma_member_pushed(head_fields(case), "ignore_message"@, JsonView::Text(m), key);
        },
        None => {},
    }
    match case.location {
        Some(l) => {
            let f = message_fields(case);
            let a = f.push(("source_path"@, JsonView::Text(l.source_path)));
            let b = a.push(("start_line"@, JsonView::Count(l.start_line)));
            let c = b.push(("start_col"@, JsonView::Count(l.start_col)));
            let d = c.push(("end_line"@, JsonView::Count(l.end_line)));
            lemma_member_pushed(f, "source_path"@, JsonView::Text(l.source_path), key);
            lemma_member_pushed(a, "start_line"@, JsonView::Count(l.start_line), key);
            lemma_member_pushed(b, "start_col"@, JsonView::Count(l.start_col), key);
            lemma_member_pushed(c, "end_line"@, JsonView::Count(l.end_line), key);
            lemma_member_pushed(d, "end_col"@, JsonView::Count(l.end_col), key);
        },
        None => {},
    }
}

/// A test's members are those of the test.
proof fn lemma_case_is_listed(case: TestCaseView, fields: FieldsView)
    requires
        forall|key: Seq<char>| #[trigger]
            json::member(fields, key) == json::member(case_fields(case), key),
    ensures
        translator::listed_case(fields) == Some(case),
{
    lemma_keys();
    reveal_strlit("test");
    reveal_strlit("benchmark");
    lemma_asked(case, "type"@);
    lemma_asked(case, "event"@);
    lemma_asked(case, "name"@);
    lemma_asked(case, "ignore"@);
    lemma_asked(case, "ignore_message"@);
    lemma_asked(case, "source_path"@);
    lemma_asked(case, "start_line"@);
    lemma_asked(case, "start_col"@);
    lemma_asked(case, "end_line"@);
    lemma_asked(case, "end_col"@);
    assert(json::required_text(fields, "type"@) == Some(kind_text(case.kind)));
    assert(json::optional_text(fields, "event"@) == Some(Some("discovered"@)));
    assert(json::optional_text(fields, "name"@) == Some(Some(case.name)));
    assert(json::flag(fields, "ignore"@) == Some(case.ignored));
    assert(json::optional_text(fields, "ignore_message"@) == Some(case.ignore_message));
    assert(translator::listed_location(fields) == Some(case.location));
    assert("test"@.len() == 4);
    assert("benchmark"@.len() == 9);
    assert("test"@ != "benchmark"@);
}

proof fn lemma_asked(case: TestCaseView, key: Seq<char>)
    ensures
        json::member(case_fields(case), key) == (if key == "type"@ {
            Some(JsonView::Text(kind_text(case.kind)))
        } else if key == "event"@ {
            Some(JsonView::Text("discovered"@))
        } else if key == "name"@ {
            Some(JsonView::Text(case.name))
        } else if key == "ignore"@ {
            Some(JsonView::Bool(case.ignored))
        } else if key == "ignore_message"@ && case.ignore_message is Some {
            Some(JsonView::Text(case.ignore_message->0))
        } else {
            match case.location {
                Some(l) => if key == "source_path"@ {
                    Some(JsonView::Text(l.source_path))
                } else if key == "start_line"@ {
                    Some(JsonView::Count(l.start_line))
                } else if key == "start_col"@ {
                    Some(JsonView::Count(l.start_col))
                } else if key == "end_line"@ {
                    Some(JsonView::Count(l.end_line))
                } else if key == "end_col"@ {
                    Some(JsonView::Count(l.end_col))
                } else {
                    None
                },
                None => None,
            }
        }),
{
    lemma_head_member(case, key);
    lemma_case_member(case, key);
}

/// Plain members stand on one line.
proof fn lemma_members_are_one_line(fields: FieldsView)
    requires
        json::is_writable(fields),
    ensures
        !json::members_text(json::written_members(fields)).contains('\n'),
    decreases fields.len(),
{
    let t = json::members_text(json::written_members(fields));
    if fields.len() > 0 {
        let front = fields.drop_last();
        let key = fields.last().0;
        let v = fields.last().1;
        assert(fields[fields.len() - 1].1 !is Other);
        assert(json::is_writable(front)) by {
            assert forall|i: int, j: int| 0 <= i < j < front.len() implies (#[trigger] front[i]).0
                != (#[trigger] front[j]).0 by {
                assert(fields[i].0 != fields[j].0);
            }
            assert forall|i: int| 0 <= i < front.len() implies (#[trigger] front[i]).1 !is Other by {
                assert(fields[i].1 !is Other);
            }
        }
        lemma_members_are_one_line(front);
        lemma_escaped_is_one_line(key);
        lemma_value_is_one_line(v);
        reveal_strlit(", ");
        reveal_strlit(": ");
        let before = json::members_text(json::written_members(front));
        let value = json::value_text(v);
        let quoted = json::json_quoted(key);
        let own = quoted + ": "@ + value;
        assert forall|k: int| 0 <= k < own.len() implies own[k] != '\n' by {
            if k < quoted.len() {
                assert(own[k] == quoted[k]);
                assert(quoted.contains(quoted[k]));
            } else if k >= quoted.len() + 2 {
                assert(own[k] == value[k - quoted.len() - 2]);
                assert(value.contains(value[k - quoted.len() - 2]));
            }
        }
        if front.len() == 0 {
            assert(json::written_members(fields)[0] == (key, value));
            assert(t == own);
        } else {
            assert(front.push((key, v)) =~= fields);
            lemma_one_more(front, key, v);
            assert(t =~= before + ", "@ + own);
            assert forall|k: int| 0 <= k < t.len() implies t[k] != '\n' by {
                if k < before.len() {
                    assert(t[k] == before[k]);
                    assert(before.contains(before[k]));
                } else if k >= before.len() + 2 {
                    assert(t[k] == own[k - before.len() - 2]);
                }
            }
        }
    }
}

proof fn lemma_value_is_one_line(v: JsonView)
    ensures
        !json::value_text(v).contains('\n'),
{
    reveal_strlit("null");
    reveal_strlit("true");
    reveal_strlit("false");
    match v {
        JsonView::Count(n) => {
            text::lemma_decimal_reads_back(n as nat);
            let d = text::decimal(n as nat);
            assert forall|k: int| 0 <= k < d.len() implies d[k] != '\n' by {
                assert(text::is_digit(d[k]));
            }
        },
        JsonView::Text(t) => {
            lemma_escaped_is_one_line(t);
        },
        _ => {},
    }
}

/// An object's line is read whole.
pub proof fn lemma_object_line(fields: FieldsView)
    requires
        json::is_writable(fields),
    ensures
        !object_line(fields).contains('\n'),
        object_line(fields).len() > 0,
        object_line(fields).last() != '\r',
        text::trim(object_line(fields)) == object_line(fields),
{
    reveal_strlit("{ ");
    reveal_strlit(" }");
    lemma_members_are_one_line(fields);
    let t = json::members_text(json::written_members(fields));
    let line = object_line(fields);
    assert(line[0] == '{');
    assert(line.last() == '}');
    assert forall|k: int| 0 <= k < line.len() implies line[k] != '\n' by {
        if 2 <= k < t.len() + 2 {
            assert(line[k] == t[k - 2]);
            assert(t.contains(t[k - 2]));
        }
    }
}

/// The members of the object that opens a listing.
spec fn opening_fields() -> FieldsView {
    seq![
        ("type"@, JsonView::Text("suite"@)),
        ("event"@, JsonView::Text("discovery"@)),
    ]
}

/// The members of the object that closes a listing.
spec fn closing_fields(cases: Seq<TestCaseView>) -> FieldsView {
    seq![
        ("type"@, JsonView::Text("suite"@)),
        ("event"@, JsonView::Text("completed"@)),
        ("tests"@, JsonView::Count(translator::kind_count(cases, TestCaseKind::Test) as u64)),
        (
            "benchmarks"@,
            JsonView::Count(translator::kind_count(cases, TestCaseKind::Benchmark) as u64),
        ),
        ("total"@, JsonView::Count(cases.len() as u64)),
        ("ignored"@, JsonView::Count(translator::ignored_count(cases) as u64)),
    ]
}

proof fn lemma_counts(cases: Seq<TestCaseView>)
    ensures
        translator::kind_count(cases, TestCaseKind::Test) <= cases.len(),
        translator::kind_count(cases, TestCaseKind::Benchmark) <= cases.len(),
        translator::ignored_count(cases) <= cases.len(),
    decreases cases.len(),
{
    if cases.len() > 0 {
        lemma_counts(cases.drop_last());
    }
}

proof fn lemma_opening()
    ensures
        "{ \"type\": \"suite\", \"event\": \"discovery\" }\n"@ == object_line(opening_fields())
            + seq!['\n'],
        json::is_writable(opening_fields()),
{
    reveal_strlit("type");
    reveal_strlit("event");
    reveal_strlit("suite");
    reveal_strlit("discovery");
    reveal_strlit("{ ");
    reveal_strlit(" }");
    reveal_strlit(", ");
    reveal_strlit(": ");
    reveal_strlit("{ \"type\": \"suite\", \"event\": \"discovery\" }\n");
    lemma_bare("type"@);
    lemma_bare("event"@);
    lemma_bare("suite"@);
    lemma_bare("discovery"@);
    let one: FieldsView = seq![("type"@, JsonView::Text("suite"@))];
    lemma_one_more(one, "event"@, JsonView::Text("discovery"@));
    assert(one.push(("event"@, JsonView::Text("discovery"@))) =~= opening_fields());
    assert(json::written_members(one).len() == 1);
    let first = json::members_text(json::written_members(one));
    assert(first == json::member_text(json::written_members(one)[0]));
    assert("type"@.len() != "event"@.len());
    assert("{ \"type\": \"suite\", \"event\": \"discovery\" }\n"@ =~= object_line(
        opening_fields(),
    ) + seq!['\n']);
}

/// A suite's object announces no test.
proof fn lemma_suite(fields: FieldsView, read: FieldsView)
    requires
        fields.len() > 0,
        fields[0] == ("type"@, JsonView::Text("suite"@)),
        forall|key: Seq<char>| #[trigger] json::member(read, key) == json::member(fields, key),
    ensures
        translator::listed_case(read) is None,
{
    reveal_strlit("suite");
    reveal_strlit("test");
    reveal_strlit("benchmark");
    assert(json::member(fields, "type"@) == Some(JsonView::Text("suite"@)));
    assert(json::required_text(read, "type"@) == Some("suite"@));
    assert("suite"@.len() == 5);
    assert("test"@.len() == 4);
    assert("benchmark"@.len() == 9);
}

/// The line that closes a listing, with its end.
spec fn closing(cases: Seq<TestCaseView>) -> Seq<char> {
    "{ \"type\": \"suite\", \"event\": \"completed\", \"tests\": "@ + text::decimal(
        translator::kind_count(cases, TestCaseKind::Test),
    ) + ", \"benchmarks\": "@ + text::decimal(
        translator::kind_count(cases, TestCaseKind::Benchmark),
    ) + ", \"total\": "@ + text::decimal(cases.len()) + ", \"ignored\": "@ + text::decimal(
        translator::ignored_count(cases),
    ) + " }\n"@
}

proof fn lemma_closing_keys(cases: Seq<TestCaseView>)
    ensures
        json::is_writable(closing_fields(cases)),
{
    reveal_strlit("type");
    reveal_strlit("event");
    reveal_strlit("tests");
    lemma_key_benchmarks();
    lemma_key_ignored();
    lemma_key_total();
    reveal_strlit("total");
    assert("event"@[0] == 'e' && "tests"@[0] == 't' && "total"@[0] == 't');
    assert("tests"@[1] == 'e' && "total"@[1] == 'o');
    assert("type"@.len() == 4 && "event"@.len() == 5 && "tests"@.len() == 5 && "total"@.len() == 5);
    assert("event"@ != "tests"@ && "event"@ != "total"@ && "tests"@ != "total"@);
}

proof fn lemma_closing_head()
    ensures
        ({
            let two: FieldsView = seq![
                ("type"@, JsonView::Text("suite"@)),
                ("event"@, JsonView::Text("completed"@)),
            ];
            "{ "@ + json::members_text(json::written_members(two)) + json_key("tests"@)
                == "{ \"type\": \"suite\", \"event\": \"completed\", \"tests\": "@
        }),
{
    reveal_strlit("type");
    reveal_strlit("event");
    reveal_strlit("tests");
    reveal_strlit("suite");
    reveal_strlit("completed");
    reveal_strlit("{ ");
    reveal_strlit(", ");
    reveal_strlit(": ");
    reveal_strlit("{ \"type\": \"suite\", \"event\": \"completed\", \"tests\": ");
    lemma_bare("type"@);
    lemma_bare("event"@);
    lemma_bare("tests"@);
    lemma_bare("suite"@);
    lemma_bare("completed"@);
    let one: FieldsView = seq![("type"@, JsonView::Text("suite"@))];
    let two: FieldsView = seq![
        ("type"@, JsonView::Text("suite"@)),
        ("event"@, JsonView::Text("completed"@)),
    ];
    lemma_one_more(one, "event"@, JsonView::Text("completed"@));
    assert(one.push(("event"@, JsonView::Text("completed"@))) =~= two);
    assert(json::written_members(one).len() == 1);
    let first = json::members_text(json::written_members(one));
    assert(first == json::member_text(json::written_members(one)[0]));
    assert("{ "@ + json::members_text(json::written_members(two)) + json_key("tests"@)
        =~= "{ \"type\": \"suite\", \"event\": \"completed\", \"tests\": "@);
}

proof fn lemma_closing(cases: Seq<TestCaseView>)
    requires
        cases.len() <= u64::MAX,
    ensures
        closing(cases) == object_line(closing_fields(cases)) + seq!['\n'],
        json::is_writable(closing_fields(cases)),
{
    lemma_counts(cases);
    lemma_closing_keys(cases);
    lemma_closing_head();
    lemma_key_benchmarks();
    lemma_key_total();
    lemma_key_ignored();
    let tests = translator::kind_count(cases, TestCaseKind::Test);
    let benchmarks = translator::kind_count(cases, TestCaseKind::Benchmark);
    let ignored = translator::ignored_count(cases);
    let two: FieldsView = seq![
        ("type"@, JsonView::Text("suite"@)),
        ("event"@, JsonView::Text("completed"@)),
    ];
    let three = two.push(("tests"@, JsonView::Count(tests as u64)));
    let four = three.push(("benchmarks"@, JsonView::Count(benchmarks as u64)));
    let five = four.push(("total"@, JsonView::Count(cases.len() as u64)));
    let six = five.push(("ignored"@, JsonView::Count(ignored as u64)));
    assert(six =~= closing_fields(cases));
    lemma_one_more(two, "tests"@, JsonView::Count(tests as u64));
    lemma_one_more(three, "benchmarks"@, JsonView::Count(benchmarks as u64));
    lemma_one_more(four, "total"@, JsonView::Count(cases.len() as u64));
    lemma_one_more(five, "ignored"@, JsonView::Count(ignored as u64));
    let start = "{ "@;
    let t2 = json::members_text(json::written_members(two));
    let t3 = json::members_text(json::written_members(three));
    let t4 = json::members_text(json::written_members(four));
    let t5 = json::members_text(json::written_members(five));
    let t6 = json::members_text(json::written_members(six));
    lemma_regroup(start, t2, json_key("tests"@));
    lemma_regroup(start, t2 + json_key("tests"@), text::decimal(tests));
    lemma_regroup(start, t3, json_key("benchmarks"@));
    lemma_regroup(start, t3 + json_key("benchmarks"@), text::decimal(benchmarks));
    lemma_regroup(start, t4, json_key("total"@));
    lemma_regroup(start, t4 + json_key("total"@), text::decimal(cases.len()));
    lemma_regroup(start, t5, json_key("ignored"@));
    lemma_regroup(start, t5 + json_key("ignored"@), text::decimal(ignored));
    reveal_strlit(" }");
    reveal_strlit(" }\n");
    assert(" }"@ + seq!['\n'] =~= " }\n"@);
    lemma_regroup(start + t6, " }"@, seq!['\n']);
}

/// Lines with their ends.
pub open spec fn ended(lines: Seq<Seq<char>>) -> Seq<char>
    decreases lines.len(),
{
    if lines.len() == 0 {
        Seq::empty()
    } else {
        lines[0] + seq!['\n'] + ended(lines.skip(1))
    }
}

proof fn lemma_ended_pushed(lines: Seq<Seq<char>>, line: Seq<char>)
    ensures
        ended(lines.push(line)) == ended(lines) + (line + seq!['\n']),
    decreases lines.len(),
{
    let more = lines.push(line);
    if lines.len() == 0 {
        assert(more.skip(1).len() == 0);
        assert(ended(more.skip(1)) =~= Seq::<char>::empty());
        assert(ended(more) =~= ended(lines) + (line + seq!['\n']));
    } else {
        lemma_ended_pushed(lines.skip(1), line);
        assert(more.skip(1) =~= lines.skip(1).push(line));
        assert(ended(more) =~= ended(lines) + (line + seq!['\n']));
    }
}

pub proof fn lemma_ended_lines(lines: Seq<Seq<char>>)
    requires
        forall|k: int|
            0 <= k < lines.len() ==> !(#[trigger] lines[k]).contains('\n') && (lines[k].len() > 0
                ==> lines[k].last() != '\r'),
    ensures
        text::lines(ended(lines)) == lines,
    decreases lines.len(),
{
    if lines.len() == 0 {
        assert(text::lines(ended(lines)) =~= lines);
    } else {
        let rest = lines.skip(1);
        assert forall|k: int| 0 <= k < rest.len() implies !(#[trigger] rest[k]).contains('\n') && (
        rest[k].len() > 0 ==> rest[k].last() != '\r') by {
            assert(rest[k] == lines[k + 1]);
        }
        lemma_ended_lines(rest);
        assert(!lines[0].contains('\n'));
        lemma_first_line(lines[0], ended(rest));
        assert(seq![lines[0]] + rest =~= lines);
    }
}

/// The lines of a JSON listing up to the `n`th test.
spec fn opened(cases: Seq<TestCaseView>, n: nat) -> Seq<Seq<char>> {
    Seq::new(
        n + 1,
        |i: int|
            if i == 0 {
                object_line(opening_fields())
            } else {
                object_line(case_fields(cases[i - 1]))
            },
    )
}

proof fn lemma_opened(cases: Seq<TestCaseView>)
    ensures
        ended(opened(cases, cases.len())) == "{ \"type\": \"suite\", \"event\": \"discovery\" }\n"@
            + translator::json_lines(cases),
    decreases cases.len(),
{
    let head = "{ \"type\": \"suite\", \"event\": \"discovery\" }\n"@;
    lemma_opening();
    let all = opened(cases, cases.len());
    if cases.len() == 0 {
        let none: Seq<Seq<char>> = Seq::empty();
        lemma_ended_pushed(none, object_line(opening_fields()));
        assert(none.push(object_line(opening_fields())) =~= all);
        assert(ended(none) =~= Seq::<char>::empty());
        assert(ended(all) =~= head + translator::json_lines(cases));
    } else {
        let front = cases.drop_last();
        lemma_opened(front);
        let before = opened(front, front.len());
        let line = object_line(case_fields(cases.last()));
        assert(before.push(line) =~= all);
        lemma_ended_pushed(before, line);
        lemma_case_line(cases.last());
        lemma_regroup(head, translator::json_lines(front), translator::json_line(cases.last()));
    }
}

proof fn lemma_listing(cases: Seq<TestCaseView>)
    requires
        cases.len() <= u64::MAX,
    ensures
        text::lines(translator::json_listing(cases)) == opened(cases, cases.len()).push(
            object_line(closing_fields(cases)),
        ),
{
    let before = opened(cases, cases.len());
    let lines = before.push(object_line(closing_fields(cases)));
    lemma_opened(cases);
    lemma_opening();
    lemma_closing(cases);
    lemma_ended_pushed(before, object_line(closing_fields(cases)));
    let front = ended(before);
    let c0 = "{ \"type\": \"suite\", \"event\": \"completed\", \"tests\": "@;
    let c1 = c0 + text::decimal(translator::kind_count(cases, TestCaseKind::Test));
    let c2 = c1 + ", \"benchmarks\": "@;
    let c3 = c2 + text::decimal(translator::kind_count(cases, TestCaseKind::Benchmark));
    let c4 = c3 + ", \"total\": "@;
    let c5 = c4 + text::decimal(cases.len());
    let c6 = c5 + ", \"ignored\": "@;
    let c7 = c6 + text::decimal(translator::ignored_count(cases));
    lemma_regroup(front, c0, text::decimal(translator::kind_count(cases, TestCaseKind::Test)));
    lemma_regroup(front, c1, ", \"benchmarks\": "@);
    lemma_regroup(front, c2, text::decimal(translator::kind_count(cases, TestCaseKind::Benchmark)));
    lemma_regroup(front, c3, ", \"total\": "@);
    lemma_regroup(front, c4, text::decimal(cases.len()));
    lemma_regroup(front, c5, ", \"ignored\": "@);
    lemma_regroup(front, c6, text::decimal(translator::ignored_count(cases)));
    lemma_regroup(front, c7, " }\n"@);
    assert(translator::json_listing(cases) == front + closing(cases));
    assert forall|k: int| 0 <= k < lines.len() implies !(#[trigger] lines[k]).contains('\n') && (
    lines[k].len() > 0 ==> lines[k].last() != '\r') by {
        if k == 0 {
            lemma_object_line(opening_fields());
        } else if k <= cases.len() {
            lemma_case_fields(cases[k - 1]);
            lemma_object_line(case_fields(cases[k - 1]));
        } else {
            lemma_object_line(closing_fields(cases));
        }
    }
    lemma_ended_lines(lines);
}

/// What the first lines of a JSON listing announce.
proof fn lemma_announced(
    cases: Seq<TestCaseView>,
    lines: Seq<Seq<char>>,
    policy: IgnoredPolicy,
    n: nat,
)
    requires
        n <= cases.len(),
        lines.len() > cases.len(),
        lines.take(cases.len() as int + 1) == opened(cases, cases.len()),
        forall|k: int|
            0 <= k <= cases.len() ==> json::reads_as_written(text::trim(#[trigger] lines[k])),
    ensures
        translator::cases_in(ListFormat::Json, lines, policy, n + 1) == selected(
            cases.take(n as int),
            policy,
        ),
    decreases n,
{
    assert(lines[n as int] == lines.take(cases.len() as int + 1)[n as int]);
    if n == 0 {
        lemma_opening();
        lemma_object_line(opening_fields());
        let line = lines[0];
        let read = json::line_fields(line)->0;
        assert(json::reads_as_written(text::trim(line)));
        assert(line == json::object_text(json::written_members(opening_fields())));
        lemma_suite(opening_fields(), read);
        assert(translator::json_case(line) is None);
        assert(translator::cases_in(ListFormat::Json, lines, policy, 0) =~= Seq::<
            TestCaseView,
        >::empty());
        assert(selected(cases.take(0), policy) =~= Seq::<TestCaseView>::empty());
    } else {
        lemma_announced(cases, lines, policy, (n - 1) as nat);
        let case = cases[n - 1];
        let line = lines[n as int];
        lemma_case_fields(case);
        lemma_object_line(case_fields(case));
        let read = json::line_fields(line)->0;
        assert(json::reads_as_written(text::trim(line)));
        assert(line == json::object_text(json::written_members(case_fields(case))));
        lemma_case_is_listed(case, read);
        assert(translator::json_case(line) == Some(case));
        assert(cases.take(n as int).drop_last() =~= cases.take(n - 1));
        assert(cases.take(n as int).last() == case);
    }
}

/// A JSON listing that the runner shows reads as the tests that it shows, in their
/// order, with all that it says of them.
pub(crate) proof fn lemma_shown_objects_read_back(cases: Seq<TestCaseView>, policy: IgnoredPolicy)
    requires
        cases.len() <= u64::MAX,
        lines_read_as_written(translator::json_listing(cases)),
    ensures
        translator::cases_of(ListFormat::Json, translator::json_listing(cases), policy)
            == selected(cases, policy),
{
    let output = translator::json_listing(cases);
    let lines = text::lines(output);
    lemma_listing(cases);
    assert(lines.take(cases.len() as int + 1) =~= opened(cases, cases.len()));
    assert forall|k: int| 0 <= k < lines.len() implies json::reads_as_written(
        text::trim(#[trigger] lines[k]),
    ) by {
        if k == 0 {
            lemma_opening();
            lemma_object_line(opening_fields());
        } else if k <= cases.len() {
            assert(lines[k] == opened(cases, cases.len())[k]);
            lemma_case_fields(cases[k - 1]);
            lemma_object_line(case_fields(cases[k - 1]));
        } else {
            lemma_closing(cases);
            lemma_object_line(closing_fields(cases));
        }
        assert(text::lines(output)[k] == lines[k]);
    }
    lemma_announced(cases, lines, policy, cases.len());
    assert(cases.take(cases.len() as int) =~= cases);
    let last = lines[cases.len() as int + 1];
    lemma_closing(cases);
    lemma_object_line(closing_fields(cases));
    assert(json::reads_as_written(text::trim(last)));
    assert(last == json::object_text(json::written_members(closing_fields(cases))));
    let read = json::line_fields(last)->0;
    lemma_suite(closing_fields(cases), read);
    assert(translator::json_case(last) is None);
    assert(lines.len() == cases.len() + 2);
}

} // verus!

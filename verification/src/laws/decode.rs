//! How the output of a run is read as verdicts.

use vstd::prelude::*;

use crate::json::{self, FieldsView, JsonField, JsonView};
use crate::listing_laws;
use crate::names::NameMap;
use crate::result::TestVerdict;
use crate::text;
use crate::translator::{
    self, libtest_decode, read_reported_outcome, PerTestObservation, RunFormat,
};

verus! {

// ---------------------------------------------------------------------------
// Text.

/// Whether each text fills one line.
pub open spec fn are_lines(lines: Seq<Seq<char>>) -> bool {
    forall|k: int|
        0 <= k < lines.len() ==> !(#[trigger] lines[k]).contains('\n') && (lines[k].len() > 0
            ==> lines[k].last() != '\r')
}

/// The line of a text run that says how a test ended.
pub open spec fn test_line(name: Seq<char>, end: Seq<char>) -> Seq<char> {
    "test "@ + name + " ... "@ + end
}

/// Whether no line from `from` on speaks of the test.
pub open spec fn unmentioned_from(lines: Seq<Seq<char>>, from: int, name: Seq<char>) -> bool {
    forall|k: int|
        from <= k < lines.len() ==> !("test "@ + name + " ... "@).is_prefix_of(
            #[trigger] lines[k],
        )
}

/// Whether the first word of a text is `word`.
pub open spec fn opens_with(s: Seq<char>, word: Seq<char>) -> bool {
    exists|blank: Seq<char>, rest: Seq<char>|
        {
            &&& s == #[trigger] (blank + word + rest)
            &&& forall|i: int| 0 <= i < blank.len() ==> text::is_space(#[trigger] blank[i])
            &&& rest.len() > 0 ==> text::is_space(rest[0])
        }
}

/// Whether a text is `start` and more behind blanks.
pub open spec fn begins_with(s: Seq<char>, start: Seq<char>) -> bool {
    exists|blank: Seq<char>, rest: Seq<char>|
        s == #[trigger] (blank + start + rest) && forall|i: int|
            0 <= i < blank.len() ==> text::is_space(#[trigger] blank[i])
}

proof fn lemma_rfind_is(s: Seq<char>, pat: Seq<char>, from: int, at: int)
    requires
        0 <= at <= from,
        text::occurs_at(s, pat, at),
        forall|k: int| at < k <= from ==> !text::occurs_at(s, pat, k),
    ensures
        text::rfind_text(s, pat, from) == Some(at),
    decreases from - at,
{
    if at < from {
        lemma_rfind_is(s, pat, from - 1, at);
    }
}

proof fn lemma_rfind(s: Seq<char>, pat: Seq<char>, from: int)
    ensures
        text::rfind_text(s, pat, from) matches Some(at) ==> text::occurs_at(s, pat, at),
    decreases from + 1,
{
    if from >= 0 && !text::occurs_at(s, pat, from) {
        lemma_rfind(s, pat, from - 1);
    }
}

proof fn lemma_no_later_split(name: Seq<char>, end: Seq<char>, k: int)
    requires
        end.len() > 0 ==> end[0] != '.',
        k > name.len(),
        text::occurs_at(name + " ... "@ + end, " ... "@, k),
    ensures
        text::occurs_at(end, " ... "@, k - name.len() - 5),
{
    reveal_strlit(" ... ");
    let pat = " ... "@;
    let rest = name + pat + end;
    let at = name.len() as int;
    let here = rest.subrange(k, k + 5);
    assert(here[0] == ' ' && here[1] == '.');
    assert(rest[k] == ' ' && rest[k + 1] == '.');
    if k < at + 5 {
        assert(rest[k] == pat[k - at]);
        assert(k == at + 4);
        assert(rest[k + 1] == end[0]);
    } else {
        let j = k - at - 5;
        assert(end.subrange(j, j + 5) =~= here);
    }
}

/// A line splits at its last ` ... `, which is the one before the end.
proof fn lemma_test_line_splits(name: Seq<char>, end: Seq<char>)
    requires
        end.len() > 0 ==> end[0] != '.',
        forall|k: int| !#[trigger] text::occurs_at(end, " ... "@, k),
    ensures
        text::strip_prefix(test_line(name, end), "test "@) == Some(name + " ... "@ + end),
        text::rsplit_once_text(name + " ... "@ + end, " ... "@) == Some((name, end)),
{
    reveal_strlit("test ");
    reveal_strlit(" ... ");
    let line = test_line(name, end);
    let rest = name + " ... "@ + end;
    let pat = " ... "@;
    assert(line =~= "test "@ + rest);
    assert("test "@.is_prefix_of(line));
    assert(line.skip(5) =~= rest);
    let at = name.len() as int;
    assert(rest.subrange(at, at + 5) =~= pat);
    assert(text::occurs_at(rest, pat, at));
    assert forall|k: int| at < k <= rest.len() - 5 implies !text::occurs_at(rest, pat, k) by {
        if text::occurs_at(rest, pat, k) {
            lemma_no_later_split(name, end, k);
        }
    }
    lemma_rfind_is(rest, pat, rest.len() - 5, at);
    assert(rest.take(at) =~= name);
    assert(rest.skip(at + 5) =~= end);
}

proof fn lemma_words_of_one(s: Seq<char>, i: int)
    requires
        s.len() > 0,
        0 <= i <= s.len(),
        forall|k: int| 0 <= k < s.len() ==> !text::is_space(#[trigger] s[k]),
    ensures
        text::words_from(s, 0, i) == seq![s],
    decreases s.len() - i,
{
    if i < s.len() {
        lemma_words_of_one(s, i + 1);
    } else {
        assert(s.subrange(0, i) =~= s);
    }
}

/// A word is its own first word, with or without blanks cut off.
proof fn lemma_word(s: Seq<char>)
    requires
        s.len() > 0,
        forall|k: int| 0 <= k < s.len() ==> !text::is_space(#[trigger] s[k]),
    ensures
        text::trim(s) == s,
        translator::first_word(s) == s,
{
    assert(!text::is_space(s[0]));
    assert(!text::is_space(s[s.len() - 1]));
    lemma_words_of_one(s, 0);
}

proof fn lemma_first_word(s: Seq<char>, i: int)
    requires
        s.len() > 0,
        0 < i <= s.len(),
        forall|k: int| 0 <= k < i ==> !text::is_space(#[trigger] s[k]),
    ensures
        text::words_from(s, 0, i).len() > 0,
        ({
            let w = text::words_from(s, 0, i)[0];
            i <= w.len() <= s.len() && w == s.take(w.len() as int) && (w.len() < s.len()
                ==> text::is_space(s[w.len() as int]))
        }),
    decreases s.len() - i,
{
    if i >= s.len() {
        assert(s.subrange(0, i) =~= s.take(i));
    } else if text::is_space(s[i]) {
        assert(s.subrange(0, i) =~= s.take(i));
    } else {
        lemma_first_word(s, i + 1);
    }
}

proof fn lemma_trim_start(s: Seq<char>) -> (blank: Seq<char>)
    ensures
        s == blank + text::trim_start(s),
        forall|i: int| 0 <= i < blank.len() ==> text::is_space(#[trigger] blank[i]),
        text::trim_start(s).len() > 0 ==> !text::is_space(text::trim_start(s)[0]),
    decreases s.len(),
{
    if s.len() > 0 && text::is_space(s[0]) {
        let more = lemma_trim_start(s.skip(1));
        let blank = seq![s[0]] + more;
        assert(s =~= seq![s[0]] + s.skip(1));
        assert(s =~= blank + text::trim_start(s));
        blank
    } else {
        assert(s =~= Seq::<char>::empty() + s);
        Seq::empty()
    }
}

proof fn lemma_trim_end(s: Seq<char>) -> (blank: Seq<char>)
    ensures
        s == text::trim_end(s) + blank,
        forall|i: int| 0 <= i < blank.len() ==> text::is_space(#[trigger] blank[i]),
    decreases s.len(),
{
    if s.len() > 0 && text::is_space(s.last()) {
        let more = lemma_trim_end(s.drop_last());
        let blank = more.push(s.last());
        assert(s =~= s.drop_last().push(s.last()));
        assert(s =~= text::trim_end(s) + blank);
        blank
    } else {
        assert(s =~= s + Seq::<char>::empty());
        Seq::empty()
    }
}

/// What is read as the first word of an end stands there first.
proof fn lemma_reads_first(end: Seq<char>, word: Seq<char>)
    requires
        word.len() > 0,
        translator::first_word(text::trim(end)) == word,
    ensures
        opens_with(end, word),
{
    let before = lemma_trim_start(end);
    let cut = text::trim_start(end);
    let after = lemma_trim_end(cut);
    let t = text::trim(end);
    assert(t.len() > 0) by {
        if t.len() == 0 {
            assert(text::words(t) =~= Seq::empty());
        }
    }
    assert(t[0] == cut[0]);
    lemma_first_word_at(t);
    let rest = t.skip(word.len() as int) + after;
    assert(t =~= word + t.skip(word.len() as int));
    assert(end =~= before + word + rest);
    if rest.len() > 0 {
        if word.len() < t.len() {
            assert(rest[0] == t[word.len() as int]);
        } else {
            assert(rest[0] == after[0]);
        }
    }
}

proof fn lemma_first_word_at(s: Seq<char>)
    requires
        s.len() > 0,
        !text::is_space(s[0]),
    ensures
        ({
            let w = translator::first_word(s);
            0 < w.len() <= s.len() && w == s.take(w.len() as int) && (w.len() < s.len()
                ==> text::is_space(s[w.len() as int]))
        }),
{
    lemma_first_word(s, 1);
    assert(text::words_from(s, 0, 0) == text::words_from(s, 0, 1));
}

proof fn lemma_ends()
    ensures
        translator::token_verdict("ok"@) == Some(TestVerdict::Pass),
        translator::token_verdict("FAILED"@) == Some(TestVerdict::Fail),
        translator::token_verdict("ignored"@) == Some(TestVerdict::Skip),
{
    reveal_strlit("ok");
    reveal_strlit("FAILED");
    reveal_strlit("ignored");
    reveal_strlit("bench:");
    lemma_word("ok"@);
    lemma_word("FAILED"@);
    lemma_word("ignored"@);
    assert("bench:"@[0] == 'b');
    assert("ok"@[0] == 'o');
    assert("FAILED"@[0] == 'F');
    assert("ignored"@[0] == 'i');
    assert(!"bench:"@.is_prefix_of("ok"@));
    assert(!"bench:"@.is_prefix_of("FAILED"@));
    assert(!"bench:"@.is_prefix_of("ignored"@)) by {
        if "bench:"@.is_prefix_of("ignored"@) {
            assert("bench:"@[0] == "ignored"@[0]);
        }
    }
}

proof fn lemma_no_dots_in(end: Seq<char>)
    requires
        end == "ok"@ || end == "FAILED"@ || end == "ignored"@,
    ensures
        end.len() > 0 && end[0] != '.',
        forall|k: int| !#[trigger] text::occurs_at(end, " ... "@, k),
{
    reveal_strlit("ok");
    reveal_strlit("FAILED");
    reveal_strlit("ignored");
    reveal_strlit(" ... ");
    assert forall|k: int| !#[trigger] text::occurs_at(end, " ... "@, k) by {
        if text::occurs_at(end, " ... "@, k) {
            assert(end.subrange(k, k + 5)[0] == ' ');
            assert(end[k] == ' ');
        }
    }
}

proof fn lemma_last_outcome(
    format: RunFormat,
    stdout: Seq<char>,
    stderr: Seq<char>,
    name: Seq<char>,
    k: int,
    n: nat,
)
    requires
        0 <= k < n <= text::lines(stdout).len(),
        translator::line_outcome(format, stdout, stderr, text::lines(stdout)[k]) matches Some(o)
            && o.0 == name,
        forall|l: int|
            k < l < n ==> (translator::line_outcome(
                format,
                stdout,
                stderr,
                #[trigger] text::lines(stdout)[l],
            ) matches Some(o) ==> o.0 != name),
    ensures
        translator::outcomes_in(format, stdout, stderr, n).contains_key(name),
        translator::outcomes_in(format, stdout, stderr, n)[name] == (translator::line_outcome(
            format,
            stdout,
            stderr,
            text::lines(stdout)[k],
        )->0).1,
    decreases n,
{
    if n - 1 > k {
        lemma_last_outcome(format, stdout, stderr, name, k, (n - 1) as nat);
        assert(text::lines(stdout)[n - 1] == text::lines(stdout)[n - 1]);
    }
}

proof fn lemma_an_outcome(
    format: RunFormat,
    stdout: Seq<char>,
    stderr: Seq<char>,
    name: Seq<char>,
    n: nat,
) -> (k: int)
    requires
        n <= text::lines(stdout).len(),
        translator::outcomes_in(format, stdout, stderr, n).contains_key(name),
    ensures
        0 <= k < n,
        translator::line_outcome(format, stdout, stderr, text::lines(stdout)[k]) == Some(
            (name, translator::outcomes_in(format, stdout, stderr, n)[name]),
        ),
    decreases n,
{
    if n == 0 {
        0
    } else {
        match translator::line_outcome(format, stdout, stderr, text::lines(stdout)[n - 1]) {
            Some(o) => {
                if o.0 == name {
                    n - 1
                } else {
                    lemma_an_outcome(format, stdout, stderr, name, (n - 1) as nat)
                }
            },
            None => lemma_an_outcome(format, stdout, stderr, name, (n - 1) as nat),
        }
    }
}

/// A line whose outcome is of a test starts with what names it.
proof fn lemma_mentions(stdout: Seq<char>, stderr: Seq<char>, line: Seq<char>) -> (end: Seq<char>)
    requires
        translator::text_outcome(stdout, stderr, line) is Some,
    ensures
        line == test_line((translator::text_outcome(stdout, stderr, line)->0).0, end),
        translator::token_verdict(end) == Some(
            (translator::text_outcome(stdout, stderr, line)->0).1.status,
        ),
{
    let rest = text::strip_prefix(line, "test "@)->0;
    lemma_rfind(rest, " ... "@, rest.len() - " ... "@.len());
    let parts = text::rsplit_once_text(rest, " ... "@)->0;
    let at = text::rfind_text(rest, " ... "@, rest.len() - " ... "@.len())->0;
    assert(rest =~= parts.0 + rest.subrange(at, at + " ... "@.len()) + parts.1);
    assert(line =~= "test "@ + rest);
    assert(line =~= test_line(parts.0, parts.1));
    parts.1
}

/// The line of a test that ended with `ok` makes it a pass, `FAILED` a failure and
/// `ignored` a skip, whatever its name; the last line of a test counts.
pub proof fn law_text_lines_are_verdicts(
    stdout: &[u8],
    stderr: &[u8],
    lines: Seq<Seq<char>>,
    k: int,
    name: Seq<char>,
    r: NameMap<PerTestObservation>,
)
    requires
        call_ensures(libtest_decode, (RunFormat::Text, stdout, stderr), r),
        are_lines(lines),
        text::utf8_lossy(stdout@) == listing_laws::ended(lines),
        0 <= k < lines.len(),
        unmentioned_from(lines, k + 1, name),
    ensures
        lines[k] == test_line(name, "ok"@) ==> r@.contains_key(name) && r@[name].status is Pass
            && r@[name].details@.len() == 0,
        lines[k] == test_line(name, "FAILED"@) ==> r@.contains_key(name) && r@[name].status is Fail,
        lines[k] == test_line(name, "ignored"@) ==> r@.contains_key(name) && r@[name].status is Skip
            && r@[name].details@.len() == 0,
{
    let out = text::utf8_lossy(stdout@);
    let err = text::utf8_lossy(stderr@);
    listing_laws::lemma_ended_lines(lines);
    lemma_ends();
    if lines[k] == test_line(name, "ok"@) {
        lemma_line_read(stdout, stderr, lines, k, name, "ok"@, r);
    }
    if lines[k] == test_line(name, "FAILED"@) {
        lemma_line_read(stdout, stderr, lines, k, name, "FAILED"@, r);
    }
    if lines[k] == test_line(name, "ignored"@) {
        lemma_line_read(stdout, stderr, lines, k, name, "ignored"@, r);
    }
}

proof fn lemma_line_read(
    stdout: &[u8],
    stderr: &[u8],
    lines: Seq<Seq<char>>,
    k: int,
    name: Seq<char>,
    end: Seq<char>,
    r: NameMap<PerTestObservation>,
)
    requires
        call_ensures(libtest_decode, (RunFormat::Text, stdout, stderr), r),
        text::lines(text::utf8_lossy(stdout@)) == lines,
        0 <= k < lines.len(),
        unmentioned_from(lines, k + 1, name),
        end == "ok"@ || end == "FAILED"@ || end == "ignored"@,
        lines[k] == test_line(name, end),
    ensures
        r@.contains_key(name),
        translator::token_verdict(end) == Some(r@[name].status),
        !(r@[name].status is Fail) ==> r@[name].details@.len() == 0,
{
    lemma_ends();
    lemma_no_dots_in(end);
    lemma_test_line_splits(name, end);
    lemma_found(stdout, stderr, lines, k, name, r);
}

proof fn lemma_found(
    stdout: &[u8],
    stderr: &[u8],
    lines: Seq<Seq<char>>,
    k: int,
    name: Seq<char>,
    r: NameMap<PerTestObservation>,
)
    requires
        call_ensures(libtest_decode, (RunFormat::Text, stdout, stderr), r),
        text::lines(text::utf8_lossy(stdout@)) == lines,
        0 <= k < lines.len(),
        unmentioned_from(lines, k + 1, name),
        translator::text_outcome(
            text::utf8_lossy(stdout@),
            text::utf8_lossy(stderr@),
            lines[k],
        ) matches Some(o) && o.0 == name,
    ensures
        r@.contains_key(name),
        r@[name]@ == (translator::text_outcome(
            text::utf8_lossy(stdout@),
            text::utf8_lossy(stderr@),
            lines[k],
        )->0).1,
{
    let out = text::utf8_lossy(stdout@);
    let err = text::utf8_lossy(stderr@);
    assert forall|l: int| k < l < lines.len() implies (translator::line_outcome(
        RunFormat::Text,
        out,
        err,
        #[trigger] lines[l],
    ) matches Some(o) ==> o.0 != name) by {
        if translator::text_outcome(out, err, lines[l]) is Some {
            let end = lemma_mentions(out, err, lines[l]);
            let other = (translator::text_outcome(out, err, lines[l])->0).0;
            assert(("test "@ + other + " ... "@).is_prefix_of(lines[l]));
        }
    }
    lemma_last_outcome(RunFormat::Text, out, err, name, k, lines.len());
    let views = translator::observation_views(r@);
    assert(views.contains_key(name));
    assert(views[name] == r@[name]@);
}

/// The line of a benchmark makes it a pass.
pub proof fn law_benchmarks_pass(
    stdout: &[u8],
    stderr: &[u8],
    lines: Seq<Seq<char>>,
    k: int,
    name: Seq<char>,
    figures: Seq<char>,
    r: NameMap<PerTestObservation>,
)
    requires
        call_ensures(libtest_decode, (RunFormat::Text, stdout, stderr), r),
        are_lines(lines),
        text::utf8_lossy(stdout@) == listing_laws::ended(lines),
        0 <= k < lines.len(),
        lines[k] == test_line(name, "bench:"@ + figures),
        forall|i: int| !#[trigger] text::occurs_at("bench:"@ + figures, " ... "@, i),
        unmentioned_from(lines, k + 1, name),
    ensures
        r@.contains_key(name),
        r@[name].status is Pass,
        r@[name].details@.len() == 0,
{
    reveal_strlit("bench:");
    let end = "bench:"@ + figures;
    listing_laws::lemma_ended_lines(lines);
    assert(end[0] == 'b');
    lemma_test_line_splits(name, end);
    assert(text::trim_start(end) == end);
    let after = lemma_trim_end(end);
    let t = text::trim(end);
    assert("bench:"@.is_prefix_of(t)) by {
        lemma_trim_end_keeps(end, 6);
    }
    lemma_found(stdout, stderr, lines, k, name, r);
}

/// Cutting blanks off the end keeps what stands before them.
proof fn lemma_trim_end_keeps(s: Seq<char>, n: int)
    requires
        0 < n <= s.len(),
        !text::is_space(s[n - 1]),
    ensures
        text::trim_end(s).len() >= n,
        text::trim_end(s).take(n) == s.take(n),
    decreases s.len(),
{
    if text::is_space(s.last()) {
        lemma_trim_end_keeps(s.drop_last(), n);
        assert(s.drop_last().take(n) =~= s.take(n));
    }
}

/// A test of a text run has the verdict that a line of its own says: a pass only where
/// the line says `ok` or `bench:`, a failure only where it says `FAILED`, a skip only
/// where it says `ignored`, and no other verdict.
pub proof fn law_text_verdicts_stand_on_a_line(
    stdout: &[u8],
    stderr: &[u8],
    lines: Seq<Seq<char>>,
    name: Seq<char>,
    r: NameMap<PerTestObservation>,
)
    requires
        call_ensures(libtest_decode, (RunFormat::Text, stdout, stderr), r),
        are_lines(lines),
        text::utf8_lossy(stdout@) == listing_laws::ended(lines),
        r@.contains_key(name),
    ensures
        exists|k: int, end: Seq<char>|
            {
                &&& 0 <= k < lines.len()
                &&& #[trigger] lines[k] == #[trigger] test_line(name, end)
                &&& r@[name].status is Pass ==> opens_with(end, "ok"@) || begins_with(
                    end,
                    "bench:"@,
                )
                &&& r@[name].status is Fail ==> opens_with(end, "FAILED"@)
                &&& r@[name].status is Skip ==> opens_with(end, "ignored"@)
            },
        r@[name].status is Pass || r@[name].status is Fail || r@[name].status is Skip,
        !(r@[name].status is Fail) ==> r@[name].details@.len() == 0,
{
    reveal_strlit("ok");
    reveal_strlit("FAILED");
    reveal_strlit("ignored");
    reveal_strlit("bench:");
    let out = text::utf8_lossy(stdout@);
    let err = text::utf8_lossy(stderr@);
    listing_laws::lemma_ended_lines(lines);
    let views = translator::observation_views(r@);
    assert(views.contains_key(name));
    assert(views[name] == r@[name]@);
    let k = lemma_an_outcome(RunFormat::Text, out, err, name, lines.len());
    let end = lemma_mentions(out, err, lines[k]);
    let t = text::trim(end);
    let before = lemma_trim_start(end);
    let after = lemma_trim_end(text::trim_start(end));
    if "bench:"@.is_prefix_of(t) {
        let rest = t.skip(6) + after;
        assert(end =~= before + "bench:"@ + rest);
        assert(begins_with(end, "bench:"@));
    } else if translator::first_word(t) == "ok"@ {
        lemma_reads_first(end, "ok"@);
    } else if translator::first_word(t) == "FAILED"@ {
        lemma_reads_first(end, "FAILED"@);
    } else if translator::first_word(t) == "ignored"@ {
        lemma_reads_first(end, "ignored"@);
    }
    assert(lines[k] == test_line(name, end));
}

/// Whether `inner` is a text without the blanks at its ends.
pub open spec fn is_trimmed(s: Seq<char>, inner: Seq<char>) -> bool {
    exists|before: Seq<char>, after: Seq<char>|
        {
            &&& s == #[trigger] (before + inner + after)
            &&& forall|i: int| 0 <= i < before.len() ==> text::is_space(#[trigger] before[i])
            &&& forall|i: int| 0 <= i < after.len() ==> text::is_space(#[trigger] after[i])
            &&& inner.len() > 0 ==> !text::is_space(inner[0]) && !text::is_space(inner.last())
        }
}

proof fn lemma_trimmed(s: Seq<char>)
    ensures
        is_trimmed(s, text::trim(s)),
{
    let before = lemma_trim_start(s);
    let cut = text::trim_start(s);
    let after = lemma_trim_end(cut);
    let inner = text::trim(s);
    assert(s =~= before + inner + after);
    if inner.len() > 0 {
        assert(inner[0] == cut[0]);
        lemma_trim_end_stops(cut);
    }
}

proof fn lemma_trim_end_stops(s: Seq<char>)
    ensures
        text::trim_end(s).len() > 0 ==> !text::is_space(text::trim_end(s).last()),
    decreases s.len(),
{
    if s.len() > 0 && text::is_space(s.last()) {
        lemma_trim_end_stops(s.drop_last());
    }
}

proof fn lemma_find_text_is(s: Seq<char>, pat: Seq<char>, from: int, at: int)
    requires
        0 <= from <= at,
        text::occurs_at(s, pat, at),
        forall|k: int| from <= k < at ==> !text::occurs_at(s, pat, k),
    ensures
        text::find_text(s, pat, from) == Some(at),
    decreases at - from,
{
    if from < at {
        assert(!text::occurs_at(s, pat, from));
        lemma_find_text_is(s, pat, from + 1, at);
    }
}

proof fn lemma_find_text_none(s: Seq<char>, pat: Seq<char>, from: int)
    requires
        0 <= from,
        forall|k: int| from <= k ==> !text::occurs_at(s, pat, k),
    ensures
        text::find_text(s, pat, from) is None,
    decreases s.len() - from + 1,
{
    if from + pat.len() <= s.len() {
        assert(!text::occurs_at(s, pat, from));
        lemma_find_text_none(s, pat, from + 1);
    }
}

/// The header of what a test wrote, in the output of a run with failures.
pub open spec fn block_header(name: Seq<char>) -> Seq<char> {
    "---- "@ + name + " stdout ----"@
}

/// Whether `block` stands behind the first header of a test: up to the next header,
/// else up to the list of failures, else up to the end.
pub open spec fn is_block(out: Seq<char>, name: Seq<char>, block: Seq<char>) -> bool {
    exists|before: Seq<char>, rest: Seq<char>|
        {
            &&& out == #[trigger] (before + block_header(name) + (block + rest))
            &&& forall|k: int| 0 <= k < before.len() ==> !text::occurs_at(out, block_header(name), k)
            &&& {
                ||| "\n---- "@.is_prefix_of(rest) && forall|k: int|
                    0 <= k < block.len() ==> !text::occurs_at(block + rest, "\n---- "@, k)
                ||| "\nfailures:"@.is_prefix_of(rest) && (forall|k: int|
                    !#[trigger] text::occurs_at(block + rest, "\n---- "@, k)) && forall|k: int|
                    0 <= k < block.len() ==> !text::occurs_at(block + rest, "\nfailures:"@, k)
                ||| rest.len() == 0 && (forall|k: int|
                    !#[trigger] text::occurs_at(block + rest, "\n---- "@, k)) && forall|k: int|
                    !#[trigger] text::occurs_at(block + rest, "\nfailures:"@, k)
            }
        }
}

proof fn lemma_prefix_occurs(block: Seq<char>, rest: Seq<char>, pat: Seq<char>)
    requires
        pat.is_prefix_of(rest),
    ensures
        text::occurs_at(block + rest, pat, block.len() as int),
{
    let s = block + rest;
    let at = block.len() as int;
    assert(s.subrange(at, at + pat.len()) =~= pat);
}

/// A test that failed shows its own block of the output, without blanks around it;
/// where the output has none, it shows the error output of the run.
pub proof fn law_failures_show_their_own_block(
    stdout: &[u8],
    stderr: &[u8],
    name: Seq<char>,
    block: Seq<char>,
    r: NameMap<PerTestObservation>,
)
    requires
        call_ensures(libtest_decode, (RunFormat::Text, stdout, stderr), r),
        r@.contains_key(name),
        r@[name].status is Fail,
    ensures
        is_block(text::utf8_lossy(stdout@), name, block) ==> is_trimmed(block, r@[name].details@),
        (forall|k: int| !#[trigger]
            text::occurs_at(text::utf8_lossy(stdout@), block_header(name), k)) ==> if text::utf8_lossy(
            stderr@,
        ).len() == 0 {
            r@[name].details@.len() == 0
        } else {
            r@[name].details@ == "---- stderr ----\n"@ + text::utf8_lossy(stderr@)
        },
{
    let out = text::utf8_lossy(stdout@);
    let err = text::utf8_lossy(stderr@);
    let header = block_header(name);
    let views = translator::observation_views(r@);
    assert(views.contains_key(name));
    assert(views[name] == r@[name]@);
    let k = lemma_an_outcome(RunFormat::Text, out, err, name, text::lines(out).len());
    assert(r@[name].details@ == translator::failure_details(out, err, name));
    if is_block(out, name, block) {
        let (before, rest) = choose|before: Seq<char>, rest: Seq<char>|
            {
                &&& out == #[trigger] (before + block_header(name) + (block + rest))
                &&& forall|k: int|
                    0 <= k < before.len() ==> !text::occurs_at(out, block_header(name), k)
                &&& {
                    ||| "\n---- "@.is_prefix_of(rest) && forall|k: int|
                        0 <= k < block.len() ==> !text::occurs_at(block + rest, "\n---- "@, k)
                    ||| "\nfailures:"@.is_prefix_of(rest) && (forall|k: int|
                        !#[trigger] text::occurs_at(block + rest, "\n---- "@, k)) && forall|k: int|
                        0 <= k < block.len() ==> !text::occurs_at(block + rest, "\nfailures:"@, k)
                    ||| rest.len() == 0 && (forall|k: int|
                        !#[trigger] text::occurs_at(block + rest, "\n---- "@, k)) && forall|k: int|
                        !#[trigger] text::occurs_at(block + rest, "\nfailures:"@, k)
                }
            };
        let at = before.len() as int;
        assert(out.subrange(at, at + header.len()) =~= header);
        lemma_find_text_is(out, header, 0, at);
        let after = block + rest;
        assert(out.skip(at + header.len()) =~= after);
        if "\n---- "@.is_prefix_of(rest) && forall|k: int|
            0 <= k < block.len() ==> !text::occurs_at(after, "\n---- "@, k) {
            lemma_prefix_occurs(block, rest, "\n---- "@);
            lemma_find_text_is(after, "\n---- "@, 0, block.len() as int);
            assert(after.take(block.len() as int) =~= block);
        } else if "\nfailures:"@.is_prefix_of(rest) && (forall|k: int|
            !#[trigger] text::occurs_at(after, "\n---- "@, k)) && forall|k: int|
            0 <= k < block.len() ==> !text::occurs_at(after, "\nfailures:"@, k) {
            lemma_find_text_none(after, "\n---- "@, 0);
            lemma_prefix_occurs(block, rest, "\nfailures:"@);
            lemma_find_text_is(after, "\nfailures:"@, 0, block.len() as int);
            assert(after.take(block.len() as int) =~= block);
        } else {
            lemma_find_text_none(after, "\n---- "@, 0);
            lemma_find_text_none(after, "\nfailures:"@, 0);
            assert(after.take(after.len() as int) =~= block);
        }
        lemma_trimmed(block);
    }
    if forall|k: int| !#[trigger] text::occurs_at(out, header, k) {
        lemma_find_text_none(out, header, 0);
    }
}

// ---------------------------------------------------------------------------
// JSON.

/// Whether the first member of an object with a key has a value.
pub open spec fn tells(fields: FieldsView, key: Seq<char>, value: JsonView) -> bool {
    exists|i: int|
        {
            &&& 0 <= i < fields.len()
            &&& #[trigger] fields[i] == (key, value)
            &&& forall|j: int| 0 <= j < i ==> (#[trigger] fields[j]).0 != key
        }
}

/// Whether no member of an object has a key.
pub open spec fn silent_on(fields: FieldsView, key: Seq<char>) -> bool {
    forall|i: int| 0 <= i < fields.len() ==> (#[trigger] fields[i]).0 != key
}

/// Whether an object says a text, or nothing, under a key.
pub open spec fn says(fields: FieldsView, key: Seq<char>, value: Option<Seq<char>>) -> bool {
    match value {
        Some(t) => tells(fields, key, JsonView::Text(t)),
        None => silent_on(fields, key) || tells(fields, key, JsonView::Null),
    }
}

pub proof fn lemma_member(fields: FieldsView, key: Seq<char>)
    ensures
        json::member(fields, key) is None <==> silent_on(fields, key),
        forall|value: JsonView| #[trigger]
            tells(fields, key, value) <==> json::member(fields, key) == Some(value),
    decreases fields.len(),
{
    if fields.len() > 0 {
        let rest = fields.skip(1);
        lemma_member(rest, key);
        assert(rest.len() == fields.len() - 1);
        assert forall|i: int| 0 <= i < rest.len() implies #[trigger] rest[i] == fields[i + 1] by {}
        if fields[0].0 == key {
            assert(!silent_on(fields, key));
            assert forall|value: JsonView| #[trigger]
                tells(fields, key, value) <==> json::member(fields, key) == Some(value) by {
                if tells(fields, key, value) {
                    let i = choose|i: int|
                        {
                            &&& 0 <= i < fields.len()
                            &&& #[trigger] fields[i] == (key, value)
                            &&& forall|j: int| 0 <= j < i ==> (#[trigger] fields[j]).0 != key
                        };
                    if i > 0 {
                        assert(fields[0].0 != key);
                    }
                }
                if fields[0].1 == value {
                    assert(fields[0] == (key, value));
                }
            }
        } else {
            if silent_on(rest, key) {
                assert forall|i: int| 0 <= i < fields.len() implies (#[trigger] fields[i]).0
                    != key by {
                    if i > 0 {
                        assert(rest[i - 1].0 != key);
                    }
                }
            }
            if silent_on(fields, key) {
                assert forall|i: int| 0 <= i < rest.len() implies (#[trigger] rest[i]).0
                    != key by {
                    assert(fields[i + 1].0 != key);
                }
            }
            assert forall|value: JsonView| #[trigger]
                tells(fields, key, value) <==> json::member(fields, key) == Some(value) by {
                if tells(fields, key, value) {
                    let i = choose|i: int|
                        {
                            &&& 0 <= i < fields.len()
                            &&& #[trigger] fields[i] == (key, value)
                            &&& forall|j: int| 0 <= j < i ==> (#[trigger] fields[j]).0 != key
                        };
                    assert(i > 0);
                    assert(rest[i - 1] == (key, value));
                    assert forall|j: int| 0 <= j < i - 1 implies (#[trigger] rest[j]).0 != key by {
                        assert(fields[j + 1].0 != key);
                    }
                    assert(tells(rest, key, value));
                }
                if tells(rest, key, value) {
                    let i = choose|i: int|
                        {
                            &&& 0 <= i < rest.len()
                            &&& #[trigger] rest[i] == (key, value)
                            &&& forall|j: int| 0 <= j < i ==> (#[trigger] rest[j]).0 != key
                        };
                    assert(fields[i + 1] == (key, value));
                    assert forall|j: int| 0 <= j < i + 1 implies (#[trigger] fields[j]).0
                        != key by {
                        if j > 0 {
                            assert(rest[j - 1].0 != key);
                        }
                    }
                }
            }
        }
    }
}

proof fn lemma_fields(fields: FieldsView)
    ensures
        forall|v: Option<Seq<char>>|
            #![trigger says(fields, "name"@, v)]
            says(fields, "name"@, v) <==> json::optional_text(fields, "name"@) == Some(v),
        forall|v: Option<Seq<char>>|
            #![trigger says(fields, "event"@, v)]
            says(fields, "event"@, v) <==> json::optional_text(fields, "event"@) == Some(v),
        forall|v: Option<Seq<char>>|
            #![trigger says(fields, "stdout"@, v)]
            says(fields, "stdout"@, v) <==> json::optional_text(fields, "stdout"@) == Some(v),
        forall|v: Option<Seq<char>>|
            #![trigger says(fields, "message"@, v)]
            says(fields, "message"@, v) <==> json::optional_text(fields, "message"@) == Some(v),
        forall|t: Seq<char>|
            #![trigger says(fields, "type"@, Some(t))]
            says(fields, "type"@, Some(t)) <==> json::required_text(fields, "type"@) == Some(t),
{
    lemma_says(fields, "name"@);
    lemma_says(fields, "event"@);
    lemma_says(fields, "stdout"@);
    lemma_says(fields, "message"@);
    lemma_says(fields, "type"@);
}

pub proof fn lemma_says(fields: FieldsView, key: Seq<char>)
    ensures
        forall|v: Option<Seq<char>>| #[trigger]
            says(fields, key, v) <==> json::optional_text(fields, key) == Some(v),
        forall|t: Seq<char>| #[trigger]
            says(fields, key, Some(t)) <==> json::required_text(fields, key) == Some(t),
{
    lemma_member(fields, key);
    assert forall|v: Option<Seq<char>>| #[trigger]
        says(fields, key, v) <==> json::optional_text(fields, key) == Some(v) by {
        match v {
            Some(t) => {
                assert(tells(fields, key, JsonView::Text(t)) <==> json::member(fields, key)
                    == Some(JsonView::Text(t)));
            },
            None => {
                assert(tells(fields, key, JsonView::Null) <==> json::member(fields, key) == Some(
                    JsonView::Null,
                ));
            },
        }
    }
    assert forall|t: Seq<char>| #[trigger]
        says(fields, key, Some(t)) <==> json::required_text(fields, key) == Some(t) by {
        assert(tells(fields, key, JsonView::Text(t)) <==> json::member(fields, key) == Some(
            JsonView::Text(t),
        ));
    }
}

/// What an object of a JSON run says of a test: its name and how it ended.
pub open spec fn tells_of_test(
    fields: FieldsView,
    name: Seq<char>,
    event: Seq<char>,
    stdout: Option<Seq<char>>,
    message: Option<Seq<char>>,
) -> bool {
    &&& says(fields, "type"@, Some("test"@))
    &&& says(fields, "name"@, Some(name))
    &&& says(fields, "event"@, Some(event))
    &&& says(fields, "stdout"@, stdout)
    &&& says(fields, "message"@, message)
}

/// An event that ends a test makes it what it says: `ok` a pass, `failed` a failure,
/// `ignored` a skip, and any other end of it a fatal failure. Its details are the
/// captured output, else the message. That it started says nothing.
pub proof fn law_json_events_are_verdicts(
    fields: &[(String, JsonField)],
    name: Seq<char>,
    event: Seq<char>,
    stdout: Option<Seq<char>>,
    message: Option<Seq<char>>,
    r: Option<(String, PerTestObservation)>,
)
    requires
        call_ensures(read_reported_outcome, (fields,), r),
        tells_of_test(json::field_views(fields@), name, event, stdout, message),
    ensures
        event == "started"@ <==> r is None,
        r matches Some(told) ==> {
            &&& told.0@ == name
            &&& event == "ok"@ <==> told.1.status is Pass
            &&& event == "failed"@ <==> told.1.status is Fail
            &&& event == "ignored"@ <==> told.1.status is Skip
            &&& !(told.1.status is Pass || told.1.status is Fail || told.1.status is Skip)
                ==> told.1.status is Fatal
            &&& stdout matches Some(captured) ==> told.1.details@ == captured
            &&& stdout is None && message is Some ==> told.1.details@ == message->0
            &&& stdout is None && message is None ==> told.1.details@.len() == 0
        },
{
    lemma_event_words();
    lemma_fields(json::field_views(fields@));
}

proof fn lemma_event_words()
    ensures
        "test"@ != "bench"@,
        "ok"@ != "failed"@,
        "ok"@ != "ignored"@,
        "ok"@ != "started"@,
        "failed"@ != "ignored"@,
        "failed"@ != "started"@,
        "ignored"@ != "started"@,
{
    reveal_strlit("test");
    reveal_strlit("bench");
    reveal_strlit("ok");
    reveal_strlit("failed");
    reveal_strlit("ignored");
    reveal_strlit("started");
    assert("ok"@.len() == 2);
    assert("failed"@.len() == 6);
    assert("ignored"@[0] == 'i');
    assert("started"@[0] == 's');
    assert("test"@.len() == 4);
    assert("bench"@.len() == 5);
}

/// A JSON run calls a test passed only in an object that says so: one of a benchmark,
/// or one of a test with the event `ok`.
pub proof fn law_json_passes_are_told(
    fields: &[(String, JsonField)],
    r: Option<(String, PerTestObservation)>,
)
    requires
        call_ensures(read_reported_outcome, (fields,), r),
    ensures
        r matches Some(told) ==> {
            let said = json::field_views(fields@);
            &&& says(said, "name"@, Some(told.0@))
            &&& says(said, "type"@, Some("test"@)) || says(said, "type"@, Some("bench"@))
            &&& told.1.status is Pass ==> says(said, "type"@, Some("bench"@)) || says(
                said,
                "event"@,
                Some("ok"@),
            )
            &&& says(said, "type"@, Some("bench"@)) ==> told.1.status is Pass
                && told.1.details@.len() == 0
        },
{
    lemma_event_words();
    let said = json::field_views(fields@);
    lemma_fields(said);
    if let Some(told) = r {
        assert(says(said, "name"@, Some(told.0@)));
        assert(says(said, "type"@, Some("test"@)) || says(said, "type"@, Some("bench"@)));
        if told.1.status is Pass {
            assert(says(said, "type"@, Some("bench"@)) || says(said, "event"@, Some("ok"@)));
        }
    }
}

/// Whether each object can be written on a line of its own.
pub open spec fn are_objects(objects: Seq<FieldsView>) -> bool {
    forall|k: int| 0 <= k < objects.len() ==> json::is_writable(#[trigger] objects[k])
}

/// The output of a JSON run: one object per line.
pub open spec fn json_run(objects: Seq<FieldsView>) -> Seq<char> {
    listing_laws::ended(
        Seq::new(objects.len(), |k: int| json::object_text(json::written_members(objects[k]))),
    )
}

/// The object that tells the end of a test gives it the verdict of its event, where no
/// later object speaks of the test.
pub proof fn law_json_runs_are_verdicts(
    stdout: &[u8],
    stderr: &[u8],
    objects: Seq<FieldsView>,
    k: int,
    name: Seq<char>,
    event: Seq<char>,
    captured: Option<Seq<char>>,
    message: Option<Seq<char>>,
    r: NameMap<PerTestObservation>,
)
    requires
        call_ensures(libtest_decode, (RunFormat::Json, stdout, stderr), r),
        are_objects(objects),
        text::utf8_lossy(stdout@) == json_run(objects),
        0 <= k < objects.len(),
        tells_of_test(objects[k], name, event, captured, message),
        event != "started"@,
        forall|l: int| k < l < objects.len() ==> !says(#[trigger] objects[l], "name"@, Some(name)),
    ensures
        r@.contains_key(name),
        r@[name].status is Pass <==> event == "ok"@,
        r@[name].status is Fail <==> event == "failed"@,
        r@[name].status is Skip <==> event == "ignored"@,
        !(event == "ok"@ || event == "failed"@ || event == "ignored"@)
            ==> r@[name].status is Fatal,
        captured matches Some(t) ==> r@[name].details@ == t,
        captured is None && message is Some ==> r@[name].details@ == message->0,
        captured is None && message is None ==> r@[name].details@.len() == 0,
{
    lemma_event_words();
    let out = text::utf8_lossy(stdout@);
    let err = text::utf8_lossy(stderr@);
    let lines = Seq::new(
        objects.len(),
        |k: int| json::object_text(json::written_members(objects[k])),
    );
    assert forall|l: int| 0 <= l < lines.len() implies !(#[trigger] lines[l]).contains('\n') && (
    lines[l].len() > 0 ==> lines[l].last() != '\r') by {
        assert(json::is_writable(objects[l]));
        listing_laws::lemma_object_line(objects[l]);
    }
    listing_laws::lemma_ended_lines(lines);
    assert(text::lines(out) == lines);
    lemma_object_outcome(out, objects, k);
    assert forall|l: int| k < l < lines.len() implies (translator::line_outcome(
        RunFormat::Json,
        out,
        err,
        #[trigger] lines[l],
    ) matches Some(o) ==> o.0 != name) by {
        lemma_object_outcome(out, objects, l);
        lemma_fields(objects[l]);
        assert(!says(objects[l], "name"@, Some(name)));
    }
    lemma_fields(objects[k]);
    lemma_last_outcome(RunFormat::Json, out, err, name, k, lines.len());
    let views = translator::observation_views(r@);
    assert(views.contains_key(name));
    assert(views[name] == r@[name]@);
}

proof fn lemma_object_outcome(out: Seq<char>, objects: Seq<FieldsView>, k: int)
    requires
        listing_laws::lines_read_as_written(out),
        text::lines(out) == Seq::new(
            objects.len(),
            |k: int| json::object_text(json::written_members(objects[k])),
        ),
        are_objects(objects),
        0 <= k < objects.len(),
    ensures
        translator::json_outcome(text::lines(out)[k]) == translator::reported_outcome(objects[k]),
{
    let line = text::lines(out)[k];
    assert(json::is_writable(objects[k]));
    listing_laws::lemma_object_line(objects[k]);
    assert(line == listing_laws::object_line(objects[k]));
    assert(json::reads_as_written(text::trim(line)));
    assert(line == json::object_text(json::written_members(objects[k])));
    let read = json::line_fields(line)->0;
    assert(json::member(read, "type"@) == json::member(objects[k], "type"@));
    assert(json::member(read, "name"@) == json::member(objects[k], "name"@));
    assert(json::member(read, "event"@) == json::member(objects[k], "event"@));
    assert(json::member(read, "stdout"@) == json::member(objects[k], "stdout"@));
    assert(json::member(read, "message"@) == json::member(objects[k], "message"@));
}

} // verus!

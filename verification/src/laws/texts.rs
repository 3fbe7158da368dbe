//! What the operations on texts do.

use vstd::prelude::*;

use crate::laws::labels::carried;
use crate::text::{
    self, any_label, decimal_text, find_char, find_text_chars, is_space_char, join_texts,
    label_suffix_of, lines_of, parse_unsigned_chars, push_hex, push_short_hex,
    rsplit_once_text_chars, signed_text, split_once_chars, starts_with, strip_prefix_chars,
    strip_suffix_chars, text_less, trim_chars, trim_end_chars, trim_start_chars, words_of,
};

verus! {

// ---------------------------------------------------------------------------
// Cutting.

/// A character is found at its first place from a position on, or not at all.
pub proof fn law_characters_are_found_at_their_first_place(
    cs: &[char],
    c: char,
    from: usize,
    r: usize,
)
    requires
        call_ensures(find_char, (cs, c, from), r),
        from <= cs@.len(),
    ensures
        from <= r <= cs@.len(),
        r < cs@.len() ==> cs@[r as int] == c,
        forall|k: int| from <= k < r ==> cs@[k] != c,
{
    text::lemma_find_from(cs@, c, from as int);
}

/// A text is cut at the first of a character, which belongs to neither part.
pub proof fn law_texts_are_cut_at_the_first(cs: &[char], c: char, r: Option<(Vec<char>, Vec<char>)>)
    requires
        call_ensures(split_once_chars, (cs, c), r),
    ensures
        r is Some <==> cs@.contains(c),
        r matches Some(p) ==> cs@ == p.0@ + seq![c] + p.1@ && !p.0@.contains(c),
{
    text::lemma_find_from(cs@, c, 0);
    let at = text::find_from(cs@, c, 0);
    if let Some(p) = r {
        assert(cs@[at] == c);
        assert(cs@ =~= p.0@ + seq![c] + p.1@);
        if p.0@.contains(c) {
            let k = choose|k: int| 0 <= k < p.0@.len() && p.0@[k] == c;
            assert(cs@[k] == c);
        }
    } else if cs@.contains(c) {
        let k = choose|k: int| 0 <= k < cs@.len() && cs@[k] == c;
    }
}

/// A label says what stands behind its first colon, or all of itself.
pub proof fn law_labels_say_what_stands_behind_the_colon(label: &str, r: Vec<char>)
    requires
        call_ensures(label_suffix_of, (label,), r),
    ensures
        !label@.contains(':') ==> r@ == label@,
        label@.contains(':') ==> exists|before: Seq<char>|
            label@ == #[trigger] (before + seq![':'] + r@) && !before.contains(':'),
{
    let s = label@;
    text::lemma_find_from(s, ':', 0);
    let at = text::find_from(s, ':', 0);
    if s.contains(':') {
        let k = choose|k: int| 0 <= k < s.len() && s[k] == ':';
        let before = s.take(at);
        assert(s =~= before + seq![':'] + r@);
        if before.contains(':') {
            let k = choose|k: int| 0 <= k < before.len() && before[k] == ':';
            assert(s[k] == ':');
        }
    } else if at < s.len() {
        assert(s.contains(s[at]));
    }
}

/// A target is labelled with something where one of its labels says it.
pub proof fn law_labels_are_looked_at_one_by_one(labels: &[String], what: &str, r: bool)
    requires
        call_ensures(any_label, (labels, what), r),
        !what@.contains(':'),
    ensures
        r <==> exists|i: int| 0 <= i < labels@.len() && carried((#[trigger] labels@[i])@, what@),
{
    crate::laws::labels::lemma_carry(labels@, what@);
}

/// A start or an end is taken off exactly where it stands there.
pub proof fn law_starts_and_ends_are_taken_off(
    cs: &[char],
    part: &str,
    starts: bool,
    behind: Option<Vec<char>>,
    before: Option<Vec<char>>,
    rest: Seq<char>,
)
    requires
        call_ensures(starts_with, (cs, part), starts),
        call_ensures(strip_prefix_chars, (cs, part), behind),
        call_ensures(strip_suffix_chars, (cs, part), before),
    ensures
        behind matches Some(r) ==> cs@ == part@ + r@,
        before matches Some(r) ==> cs@ == r@ + part@,
        cs@ == part@ + rest ==> starts && behind is Some && behind->0@ == rest,
        cs@ == rest + part@ ==> before is Some && before->0@ == rest,
        starts == (behind is Some),
{
    if let Some(r) = behind {
        assert(cs@ =~= part@ + r@);
    }
    if let Some(r) = before {
        assert(cs@ =~= r@ + part@);
    }
    if cs@ == part@ + rest {
        assert(part@ =~= cs@.subrange(0, part@.len() as int));
        assert(part@.is_prefix_of(cs@));
        assert(cs@.skip(part@.len() as int) =~= rest);
    }
    if cs@ == rest + part@ {
        assert(part@ =~= cs@.subrange(cs@.len() - part@.len(), cs@.len() as int));
        assert(part@.is_suffix_of(cs@));
        assert(cs@.take(cs@.len() - part@.len()) =~= rest);
    }
}

// ---------------------------------------------------------------------------
// Blanks.

/// The blanks: those that Unicode calls white space.
pub proof fn law_blanks_are_white_space(c: char, r: bool)
    requires
        call_ensures(is_space_char, (c,), r),
    ensures
        r <==> c == '\t' || c == '\n' || c == '\u{b}' || c == '\u{c}' || c == '\r' || c == ' ' || c
            == '\u{85}' || c == '\u{a0}' || c == '\u{1680}' || ('\u{2000}' <= c && c
            <= '\u{200a}') || c == '\u{2028}' || c == '\u{2029}' || c == '\u{202f}' || c
            == '\u{205f}' || c == '\u{3000}',
{
}

/// Whether every character of a text is a blank.
pub open spec fn blank(s: Seq<char>) -> bool {
    forall|i: int| 0 <= i < s.len() ==> text::is_space(#[trigger] s[i])
}

/// Whether a text is another one with blanks before and behind it.
pub open spec fn surrounds(s: Seq<char>, inner: Seq<char>, before: bool, behind: bool) -> bool {
    exists|a: Seq<char>, b: Seq<char>|
        s == #[trigger] (a + inner + b) && blank(a) && blank(b) && (!before ==> a.len() == 0) && (
        !behind ==> b.len() == 0)
}

proof fn lemma_trimmed_start(s: Seq<char>) -> (a: Seq<char>)
    ensures
        s == a + text::trim_start(s),
        blank(a),
        text::trim_start(s).len() > 0 ==> !text::is_space(text::trim_start(s)[0]),
    decreases s.len(),
{
    if s.len() > 0 && text::is_space(s[0]) {
        let more = lemma_trimmed_start(s.skip(1));
        let a = seq![s[0]] + more;
        assert(s =~= a + text::trim_start(s)) by {
            assert(s =~= seq![s[0]] + s.skip(1));
        }
        a
    } else {
        assert(s =~= Seq::<char>::empty() + s);
        Seq::empty()
    }
}

proof fn lemma_trimmed_end(s: Seq<char>) -> (b: Seq<char>)
    ensures
        s == text::trim_end(s) + b,
        blank(b),
        text::trim_end(s).len() > 0 ==> !text::is_space(text::trim_end(s).last()),
    decreases s.len(),
{
    if s.len() > 0 && text::is_space(s.last()) {
        let more = lemma_trimmed_end(s.drop_last());
        let b = more.push(s.last());
        assert(s =~= text::trim_end(s) + b) by {
            assert(s =~= s.drop_last().push(s.last()));
        }
        b
    } else {
        assert(s =~= s + Seq::<char>::empty());
        Seq::empty()
    }
}

/// Trimming takes the blanks off the ends it is for, all of them and nothing else.
pub proof fn law_blanks_are_trimmed(
    cs: &[char],
    start: Vec<char>,
    end: Vec<char>,
    both: Vec<char>,
)
    requires
        call_ensures(trim_start_chars, (cs,), start),
        call_ensures(trim_end_chars, (cs,), end),
        call_ensures(trim_chars, (cs,), both),
    ensures
        surrounds(cs@, start@, true, false),
        start@.len() > 0 ==> !text::is_space(start@[0]),
        surrounds(cs@, end@, false, true),
        end@.len() > 0 ==> !text::is_space(end@.last()),
        surrounds(cs@, both@, true, true),
        both@.len() > 0 ==> !text::is_space(both@[0]) && !text::is_space(both@.last()),
{
    let s = cs@;
    let none = Seq::<char>::empty();
    let a = lemma_trimmed_start(s);
    assert(s =~= a + start@ + none);
    let b = lemma_trimmed_end(s);
    assert(s =~= none + end@ + b);
    let c = lemma_trimmed_end(text::trim_start(s));
    assert(s =~= a + both@ + c);
    if both@.len() > 0 {
        assert(both@[0] == text::trim_start(s)[0]);
    }
}

proof fn lemma_words_shift(s: Seq<char>, k: int, start: int, i: int)
    requires
        0 <= k,
        0 <= start <= i,
        k + i <= s.len(),
    ensures
        text::words_from(s, k + start, k + i) == text::words_from(s.skip(k), start, i),
    decreases s.len() - k - i,
{
    let t = s.skip(k);
    if i >= t.len() {
        assert(s.subrange(k + start, k + i) =~= t.subrange(start, i));
    } else {
        assert(t[i] == s[k + i]);
        if text::is_space(t[i]) {
            assert(s.subrange(k + start, k + i) =~= t.subrange(start, i));
            lemma_words_shift(s, k, i + 1, i + 1);
        } else {
            lemma_words_shift(s, k, start, i + 1);
        }
    }
}

proof fn lemma_words_split(s: Seq<char>, p: int, start: int, i: int)
    requires
        0 <= start <= i <= p < s.len(),
        text::is_space(s[p]),
    ensures
        text::words_from(s, start, i) == text::words_from(s.take(p), start, i) + text::words_from(
            s,
            p + 1,
            p + 1,
        ),
    decreases p - i,
{
    let t = s.take(p);
    let more = text::words_from(s, p + 1, p + 1);
    if i == p {
        if start < i {
            assert(s.subrange(start, i) =~= t.subrange(start, i));
        } else {
            assert(Seq::<Seq<char>>::empty() + more =~= more);
        }
    } else {
        assert(t[i] == s[i]);
        if text::is_space(s[i]) {
            lemma_words_split(s, p, i + 1, i + 1);
            if start < i {
                assert(s.subrange(start, i) =~= t.subrange(start, i));
                let first = seq![s.subrange(start, i)];
                assert(first + (text::words_from(t, i + 1, i + 1) + more) =~= first
                    + text::words_from(t, i + 1, i + 1) + more);
            }
        } else {
            lemma_words_split(s, p, start, i + 1);
        }
    }
}

proof fn lemma_one_word(s: Seq<char>, i: int)
    requires
        s.len() > 0,
        0 <= i <= s.len(),
        forall|k: int| 0 <= k < s.len() ==> !text::is_space(#[trigger] s[k]),
    ensures
        text::words_from(s, 0, i) == seq![s],
    decreases s.len() - i,
{
    if i < s.len() {
        lemma_one_word(s, i + 1);
    } else {
        assert(s.subrange(0, i) =~= s);
    }
}

/// A blank parts the words before it from those behind it; without a blank a text is one
/// word, and the empty text has none.
pub proof fn law_blanks_part_words(
    left: &[char],
    gap: char,
    right: &[char],
    all: &[char],
    a: Vec<Vec<char>>,
    b: Vec<Vec<char>>,
    r: Vec<Vec<char>>,
)
    requires
        all@ == left@ + seq![gap] + right@,
        text::is_space(gap),
        call_ensures(words_of, (left,), a),
        call_ensures(words_of, (right,), b),
        call_ensures(words_of, (all,), r),
    ensures
        text::texts(r@) == text::texts(a@) + text::texts(b@),
        left@.len() == 0 ==> a@.len() == 0,
        left@.len() > 0 && (forall|k: int|
            0 <= k < left@.len() ==> !text::is_space(#[trigger] left@[k])) ==> text::texts(a@)
            == seq![left@],
{
    let p = left@.len() as int;
    assert(all@[p] == gap);
    lemma_words_split(all@, p, 0, 0);
    assert(all@.take(p) =~= left@);
    lemma_words_shift(all@, p + 1, 0, 0);
    assert(all@.skip(p + 1) =~= right@);
    if left@.len() == 0 {
        assert(text::texts(a@).len() == 0);
    }
    if left@.len() > 0 && (forall|k: int|
        0 <= k < left@.len() ==> !text::is_space(#[trigger] left@[k])) {
        lemma_one_word(left@, 0);
    }
}

// ---------------------------------------------------------------------------
// Lines.

proof fn lemma_lines_shift(s: Seq<char>, k: int, i: int)
    requires
        0 <= k <= s.len(),
        0 <= i,
    ensures
        text::lines_from(s, k + i) == text::lines_from(s.skip(k), i),
    decreases s.len() - k - i,
{
    let t = s.skip(k);
    if i < t.len() {
        text::lemma_find_from(t, '\n', i);
        let at = text::find_from(t, '\n', i);
        if at < t.len() {
            assert(s[k + at] == t[at]);
        }
        assert forall|j: int| k + i <= j < k + at implies s[j] != '\n' by {
            assert(t[j - k] == s[j]);
        }
        text::lemma_find_from_is(s, '\n', k + i, k + at);
        assert(s.subrange(k + i, k + at) =~= t.subrange(i, at));
        if at < t.len() {
            lemma_lines_shift(s, k, at + 1);
        } else {
            assert(s.subrange(k + i, s.len() as int) =~= t.subrange(i, t.len() as int));
        }
    }
}

/// The first line of a text ends at the first newline, and a carriage return before it
/// belongs to the end; the rest of the lines are those behind it. Without a newline all of a
/// text is one line, and the empty text has none.
pub proof fn law_newlines_end_lines(
    first: Seq<char>,
    rest: &[char],
    all: &[char],
    last: &[char],
    b: Vec<Vec<char>>,
    r: Vec<Vec<char>>,
    l: Vec<Vec<char>>,
)
    requires
        all@ == first + seq!['\n'] + rest@,
        !first.contains('\n'),
        !last@.contains('\n'),
        call_ensures(lines_of, (rest,), b),
        call_ensures(lines_of, (all,), r),
        call_ensures(lines_of, (last,), l),
    ensures
        first.len() > 0 && first.last() == '\r' ==> text::texts(r@) == seq![first.drop_last()]
            + text::texts(b@),
        !(first.len() > 0 && first.last() == '\r') ==> text::texts(r@) == seq![first]
            + text::texts(b@),
        last@.len() == 0 ==> l@.len() == 0,
        last@.len() > 0 ==> text::texts(l@) == seq![last@],
{
    let s = all@;
    let at = first.len() as int;
    assert forall|k: int| 0 <= k < at implies s[k] != '\n' by {
        assert(s[k] == first[k]);
        assert(first.contains(first[k]));
    }
    text::lemma_find_from_is(s, '\n', 0, at);
    assert(s.subrange(0, at) =~= first);
    lemma_lines_shift(s, at + 1, 0);
    assert(s.skip(at + 1) =~= rest@);
    let t = last@;
    assert forall|k: int| 0 <= k < t.len() implies t[k] != '\n' by {
        assert(t.contains(t[k]));
    }
    text::lemma_find_from_is(t, '\n', 0, t.len() as int);
    assert(t.subrange(0, t.len() as int) =~= t);
    if t.len() == 0 {
        assert(text::texts(l@).len() == 0);
    }
}

// ---------------------------------------------------------------------------
// Numbers.

/// The digit of a number below ten.
pub open spec fn digit(d: int) -> char {
    if d == 0 {
        '0'
    } else if d == 1 {
        '1'
    } else if d == 2 {
        '2'
    } else if d == 3 {
        '3'
    } else if d == 4 {
        '4'
    } else if d == 5 {
        '5'
    } else if d == 6 {
        '6'
    } else if d == 7 {
        '7'
    } else if d == 8 {
        '8'
    } else {
        '9'
    }
}

/// The hexadecimal digit of a number below sixteen.
pub open spec fn hex_digit(d: int) -> char {
    if d < 10 {
        digit(d)
    } else if d == 10 {
        'a'
    } else if d == 11 {
        'b'
    } else if d == 12 {
        'c'
    } else if d == 13 {
        'd'
    } else if d == 14 {
        'e'
    } else {
        'f'
    }
}

/// A number below ten is its digit; any other is written as its tenth part and its last
/// digit behind it.
pub proof fn law_numbers_are_written_in_decimal(n: u64, tenth: String, r: String)
    requires
        call_ensures(decimal_text, (n,), r),
        call_ensures(decimal_text, (n / 10,), tenth),
    ensures
        n < 10 ==> r@ == seq![digit(n as int)],
        n >= 10 ==> r@ == tenth@.push(digit(n as int % 10)),
{
    assert(text::digit_char((n % 10) as nat) == digit(n as int % 10));
}

/// A negative number has a hyphen before it.
pub proof fn law_negative_numbers_have_a_hyphen(n: i64, r: String)
    requires
        call_ensures(signed_text, (n,), r),
    ensures
        n >= 0 ==> r@ == text::decimal(n as nat),
        n < 0 ==> r@ == seq!['-'] + text::decimal((-n) as nat),
{
    reveal_strlit("-");
    assert("-"@ =~= seq!['-']);
}

/// A number is written in hexadecimal digit by digit, in as many as are asked for or are
/// needed.
pub proof fn law_numbers_are_written_in_hexadecimal(out: &mut Vec<char>, n: u64, k: usize)
    requires
        call_ensures(push_hex, (out, n, k), ()),
    ensures
        final(out)@.len() == old(out)@.len() + k,
        forall|i: int|
            0 <= i < old(out)@.len() ==> #[trigger] final(out)@[i] == old(out)@[i],
        k > 0 ==> final(out)@.last() == hex_digit(n as int % 16),
        k > 1 ==> final(out)@[final(out)@.len() - 2] == hex_digit(n as int / 16 % 16),
{
    lemma_hex_len(n as nat, k as nat);
    if k > 0 {
        assert(text::hex_char((n % 16) as nat) == hex_digit(n as int % 16));
    }
    if k > 1 {
        lemma_hex_len((n / 16) as nat, (k - 1) as nat);
        assert(text::hex_char((n / 16 % 16) as nat) == hex_digit(n as int / 16 % 16));
        let shorter = text::hex((n / 16) as nat, (k - 1) as nat);
        assert(shorter.last() == text::hex_char(((n / 16) as nat) % 16));
    }
}

/// A number is written in as few hexadecimal digits as it needs.
pub proof fn law_short_hexadecimal_has_no_more_digits(
    out: &mut Vec<char>,
    shorter: &mut Vec<char>,
    n: u64,
)
    requires
        call_ensures(push_short_hex, (out, n), ()),
        call_ensures(push_short_hex, (shorter, n / 16), ()),
        old(shorter)@ == old(out)@,
    ensures
        n < 16 ==> final(out)@ == old(out)@.push(hex_digit(n as int)),
        n >= 16 ==> final(out)@ == final(shorter)@.push(hex_digit(n as int % 16)),
{
    assert(text::hex_char((n % 16) as nat) == hex_digit(n as int % 16));
    if n < 16 {
        assert(final(out)@ =~= old(out)@.push(hex_digit(n as int)));
    } else {
        assert(final(out)@ =~= final(shorter)@.push(hex_digit(n as int % 16)));
    }
}

proof fn lemma_hex_len(n: nat, k: nat)
    ensures
        text::hex(n, k).len() == k,
    decreases k,
{
    if k > 0 {
        lemma_hex_len(n / 16, (k - 1) as nat);
    }
}

/// A number is read where a text is its digits, with a plus sign or without one, and it is not
/// too large; a text with any other character, or none, is no number.
pub proof fn law_numbers_are_read(cs: &[char], max: u64, n: u64, r: Option<u64>)
    requires
        call_ensures(parse_unsigned_chars, (cs, max), r),
    ensures
        cs@ == text::decimal(n as nat) || cs@ == seq!['+'] + text::decimal(n as nat) ==> (r is Some
            <==> n <= max) && (n <= max ==> r == Some(n)),
        cs@.len() == 0 ==> r is None,
        (exists|i: int|
            0 <= i < cs@.len() && !('0' <= #[trigger] cs@[i] && cs@[i] <= '9') && !(i == 0 && cs@[i]
                == '+')) ==> r is None,
        cs@ == seq!['+'] ==> r is None,
{
    text::lemma_decimal_reads_back(n as nat);
    let d = text::decimal(n as nat);
    assert(text::is_digit(d[0]));
    assert((seq!['+'] + d).skip(1) =~= d);
    if exists|i: int|
        0 <= i < cs@.len() && !('0' <= #[trigger] cs@[i] && cs@[i] <= '9') && !(i == 0 && cs@[i]
            == '+') {
        let i = choose|i: int|
            0 <= i < cs@.len() && !('0' <= #[trigger] cs@[i] && cs@[i] <= '9') && !(i == 0
                && cs@[i] == '+');
        let body = text::unsigned_body(cs@);
        if cs@[0] == '+' {
            assert(body[i - 1] == cs@[i]);
        } else {
            assert(body[i] == cs@[i]);
        }
    }
}

// ---------------------------------------------------------------------------
// Order and search.

/// Whether one text comes before another: at the first place where they differ it has the
/// smaller character, or it ends there.
pub open spec fn comes_before(a: Seq<char>, b: Seq<char>) -> bool {
    exists|k: int|
        0 <= k <= a.len() && k < b.len() && #[trigger] a.take(k) == b.take(k) && (k == a.len()
            || a[k] < b[k])
}

proof fn lemma_lt_by(a: Seq<char>, b: Seq<char>, k: int)
    requires
        0 <= k <= a.len(),
        k < b.len(),
        a.take(k) == b.take(k),
        k == a.len() || a[k] < b[k],
    ensures
        text::text_lt(a, b),
    decreases k,
{
    if k > 0 {
        assert(a.take(k)[0] == a[0] && b.take(k)[0] == b[0]);
        assert(a.skip(1).take(k - 1) =~= a.take(k).skip(1));
        assert(b.skip(1).take(k - 1) =~= b.take(k).skip(1));
        lemma_lt_by(a.skip(1), b.skip(1), k - 1);
    }
}

proof fn lemma_lt_at(a: Seq<char>, b: Seq<char>) -> (k: int)
    requires
        text::text_lt(a, b),
    ensures
        0 <= k <= a.len(),
        k < b.len(),
        a.take(k) == b.take(k),
        k == a.len() || a[k] < b[k],
    decreases b.len(),
{
    if a.len() == 0 || a[0] < b[0] {
        assert(a.take(0) =~= b.take(0));
        0
    } else {
        let k = lemma_lt_at(a.skip(1), b.skip(1));
        assert(a.take(k + 1) =~= b.take(k + 1)) by {
            assert forall|i: int| 0 <= i < k + 1 implies a[i] == b[i] by {
                if i > 0 {
                    assert(a.skip(1).take(k)[i - 1] == a[i]);
                    assert(b.skip(1).take(k)[i - 1] == b[i]);
                }
            }
        }
        k + 1
    }
}

/// Texts are compared character by character.
pub proof fn law_texts_are_ordered_by_characters(a: &str, b: &str, r: bool)
    requires
        call_ensures(text_less, (a, b), r),
    ensures
        r <==> comes_before(a@, b@),
{
    if text::text_lt(a@, b@) {
        let k = lemma_lt_at(a@, b@);
        assert(a@.take(k) == b@.take(k));
    }
    if comes_before(a@, b@) {
        let k = choose|k: int|
            0 <= k <= a@.len() && k < b@.len() && #[trigger] a@.take(k) == b@.take(k) && (k
                == a@.len() || a@[k] < b@[k]);
        lemma_lt_by(a@, b@, k);
    }
}

proof fn lemma_find_first(s: Seq<char>, pat: Seq<char>, i: int)
    requires
        0 <= i,
    ensures
        text::find_text(s, pat, i) matches Some(k) ==> i <= k && text::occurs_at(s, pat, k)
            && forall|j: int| i <= j < k ==> !#[trigger] text::occurs_at(s, pat, j),
        text::find_text(s, pat, i) is None ==> forall|j: int|
            i <= j ==> !#[trigger] text::occurs_at(s, pat, j),
    decreases s.len() - i + 1,
{
    if i + pat.len() <= s.len() && !text::occurs_at(s, pat, i) {
        lemma_find_first(s, pat, i + 1);
    }
}

/// A text is found at its first occurrence from a position on.
pub proof fn law_texts_are_found_at_their_first_place(
    cs: &[char],
    pat: &[char],
    from: usize,
    r: Option<usize>,
)
    requires
        call_ensures(find_text_chars, (cs, pat, from), r),
        from <= cs@.len(),
    ensures
        r matches Some(k) ==> from <= k && cs@.subrange(k as int, k + pat@.len()) == pat@ && (
        forall|j: int|
            from <= j < k ==> #[trigger] cs@.subrange(j, j + pat@.len()) != pat@),
        r is None ==> forall|j: int|
            from <= j <= cs@.len() - pat@.len() ==> #[trigger] cs@.subrange(j, j + pat@.len())
                != pat@,
{
    lemma_find_first(cs@, pat@, from as int);
    assert forall|j: int| from <= j <= cs@.len() - pat@.len() && #[trigger] cs@.subrange(
        j,
        j + pat@.len(),
    ) == pat@ implies text::occurs_at(cs@, pat@, j) by {}
}

proof fn lemma_find_last(s: Seq<char>, pat: Seq<char>, i: int)
    ensures
        text::rfind_text(s, pat, i) matches Some(k) ==> 0 <= k <= i && text::occurs_at(s, pat, k)
            && forall|j: int| k < j <= i ==> !#[trigger] text::occurs_at(s, pat, j),
        text::rfind_text(s, pat, i) is None ==> forall|j: int|
            0 <= j <= i ==> !#[trigger] text::occurs_at(s, pat, j),
    decreases i + 1,
{
    if i >= 0 && !text::occurs_at(s, pat, i) {
        lemma_find_last(s, pat, i - 1);
    }
}

/// A text is cut at the last occurrence of another.
pub proof fn law_texts_are_cut_at_the_last(
    cs: &[char],
    pat: &str,
    r: Option<(Vec<char>, Vec<char>)>,
)
    requires
        call_ensures(rsplit_once_text_chars, (cs, pat), r),
    ensures
        r matches Some(p) ==> cs@ == p.0@ + pat@ + p.1@ && forall|j: int|
            p.0@.len() < j <= cs@.len() - pat@.len() ==> #[trigger] cs@.subrange(j, j + pat@.len())
                != pat@,
        r is None ==> forall|j: int|
            0 <= j <= cs@.len() - pat@.len() ==> #[trigger] cs@.subrange(j, j + pat@.len()) != pat@,
{
    lemma_find_last(cs@, pat@, cs@.len() - pat@.len());
    if let Some(p) = r {
        let k = p.0@.len() as int;
        assert(text::occurs_at(cs@, pat@, k));
        assert(cs@ =~= cs@.take(k) + cs@.subrange(k, k + pat@.len()) + cs@.skip(k + pat@.len()));
        assert(cs@ =~= p.0@ + pat@ + p.1@);
    }
    assert forall|j: int| 0 <= j <= cs@.len() - pat@.len() && #[trigger] cs@.subrange(
        j,
        j + pat@.len(),
    ) == pat@ implies text::occurs_at(cs@, pat@, j) by {}
}

/// Texts are joined with the separator between them and nowhere else.
pub proof fn law_separators_stand_between(
    parts: &[String],
    n: usize,
    m: usize,
    separator: &str,
    shorter: String,
    r: String,
)
    requires
        m == n + 1,
        m <= parts@.len(),
        call_ensures(join_texts, (parts, n, separator), shorter),
        call_ensures(join_texts, (parts, m, separator), r),
    ensures
        n == 0 ==> shorter@.len() == 0 && r@ == parts@[0]@,
        n > 0 ==> r@ == shorter@ + separator@ + parts@[n as int]@,
{
    let all = text::views(parts@);
    let more = all.take(n + 1);
    assert(more.drop_last() =~= all.take(n as int));
    assert(more.last() == parts@[n as int]@);
    if n == 0 {
        assert(more[0] == parts@[0]@);
    }
}

} // verus!

//! Text primitives over character sequences.
//!
//! Strings are modelled as `Seq<char>`. The functions here take and give `str`
//! and `String` and work on vectors of characters in between.

use vstd::prelude::*;
use vstd::utf8::*;

verus! {

/// `String::push`: appends the character to the end.
pub assume_specification[ String::push ](s: &mut String, c: char)
    ensures
        final(s)@ == old(s)@.push(c),
;

/// `String::push_str`: appends the text to the end.
pub assume_specification[ String::push_str ](s: &mut String, other: &str)
    ensures
        final(s)@ == old(s)@ + other@,
;

/// The characters of `s`, in order.
pub fn chars_of(s: &str) -> (r: Vec<char>)
    ensures
        r@ == s@,
{
    let mut out: Vec<char> = Vec::new();
    for c in it: s.chars()
        invariant
            it.seq() == s@,
            out@ == s@.take(it.index()),
    {
        proof {
            assert(s@.take(it.index() + 1) =~= s@.take(it.index()).push(c));
        }
        out.push(c);
    }
    proof {
        assert(s@.take(s@.len() as int) =~= s@);
    }
    out
}

/// The text made of `cs`.
pub fn string_of(cs: &[char]) -> (r: String)
    ensures
        r@ == cs@,
{
    let mut out: String = String::new();
    let mut i: usize = 0;
    while i < cs.len()
        invariant
            i <= cs.len(),
            out@ == cs@.take(i as int),
        decreases cs.len() - i,
    {
        proof {
            assert(cs@.take(i + 1) =~= cs@.take(i as int).push(cs@[i as int]));
        }
        out.push(cs[i]);
        i = i + 1;
    }
    proof {
        assert(cs@.take(cs@.len() as int) =~= cs@);
    }
    out
}

/// Whether `a` and `b` are the same text.
pub fn str_eq(a: &str, b: &str) -> (r: bool)
    ensures
        r == (a@ == b@),
{
    a.to_owned() == b.to_owned()
}

/// The characters of `cs` from `from` up to `to`.
pub fn slice_of(cs: &[char], from: usize, to: usize) -> (r: Vec<char>)
    requires
        from <= to <= cs@.len(),
    ensures
        r@ == cs@.subrange(from as int, to as int),
{
    let mut out: Vec<char> = Vec::new();
    let mut i: usize = from;
    while i < to
        invariant
            from <= i <= to <= cs@.len(),
            out@ == cs@.subrange(from as int, i as int),
        decreases to - i,
    {
        proof {
            assert(cs@.subrange(from as int, i + 1) =~= cs@.subrange(from as int, i as int).push(
                cs@[i as int],
            ));
        }
        out.push(cs[i]);
        i = i + 1;
    }
    out
}

/// Appends the characters of `tail` to `out`.
pub fn push_all(out: &mut Vec<char>, tail: &[char])
    ensures
        final(out)@ == old(out)@ + tail@,
{
    let mut i: usize = 0;
    while i < tail.len()
        invariant
            i <= tail.len(),
            out@ == old(out)@ + tail@.take(i as int),
        decreases tail.len() - i,
    {
        proof {
            assert(tail@.take(i + 1) =~= tail@.take(i as int).push(tail@[i as int]));
        }
        out.push(tail[i]);
        i = i + 1;
    }
    proof {
        assert(tail@.take(tail@.len() as int) =~= tail@);
    }
}

// ---------------------------------------------------------------------------
// Searching and cutting.

/// The first position at or after `i` that holds `c`, or the length of `s`.
pub open spec fn find_from(s: Seq<char>, c: char, i: int) -> int
    decreases s.len() - i,
{
    if i >= s.len() {
        s.len() as int
    } else if s[i] == c {
        i
    } else {
        find_from(s, c, i + 1)
    }
}

/// What `find_from` says: the position holds `c` and no earlier one does.
pub proof fn lemma_find_from(s: Seq<char>, c: char, i: int)
    requires
        0 <= i <= s.len(),
    ensures
        i <= find_from(s, c, i) <= s.len(),
        find_from(s, c, i) < s.len() ==> s[find_from(s, c, i)] == c,
        forall|k: int| i <= k < find_from(s, c, i) ==> s[k] != c,
    decreases s.len() - i,
{
    if i < s.len() && s[i] != c {
        lemma_find_from(s, c, i + 1);
    }
}

/// A first occurrence is what `find_from` finds.
pub proof fn lemma_find_from_is(s: Seq<char>, c: char, i: int, at: int)
    requires
        0 <= i <= at <= s.len(),
        at < s.len() ==> s[at] == c,
        forall|k: int| i <= k < at ==> s[k] != c,
    ensures
        find_from(s, c, i) == at,
    decreases at - i,
{
    if i < at {
        lemma_find_from_is(s, c, i + 1, at);
    }
}

/// The first position at or after `from` that holds `c`, or the length.
pub fn find_char(cs: &[char], c: char, from: usize) -> (r: usize)
    requires
        from <= cs@.len(),
    ensures
        r == find_from(cs@, c, from as int),
        from <= r <= cs@.len(),
{
    let mut i: usize = from;
    while i < cs.len() && cs[i] != c
        invariant
            from <= i <= cs@.len(),
            forall|k: int| from <= k < i ==> cs@[k] != c,
        decreases cs@.len() - i,
    {
        i = i + 1;
    }
    proof {
        lemma_find_from_is(cs@, c, from as int, i as int);
    }
    i
}

/// `s` cut at the first `c`, which belongs to neither part.
pub open spec fn split_once(s: Seq<char>, c: char) -> Option<(Seq<char>, Seq<char>)> {
    let at = find_from(s, c, 0);
    if at < s.len() {
        Some((s.take(at), s.skip(at + 1)))
    } else {
        None
    }
}

/// `cs` cut at the first `c`, which belongs to neither part.
pub fn split_once_chars(cs: &[char], c: char) -> (r: Option<(Vec<char>, Vec<char>)>)
    ensures
        r is Some <==> split_once(cs@, c) is Some,
        r matches Some(p) ==> split_once(cs@, c) == Some((p.0@, p.1@)),
{
    let at: usize = find_char(cs, c, 0);
    if at < cs.len() {
        proof {
            assert(cs@.subrange(0, at as int) =~= cs@.take(at as int));
            assert(cs@.subrange(at + 1, cs@.len() as int) =~= cs@.skip(at + 1));
        }
        Some((slice_of(cs, 0, at), slice_of(cs, at + 1, cs.len())))
    } else {
        None
    }
}

/// What a label says: the text after its first `:`, or all of it.
pub open spec fn label_suffix(label: Seq<char>) -> Seq<char> {
    match split_once(label, ':') {
        Some(parts) => parts.1,
        None => label,
    }
}

/// What a label says: the text after its first `:`, or all of it.
pub fn label_suffix_of(label: &str) -> (r: Vec<char>)
    ensures
        r@ == label_suffix(label@),
{
    let cs: Vec<char> = chars_of(label);
    match split_once_chars(cs.as_slice(), ':') {
        Some(parts) => parts.1,
        None => cs,
    }
}

/// Whether `cs` holds the text `s`.
pub fn chars_eq(cs: &[char], s: &str) -> (r: bool)
    ensures
        r == (cs@ == s@),
{
    let t: Vec<char> = chars_of(s);
    if cs.len() != t.len() {
        return false;
    }
    let mut i: usize = 0;
    while i < cs.len()
        invariant
            i <= cs@.len(),
            cs@.len() == t@.len(),
            t@ == s@,
            forall|k: int| 0 <= k < i ==> cs@[k] == t@[k],
        decreases cs@.len() - i,
    {
        if cs[i] != t[i] {
            return false;
        }
        i = i + 1;
    }
    proof {
        assert(cs@ =~= s@);
    }
    true
}

/// Whether `cs` starts with `prefix`.
pub fn starts_with(cs: &[char], prefix: &str) -> (r: bool)
    ensures
        r == prefix@.is_prefix_of(cs@),
{
    let p: Vec<char> = chars_of(prefix);
    if cs.len() < p.len() {
        return false;
    }
    let mut i: usize = 0;
    while i < p.len()
        invariant
            i <= p@.len() <= cs@.len(),
            p@ == prefix@,
            forall|k: int| 0 <= k < i ==> cs@[k] == p@[k],
        decreases p@.len() - i,
    {
        if cs[i] != p[i] {
            proof {
                assert(cs@.subrange(0, p@.len() as int)[i as int] == cs@[i as int]);
            }
            return false;
        }
        i = i + 1;
    }
    proof {
        assert(prefix@ =~= cs@.subrange(0, prefix@.len() as int));
    }
    true
}

/// What is left of `s` behind `prefix`.
pub open spec fn strip_prefix(s: Seq<char>, prefix: Seq<char>) -> Option<Seq<char>> {
    if prefix.is_prefix_of(s) {
        Some(s.skip(prefix.len() as int))
    } else {
        None
    }
}

/// What is left of `cs` behind `prefix`.
pub fn strip_prefix_chars(cs: &[char], prefix: &str) -> (r: Option<Vec<char>>)
    ensures
        r is Some <==> strip_prefix(cs@, prefix@) is Some,
        r matches Some(rest) ==> strip_prefix(cs@, prefix@) == Some(rest@),
{
    if starts_with(cs, prefix) {
        let n: usize = chars_of(prefix).len();
        proof {
            assert(cs@.subrange(n as int, cs@.len() as int) =~= cs@.skip(n as int));
        }
        Some(slice_of(cs, n, cs.len()))
    } else {
        None
    }
}

/// What is left of `s` before `suffix`.
pub open spec fn strip_suffix(s: Seq<char>, suffix: Seq<char>) -> Option<Seq<char>> {
    if suffix.is_suffix_of(s) {
        Some(s.take(s.len() - suffix.len()))
    } else {
        None
    }
}

/// What is left of `cs` before `suffix`.
pub fn strip_suffix_chars(cs: &[char], suffix: &str) -> (r: Option<Vec<char>>)
    ensures
        r is Some <==> strip_suffix(cs@, suffix@) is Some,
        r matches Some(rest) ==> strip_suffix(cs@, suffix@) == Some(rest@),
{
    let p: Vec<char> = chars_of(suffix);
    if cs.len() < p.len() {
        return None;
    }
    let cut: usize = cs.len() - p.len();
    let mut i: usize = 0;
    while i < p.len()
        invariant
            i <= p@.len() <= cs@.len(),
            cut + p@.len() == cs.len(),
            p@ == suffix@,
            forall|k: int| 0 <= k < i ==> cs@[cut + k] == p@[k],
        decreases p@.len() - i,
    {
        if cs[cut + i] != p[i] {
            proof {
                assert(cs@.subrange(cut as int, cs@.len() as int)[i as int] == cs@[cut + i]);
            }
            return None;
        }
        i = i + 1;
    }
    proof {
        assert(suffix@ =~= cs@.subrange(cut as int, cs@.len() as int));
        assert(cs@.subrange(0, cut as int) =~= cs@.take(cut as int));
    }
    Some(slice_of(cs, 0, cut))
}

// ---------------------------------------------------------------------------
// White space.

/// Whether `c` is white space.
pub open spec fn is_space(c: char) -> bool {
    let u = c as u32;
    0x9 <= u <= 0xd || u == 0x20 || u == 0x85 || u == 0xa0 || u == 0x1680 || 0x2000 <= u <= 0x200a
        || u == 0x2028 || u == 0x2029 || u == 0x202f || u == 0x205f || u == 0x3000
}

/// Whether `c` is white space.
pub fn is_space_char(c: char) -> (r: bool)
    ensures
        r == is_space(c),
{
    let u: u32 = c as u32;
    (0x9 <= u && u <= 0xd) || u == 0x20 || u == 0x85 || u == 0xa0 || u == 0x1680 || (0x2000 <= u
        && u <= 0x200a) || u == 0x2028 || u == 0x2029 || u == 0x202f || u == 0x205f || u == 0x3000
}

/// `s` without the white space it starts with.
pub open spec fn trim_start(s: Seq<char>) -> Seq<char>
    decreases s.len(),
{
    if s.len() > 0 && is_space(s[0]) {
        trim_start(s.skip(1))
    } else {
        s
    }
}

/// `s` without the white space it ends with.
pub open spec fn trim_end(s: Seq<char>) -> Seq<char>
    decreases s.len(),
{
    if s.len() > 0 && is_space(s.last()) {
        trim_end(s.drop_last())
    } else {
        s
    }
}

/// `s` without white space at either end.
pub open spec fn trim(s: Seq<char>) -> Seq<char> {
    trim_end(trim_start(s))
}

/// `cs` without the white space it starts with.
pub fn trim_start_chars(cs: &[char]) -> (r: Vec<char>)
    ensures
        r@ == trim_start(cs@),
{
    let mut i: usize = 0;
    proof {
        assert(cs@.skip(0) =~= cs@);
    }
    while i < cs.len() && is_space_char(cs[i])
        invariant
            i <= cs@.len(),
            trim_start(cs@) == trim_start(cs@.skip(i as int)),
        decreases cs@.len() - i,
    {
        proof {
            assert(cs@.skip(i as int).skip(1) =~= cs@.skip(i + 1));
        }
        i = i + 1;
    }
    proof {
        assert(cs@.subrange(i as int, cs@.len() as int) =~= cs@.skip(i as int));
    }
    slice_of(cs, i, cs.len())
}

/// `cs` without the white space it ends with.
pub fn trim_end_chars(cs: &[char]) -> (r: Vec<char>)
    ensures
        r@ == trim_end(cs@),
{
    let mut n: usize = cs.len();
    proof {
        assert(cs@.take(cs@.len() as int) =~= cs@);
    }
    while n > 0 && is_space_char(cs[n - 1])
        invariant
            n <= cs@.len(),
            trim_end(cs@) == trim_end(cs@.take(n as int)),
        decreases n,
    {
        proof {
            assert(cs@.take(n as int).drop_last() =~= cs@.take(n - 1));
        }
        n = n - 1;
    }
    proof {
        assert(cs@.subrange(0, n as int) =~= cs@.take(n as int));
    }
    slice_of(cs, 0, n)
}

/// `cs` without white space at either end.
pub fn trim_chars(cs: &[char]) -> (r: Vec<char>)
    ensures
        r@ == trim(cs@),
{
    let started: Vec<char> = trim_start_chars(cs);
    trim_end_chars(started.as_slice())
}

/// The words of `s`: its longest runs without white space.
pub open spec fn words(s: Seq<char>) -> Seq<Seq<char>> {
    words_from(s, 0, 0)
}

/// The words of `s` from `start` on, when `start..i` is the word being read.
pub open spec fn words_from(s: Seq<char>, start: int, i: int) -> Seq<Seq<char>>
    decreases s.len() - i,
{
    if i >= s.len() {
        if start < i {
            seq![s.subrange(start, i)]
        } else {
            Seq::empty()
        }
    } else if is_space(s[i]) {
        if start < i {
            seq![s.subrange(start, i)] + words_from(s, i + 1, i + 1)
        } else {
            words_from(s, i + 1, i + 1)
        }
    } else {
        words_from(s, start, i + 1)
    }
}

/// The contents of a vector of character vectors.
pub open spec fn texts(v: Seq<Vec<char>>) -> Seq<Seq<char>> {
    Seq::new(v.len(), |i: int| v[i]@)
}

/// The words of `cs`.
pub fn words_of(cs: &[char]) -> (r: Vec<Vec<char>>)
    ensures
        texts(r@) == words(cs@),
{
    let mut out: Vec<Vec<char>> = Vec::new();
    let mut start: usize = 0;
    let mut i: usize = 0;
    while i < cs.len()
        invariant
            start <= i <= cs@.len(),
            words(cs@) == texts(out@) + words_from(cs@, start as int, i as int),
        decreases cs@.len() - i,
    {
        if is_space_char(cs[i]) {
            if start < i {
                let ghost before = out@;
                out.push(slice_of(cs, start, i));
                proof {
                    assert(texts(out@) =~= texts(before) + seq![
                        cs@.subrange(start as int, i as int),
                    ]);
                    assert(texts(out@) + words_from(cs@, i + 1, i + 1) =~= texts(before) + (seq![
                        cs@.subrange(start as int, i as int),
                    ] + words_from(cs@, i + 1, i + 1)));
                }
            }
            start = i + 1;
        }
        i = i + 1;
    }
    if start < i {
        let ghost before = out@;
        out.push(slice_of(cs, start, i));
        proof {
            assert(texts(out@) =~= texts(before) + seq![cs@.subrange(start as int, i as int)]);
        }
    }
    proof {
        assert(texts(out@) =~= words(cs@));
    }
    out
}

// ---------------------------------------------------------------------------
// Lines.

/// `s` without one trailing carriage return.
pub open spec fn strip_cr(s: Seq<char>) -> Seq<char> {
    if s.len() > 0 && s.last() == '\r' {
        s.drop_last()
    } else {
        s
    }
}

/// The lines of `s` from `i` on: what stands before each line feed, without a
/// carriage return right before it, and the rest when it is not empty.
pub open spec fn lines_from(s: Seq<char>, i: int) -> Seq<Seq<char>>
    decreases s.len() - i,
{
    if i < 0 || i >= s.len() {
        Seq::empty()
    } else {
        let at = find_from(s, '\n', i);
        if i <= at < s.len() {
            seq![strip_cr(s.subrange(i, at))] + lines_from(s, at + 1)
        } else {
            seq![s.subrange(i, s.len() as int)]
        }
    }
}

/// The lines of `s`.
pub open spec fn lines(s: Seq<char>) -> Seq<Seq<char>> {
    lines_from(s, 0)
}

/// The lines of `cs`.
pub fn lines_of(cs: &[char]) -> (r: Vec<Vec<char>>)
    ensures
        texts(r@) == lines(cs@),
{
    let mut out: Vec<Vec<char>> = Vec::new();
    let mut i: usize = 0;
    proof {
        assert(texts(out@) + lines_from(cs@, 0) =~= lines(cs@));
    }
    while i < cs.len()
        invariant
            i <= cs@.len(),
            lines(cs@) == texts(out@) + lines_from(cs@, i as int),
        decreases cs@.len() - i,
    {
        let at: usize = find_char(cs, '\n', i);
        let ghost before = out@;
        if at < cs.len() {
            let end: usize = if at > i && cs[at - 1] == '\r' {
                at - 1
            } else {
                at
            };
            let line: Vec<char> = slice_of(cs, i, end);
            proof {
                let whole = cs@.subrange(i as int, at as int);
                assert(line@ =~= strip_cr(whole));
            }
            out.push(line);
            proof {
                assert(texts(out@) =~= texts(before) + seq![
                    strip_cr(cs@.subrange(i as int, at as int)),
                ]);
                assert(texts(out@) + lines_from(cs@, at + 1) =~= texts(before) + (seq![
                    strip_cr(cs@.subrange(i as int, at as int)),
                ] + lines_from(cs@, at + 1)));
            }
            i = at + 1;
        } else {
            out.push(slice_of(cs, i, cs.len()));
            proof {
                assert(texts(out@) =~= texts(before) + seq![
                    cs@.subrange(i as int, cs@.len() as int),
                ]);
                assert(lines_from(cs@, cs@.len() as int) =~= Seq::<Seq<char>>::empty());
            }
            i = cs.len();
        }
    }
    proof {
        assert(texts(out@) =~= lines(cs@));
    }
    out
}

// ---------------------------------------------------------------------------
// Decimal numbers.

/// The character of a decimal digit.
pub open spec fn digit_char(d: nat) -> char {
    (('0' as u32) + d) as char
}

/// Whether `c` is an ASCII decimal digit.
pub open spec fn is_digit(c: char) -> bool {
    '0' <= c && c <= '9'
}

/// `n` in decimal, without leading zeros.
pub open spec fn decimal(n: nat) -> Seq<char>
    decreases n,
{
    if n < 10 {
        seq![digit_char(n)]
    } else {
        decimal(n / 10).push(digit_char(n % 10))
    }
}

/// Appends `n` in decimal.
pub fn push_decimal(out: &mut Vec<char>, n: u128)
    ensures
        final(out)@ == old(out)@ + decimal(n as nat),
    decreases n,
{
    if n >= 10 {
        push_decimal(out, n / 10);
    }
    let ghost before = out@;
    let d: u8 = (n % 10) as u8;
    out.push((48u8 + d) as char);
    proof {
        if n < 10 {
            assert(out@ =~= old(out)@ + decimal(n as nat));
        } else {
            assert(out@ =~= old(out)@ + decimal((n / 10) as nat).push(digit_char((n % 10) as nat)));
        }
    }
}

/// `n` in decimal.
pub fn decimal_text(n: u64) -> (r: String)
    ensures
        r@ == decimal(n as nat),
{
    wide_decimal_text(n as u128)
}

/// `n` in decimal.
pub fn wide_decimal_text(n: u128) -> (r: String)
    ensures
        r@ == decimal(n as nat),
{
    let mut out: Vec<char> = Vec::new();
    push_decimal(&mut out, n);
    proof {
        assert(out@ =~= decimal(n as nat));
    }
    string_of(out.as_slice())
}

/// An integer in decimal.
pub open spec fn signed_decimal(n: int) -> Seq<char> {
    if n < 0 {
        "-"@ + decimal((-n) as nat)
    } else {
        decimal(n as nat)
    }
}

/// An integer in decimal.
pub fn signed_text(n: i64) -> (r: String)
    ensures
        r@ == signed_decimal(n as int),
{
    if n < 0 {
        let mut out: String = "-".to_owned();
        out.push_str(wide_decimal_text((-(n as i128)) as u128).as_str());
        out
    } else {
        decimal_text(n as u64)
    }
}

/// Whether `s` holds decimal digits only.
pub open spec fn all_digits(s: Seq<char>) -> bool {
    forall|i: int| 0 <= i < s.len() ==> is_digit(#[trigger] s[i])
}

/// The number that the digits of `s` stand for.
pub open spec fn digits_value(s: Seq<char>) -> nat
    decreases s.len(),
{
    if s.len() == 0 {
        0
    } else {
        digits_value(s.drop_last()) * 10 + ((s.last() as u32) - ('0' as u32)) as nat
    }
}

/// `s` without one leading `+`.
pub open spec fn unsigned_body(s: Seq<char>) -> Seq<char> {
    if s.len() > 0 && s[0] == '+' {
        s.skip(1)
    } else {
        s
    }
}

/// The unsigned number that `s` spells, when it is at most `max`: an optional
/// `+` and at least one digit.
pub open spec fn parse_unsigned(s: Seq<char>, max: nat) -> Option<nat> {
    let body = unsigned_body(s);
    if body.len() > 0 && all_digits(body) && digits_value(body) <= max {
        Some(digits_value(body))
    } else {
        None
    }
}

/// A longer run of digits stands for no smaller number.
pub proof fn lemma_digits_grow(s: Seq<char>, i: int)
    requires
        all_digits(s),
        0 <= i <= s.len(),
    ensures
        digits_value(s.take(i)) <= digits_value(s),
    decreases s.len() - i,
{
    if i < s.len() {
        lemma_digits_grow(s, i + 1);
        assert(s.take(i + 1).drop_last() =~= s.take(i));
    } else {
        assert(s.take(i) =~= s);
    }
}

/// Reading back a decimal gives the number.
pub proof fn lemma_decimal_reads_back(n: nat)
    ensures
        all_digits(decimal(n)),
        digits_value(decimal(n)) == n,
        decimal(n).len() > 0,
        parse_unsigned(decimal(n), n) == Some(n),
    decreases n,
{
    if n >= 10 {
        lemma_decimal_reads_back(n / 10);
        let s = decimal(n);
        assert(s.drop_last() =~= decimal(n / 10));
        assert forall|i: int| 0 <= i < s.len() implies is_digit(#[trigger] s[i]) by {
            if i < s.len() - 1 {
                assert(s[i] == decimal(n / 10)[i]);
            }
        }
    } else {
        let s = decimal(n);
        assert(s.drop_last() =~= Seq::<char>::empty());
        assert(digits_value(s.drop_last()) == 0);
    }
    assert(is_digit(decimal(n)[0]));
    assert(unsigned_body(decimal(n)) == decimal(n));
}

/// The unsigned number that `cs` spells, when it is at most `max`.
pub fn parse_unsigned_chars(cs: &[char], max: u64) -> (r: Option<u64>)
    ensures
        r is Some <==> parse_unsigned(cs@, max as nat) is Some,
        r matches Some(n) ==> parse_unsigned(cs@, max as nat) == Some(n as nat),
{
    let start: usize = if cs.len() > 0 && cs[0] == '+' {
        1
    } else {
        0
    };
    let ghost body = unsigned_body(cs@);
    proof {
        assert(body =~= cs@.skip(start as int));
    }
    if start == cs.len() {
        return None;
    }
    let mut value: u64 = 0;
    let mut i: usize = start;
    proof {
        assert(body.take(0) =~= Seq::<char>::empty());
    }
    while i < cs.len()
        invariant
            start <= i <= cs@.len(),
            start <= 1,
            body == unsigned_body(cs@),
            body == cs@.skip(start as int),
            body.len() > 0,
            value == digits_value(body.take(i - start)),
            value <= max,
            forall|k: int| 0 <= k < i - start ==> is_digit(#[trigger] body[k]),
        decreases cs@.len() - i,
    {
        let c: char = cs[i];
        proof {
            assert(body[i - start] == c);
        }
        if c < '0' || c > '9' {
            return None;
        }
        let d: u64 = (c as u32 - '0' as u32) as u64;
        proof {
            assert(body.take(i - start + 1).drop_last() =~= body.take(i - start));
            assert(body.take(i - start + 1).last() == c);
            if all_digits(body) {
                lemma_digits_grow(body, i - start + 1);
            }
        }
        if value > max / 10 {
            return None;
        }
        if d > max - value * 10 {
            return None;
        }
        value = value * 10 + d;
        i = i + 1;
    }
    proof {
        assert(body.take(cs@.len() - start) =~= body);
    }
    Some(value)
}

// ---------------------------------------------------------------------------
// Labels.

/// Whether some label says `what`.
pub open spec fn says(labels: Seq<String>, what: Seq<char>) -> bool {
    exists|i: int| 0 <= i < labels.len() && label_suffix((#[trigger] labels[i])@) == what
}

/// Whether some label says `what`.
pub fn any_label(labels: &[String], what: &str) -> (r: bool)
    ensures
        r == says(labels@, what@),
{
    let mut i: usize = 0;
    while i < labels.len()
        invariant
            i <= labels@.len(),
            forall|k: int| 0 <= k < i ==> label_suffix((#[trigger] labels@[k])@) != what@,
        decreases labels@.len() - i,
    {
        let suffix: Vec<char> = label_suffix_of(labels[i].as_str());
        if chars_eq(suffix.as_slice(), what) {
            return true;
        }
        i = i + 1;
    }
    false
}

// ---------------------------------------------------------------------------
// Order.

/// Whether `a` comes before `b`: at the first difference it has the smaller
/// character, or it ends there.
pub open spec fn text_lt(a: Seq<char>, b: Seq<char>) -> bool
    decreases b.len(),
{
    if b.len() == 0 {
        false
    } else if a.len() == 0 {
        true
    } else {
        a[0] < b[0] || (a[0] == b[0] && text_lt(a.skip(1), b.skip(1)))
    }
}

/// No text comes before itself.
pub proof fn lemma_text_lt_irreflexive(a: Seq<char>)
    ensures
        !text_lt(a, a),
    decreases a.len(),
{
    if a.len() > 0 {
        lemma_text_lt_irreflexive(a.skip(1));
    }
}

/// The order of texts is total.
pub proof fn lemma_text_lt_total(a: Seq<char>, b: Seq<char>)
    ensures
        !text_lt(a, a),
        text_lt(a, b) ==> !text_lt(b, a) && a != b,
        text_lt(a, b) || text_lt(b, a) || a == b,
    decreases a.len() + b.len(),
{
    lemma_text_lt_irreflexive(a);
    if a.len() > 0 && b.len() > 0 {
        lemma_text_lt_total(a.skip(1), b.skip(1));
        if a[0] == b[0] && a.skip(1) == b.skip(1) {
            assert(a =~= seq![a[0]] + a.skip(1));
            assert(b =~= seq![b[0]] + b.skip(1));
        }
    } else if a.len() == 0 && b.len() == 0 {
        assert(a =~= b);
    }
}

/// The order of texts is transitive.
pub proof fn lemma_text_lt_transitive(a: Seq<char>, b: Seq<char>, c: Seq<char>)
    requires
        text_lt(a, b),
        text_lt(b, c),
    ensures
        text_lt(a, c),
    decreases b.len(),
{
    if a.len() > 0 && a[0] == b[0] && b[0] == c[0] {
        lemma_text_lt_transitive(a.skip(1), b.skip(1), c.skip(1));
    }
}

/// Whether `a` comes before `b`.
pub fn text_less(a: &str, b: &str) -> (r: bool)
    ensures
        r == text_lt(a@, b@),
{
    let x: Vec<char> = chars_of(a);
    let y: Vec<char> = chars_of(b);
    let mut i: usize = 0;
    proof {
        assert(x@.skip(0) =~= x@);
        assert(y@.skip(0) =~= y@);
    }
    while i < x.len() && i < y.len()
        invariant
            i <= x@.len(),
            i <= y@.len(),
            x@ == a@,
            y@ == b@,
            text_lt(x@, y@) == text_lt(x@.skip(i as int), y@.skip(i as int)),
        decreases x@.len() - i,
    {
        proof {
            assert(x@.skip(i as int).skip(1) =~= x@.skip(i + 1));
            assert(y@.skip(i as int).skip(1) =~= y@.skip(i + 1));
            assert(x@.skip(i as int)[0] == x@[i as int]);
            assert(y@.skip(i as int)[0] == y@[i as int]);
        }
        if x[i] != y[i] {
            return x[i] < y[i];
        }
        i = i + 1;
    }
    i < y.len()
}

/// The contents of strings.
pub open spec fn views(v: Seq<String>) -> Seq<Seq<char>> {
    Seq::new(v.len(), |i: int| v[i]@)
}

/// Whether the texts are in ascending order without repetition.
pub open spec fn ascending(v: Seq<Seq<char>>) -> bool {
    forall|i: int, j: int| 0 <= i < j < v.len() ==> text_lt(#[trigger] v[i], #[trigger] v[j])
}

/// Ascending texts are fixed by which texts they are.
pub proof fn lemma_ascending_unique(a: Seq<Seq<char>>, b: Seq<Seq<char>>)
    requires
        ascending(a),
        ascending(b),
        a.to_set() == b.to_set(),
    ensures
        a == b,
    decreases a.len(),
{
    if a.len() == 0 || b.len() == 0 {
        if a.len() > 0 {
            assert(a.to_set().contains(a[0]));
        }
        if b.len() > 0 {
            assert(b.to_set().contains(b[0]));
        }
        assert(a =~= b);
    } else {
        assert(a.to_set().contains(a[0]) && b.to_set().contains(b[0]));
        let i = choose|i: int| 0 <= i < b.len() && b[i] == a[0];
        let j = choose|j: int| 0 <= j < a.len() && a[j] == b[0];
        if i > 0 && j > 0 {
            assert(text_lt(b[0], b[i]) && text_lt(a[0], a[j]));
            lemma_text_lt_transitive(a[0], b[0], a[0]);
            lemma_text_lt_irreflexive(a[0]);
        }
        assert(a[0] == b[0]);
        let x = a.skip(1);
        let y = b.skip(1);
        assert(x.to_set() =~= y.to_set()) by {
            assert forall|t: Seq<char>| x.contains(t) implies y.contains(t) by {
                let k = choose|k: int| 0 <= k < x.len() && x[k] == t;
                assert(a[k + 1] == t && text_lt(a[0], a[k + 1]));
                assert(a.to_set().contains(t));
                let m = choose|m: int| 0 <= m < b.len() && b[m] == t;
                if m == 0 {
                    lemma_text_lt_irreflexive(t);
                }
                assert(y[m - 1] == t);
            }
            assert forall|t: Seq<char>| y.contains(t) implies x.contains(t) by {
                let k = choose|k: int| 0 <= k < y.len() && y[k] == t;
                assert(b[k + 1] == t && text_lt(b[0], b[k + 1]));
                assert(b.to_set().contains(t));
                let m = choose|m: int| 0 <= m < a.len() && a[m] == t;
                if m == 0 {
                    lemma_text_lt_irreflexive(t);
                }
                assert(x[m - 1] == t);
            }
        }
        lemma_ascending_unique(x, y);
        assert(a =~= seq![a[0]] + x);
        assert(b =~= seq![b[0]] + y);
    }
}

/// Copies of strings.
pub fn copy_strings(v: &[String]) -> (r: Vec<String>)
    ensures
        r@ == v@,
{
    let mut out: Vec<String> = Vec::new();
    let mut i: usize = 0;
    while i < v.len()
        invariant
            i <= v@.len(),
            out@ == v@.take(i as int),
        decreases v@.len() - i,
    {
        proof {
            assert(v@.take(i + 1) =~= v@.take(i as int).push(v@[i as int]));
        }
        out.push(v[i].clone());
        i = i + 1;
    }
    proof {
        assert(v@.take(v@.len() as int) =~= v@);
    }
    out
}

// ---------------------------------------------------------------------------
// Bytes.

/// The text of bytes, with replacement characters where they are not UTF-8.
pub uninterp spec fn utf8_lossy(bytes: Seq<u8>) -> Seq<char>;

/// `String::from_utf8_lossy`: the text of the bytes. Invalid sequences become
/// replacement characters; bytes that are UTF-8 are kept as they are.
#[verifier::external_body]
pub(crate) fn lossy_text(bytes: &[u8]) -> (r: String)
    ensures
        r@ == utf8_lossy(bytes@),
        vstd::utf8::valid_utf8(bytes@) ==> r@ == vstd::utf8::decode_utf8(bytes@),
{
    String::from_utf8_lossy(bytes).into_owned()
}

/// The character of a hexadecimal digit.
pub open spec fn hex_char(d: nat) -> char {
    if d < 10 {
        digit_char(d)
    } else {
        (('a' as u32) + d - 10) as char
    }
}

/// `n` in hexadecimal, without leading zeros.
pub open spec fn short_hex(n: nat) -> Seq<char>
    decreases n,
{
    if n < 16 {
        seq![hex_char(n)]
    } else {
        short_hex(n / 16).push(hex_char(n % 16))
    }
}

/// Appends `n` in hexadecimal.
pub fn push_short_hex(out: &mut Vec<char>, n: u64)
    ensures
        final(out)@ == old(out)@ + short_hex(n as nat),
    decreases n,
{
    if n >= 16 {
        push_short_hex(out, n / 16);
    }
    let ghost before = out@;
    let d: u8 = (n % 16) as u8;
    if d < 10 {
        out.push((48u8 + d) as char);
    } else {
        out.push((87u8 + d) as char);
    }
    proof {
        if n < 16 {
            assert(out@ =~= old(out)@ + short_hex(n as nat));
        } else {
            assert(out@ =~= old(out)@ + short_hex((n / 16) as nat).push(hex_char((n % 16) as nat)));
        }
    }
}

/// The last `k` hexadecimal digits of `n`.
pub open spec fn hex(n: nat, k: nat) -> Seq<char>
    decreases k,
{
    if k == 0 {
        Seq::empty()
    } else {
        hex(n / 16, (k - 1) as nat).push(hex_char(n % 16))
    }
}

/// Appends the last `k` hexadecimal digits of `n`.
pub fn push_hex(out: &mut Vec<char>, n: u64, k: usize)
    ensures
        final(out)@ == old(out)@ + hex(n as nat, k as nat),
    decreases k,
{
    if k > 0 {
        push_hex(out, n / 16, k - 1);
        let ghost before = out@;
        let d: u8 = (n % 16) as u8;
        if d < 10 {
            out.push((48u8 + d) as char);
        } else {
            out.push((87u8 + d) as char);
        }
        proof {
            assert(out@ =~= old(out)@ + hex(n as nat, k as nat));
        }
    } else {
        proof {
            assert(out@ =~= old(out)@ + hex(n as nat, 0));
        }
    }
}

/// Whether `pat` stands at position `k` of `s`.
pub open spec fn occurs_at(s: Seq<char>, pat: Seq<char>, k: int) -> bool {
    0 <= k && k + pat.len() <= s.len() && s.subrange(k, k + pat.len()) == pat
}

/// The first position from `i` on at which `pat` stands in `s`.
pub open spec fn find_text(s: Seq<char>, pat: Seq<char>, i: int) -> Option<int>
    decreases s.len() - i + 1,
{
    if i + pat.len() > s.len() {
        None
    } else if occurs_at(s, pat, i) {
        Some(i)
    } else {
        find_text(s, pat, i + 1)
    }
}

/// The last position up to `i` at which `pat` stands in `s`.
pub open spec fn rfind_text(s: Seq<char>, pat: Seq<char>, i: int) -> Option<int>
    decreases i + 1,
{
    if i < 0 {
        None
    } else if occurs_at(s, pat, i) {
        Some(i)
    } else {
        rfind_text(s, pat, i - 1)
    }
}

/// Whether `pat` stands at position `k` of `cs`.
fn stands_at(cs: &[char], pat: &[char], k: usize) -> (r: bool)
    requires
        k + pat.len() <= cs.len(),
    ensures
        r == occurs_at(cs@, pat@, k as int),
{
    let mut j: usize = 0;
    while j < pat.len()
        invariant
            j <= pat.len(),
            k + pat.len() <= cs.len(),
            forall|q: int| 0 <= q < j ==> cs@[k + q] == pat@[q],
        decreases pat.len() - j,
    {
        if cs[k + j] != pat[j] {
            proof {
                assert(cs@.subrange(k as int, k + pat@.len())[j as int] == cs@[k + j]);
            }
            return false;
        }
        j += 1;
    }
    proof {
        assert(cs@.subrange(k as int, k + pat@.len()) =~= pat@);
    }
    true
}

/// The first position from `from` on at which `pat` stands.
pub fn find_text_chars(cs: &[char], pat: &[char], from: usize) -> (r: Option<usize>)
    requires
        from <= cs.len(),
    ensures
        r is Some <==> find_text(cs@, pat@, from as int) is Some,
        r matches Some(k) ==> find_text(cs@, pat@, from as int) == Some(k as int),
        r matches Some(k) ==> from <= k && k + pat@.len() <= cs@.len(),
{
    if pat.len() > cs.len() {
        return None;
    }
    let last: usize = cs.len() - pat.len();
    let mut k: usize = from;
    while k <= last
        invariant
            from <= k <= cs.len(),
            last + pat.len() == cs.len(),
            find_text(cs@, pat@, from as int) == find_text(cs@, pat@, k as int),
        decreases cs.len() - k,
    {
        if stands_at(cs, pat, k) {
            return Some(k);
        }
        if k == cs.len() {
            proof {
                assert(find_text(cs@, pat@, k as int) == find_text(cs@, pat@, k + 1));
            }
            return None;
        }
        k += 1;
    }
    None
}

/// The last position at which `pat` stands.
pub fn rfind_text_chars(cs: &[char], pat: &[char]) -> (r: Option<usize>)
    ensures
        r is Some <==> rfind_text(cs@, pat@, cs@.len() - pat@.len()) is Some,
        r matches Some(k) ==> rfind_text(cs@, pat@, cs@.len() - pat@.len()) == Some(k as int),
        r matches Some(k) ==> k + pat@.len() <= cs@.len(),
{
    if pat.len() > cs.len() {
        return None;
    }
    let mut k: usize = cs.len() - pat.len();
    loop
        invariant
            k + pat.len() <= cs.len(),
            rfind_text(cs@, pat@, cs@.len() - pat@.len()) == rfind_text(cs@, pat@, k as int),
        decreases k,
    {
        if stands_at(cs, pat, k) {
            return Some(k);
        }
        if k == 0 {
            proof {
                assert(rfind_text(cs@, pat@, -1) is None);
            }
            return None;
        }
        k -= 1;
    }
}

/// The parts before and after the last place where `pat` stands.
pub open spec fn rsplit_once_text(s: Seq<char>, pat: Seq<char>) -> Option<(Seq<char>, Seq<char>)> {
    match rfind_text(s, pat, s.len() - pat.len()) {
        Some(k) => Some((s.take(k), s.skip(k + pat.len()))),
        None => None,
    }
}

/// The parts before and after the last place where `pat` stands.
pub fn rsplit_once_text_chars(cs: &[char], pat: &str) -> (r: Option<(Vec<char>, Vec<char>)>)
    ensures
        r is Some <==> rsplit_once_text(cs@, pat@) is Some,
        r matches Some(p) ==> rsplit_once_text(cs@, pat@) == Some((p.0@, p.1@)),
{
    let pattern: Vec<char> = chars_of(pat);
    match rfind_text_chars(cs, pattern.as_slice()) {
        Some(k) => {
            let before: Vec<char> = slice_of(cs, 0, k);
            let total: usize = cs.len();
            let after: Vec<char> = slice_of(cs, k + pattern.len(), total);
            proof {
                assert(before@ =~= cs@.take(k as int));
                assert(after@ =~= cs@.skip(k + pat@.len()));
            }
            Some((before, after))
        },
        None => None,
    }
}

/// `String::from_utf8`: the text that the bytes encode, when they are UTF-8.
#[verifier::external_body]
pub(crate) fn utf8_text(bytes: Vec<u8>) -> (r: Option<String>)
    ensures
        r is Some <==> valid_utf8(bytes@),
        r matches Some(s) ==> s@ == decode_utf8(bytes@),
{
    String::from_utf8(bytes).ok()
}

// ---------------------------------------------------------------------------
// Joined texts.

/// Texts with a separator between them.
pub open spec fn joined(parts: Seq<Seq<char>>, separator: Seq<char>) -> Seq<char>
    decreases parts.len(),
{
    if parts.len() == 0 {
        Seq::empty()
    } else if parts.len() == 1 {
        parts[0]
    } else {
        joined(parts.drop_last(), separator) + separator + parts.last()
    }
}

/// The first `n` texts with a separator between them.
pub fn join_texts(parts: &[String], n: usize, separator: &str) -> (r: String)
    requires
        n <= parts@.len(),
    ensures
        r@ == joined(views(parts@).take(n as int), separator@),
{
    let ghost all = views(parts@);
    let mut out: String = String::new();
    let mut i: usize = 0;
    while i < n
        invariant
            i <= n <= parts.len(),
            all == views(parts@),
            out@ == joined(all.take(i as int), separator@),
        decreases n - i,
    {
        proof {
            assert(all.take(i + 1).drop_last() =~= all.take(i as int));
            assert(all.take(i + 1).last() == parts@[i as int]@);
        }
        if i == 0 {
            out = parts[0].clone();
            proof {
                assert(all.take(1)[0] == parts@[0]@);
            }
        } else {
            out.push_str(separator);
            out.push_str(parts[i].as_str());
        }
        i += 1;
    }
    out
}

} // verus!

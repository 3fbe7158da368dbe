//! Command-line options as a table, and reading an argument list by it.

use std::str::FromStr;

use clap::builder::{PathBufValueParser, RangedU64ValueParser};
use clap::{Arg, ArgAction};
use vstd::prelude::*;

use crate::text::{self, chars_of, parse_unsigned_chars, starts_with, str_eq};

verus! {

/// What an option takes.
#[derive(Debug, Clone, Copy, PartialEq, Eq, Structural)]
pub enum Takes {
    /// Nothing: it is there or not.
    Nothing,
    /// One text.
    Text,
    /// One text each time it is given.
    Texts,
    /// Every argument that belongs to no option.
    Positionals,
    /// One path, which is not empty.
    Path,
    /// An integer in a range.
    Between { min: i64, max: i64 },
    /// An unsigned 64-bit integer.
    U64,
    /// A size, up to the largest that the machine has.
    Size { max: usize },
}

/// One option of a command.
#[derive(Debug, Clone, Copy)]
pub struct OptionSpec {
    /// The name under which its values are found.
    pub id: &'static str,
    pub short: Option<char>,
    pub long: Option<&'static str>,
    pub alias: Option<&'static str>,
    /// What messages call its value.
    pub value_name: &'static str,
    pub takes: Takes,
    pub default: Option<&'static str>,
    /// Whether its value may start with a hyphen.
    pub hyphens: bool,
}

/// An option as a mathematical value.
pub struct OptionView {
    pub id: Seq<char>,
    pub short: Option<char>,
    pub long: Option<Seq<char>>,
    pub alias: Option<Seq<char>>,
    pub value_name: Seq<char>,
    pub takes: Takes,
    pub default: Option<Seq<char>>,
    pub hyphens: bool,
}

/// The view of an optional text.
pub open spec fn name_view(name: Option<&'static str>) -> Option<Seq<char>> {
    match name {
        Some(name) => Some(name@),
        None => None,
    }
}

impl View for OptionSpec {
    type V = OptionView;

    open spec fn view(&self) -> OptionView {
        OptionView {
            id: self.id@,
            short: self.short,
            long: name_view(self.long),
            alias: name_view(self.alias),
            value_name: self.value_name@,
            takes: self.takes,
            default: name_view(self.default),
            hyphens: self.hyphens,
        }
    }
}

/// Options as mathematical values.
pub open spec fn option_views(options: Seq<OptionSpec>) -> Seq<OptionView> {
    Seq::new(options.len(), |i: int| options[i]@)
}

/// A flag.
pub open spec fn flag_view(long: Seq<char>) -> OptionView {
    OptionView {
        id: long,
        short: None,
        long: Some(long),
        alias: None,
        value_name: long,
        takes: Takes::Nothing,
        default: None,
        hyphens: false,
    }
}

/// A flag.
pub(crate) fn flag(long: &'static str) -> (r: OptionSpec)
    ensures
        r@ == flag_view(long@),
{
    OptionSpec {
        id: long,
        short: None,
        long: Some(long),
        alias: None,
        value_name: long,
        takes: Takes::Nothing,
        default: None,
        hyphens: false,
    }
}

/// An option with a value.
pub open spec fn valued_view(
    long: Seq<char>,
    value_name: Seq<char>,
    takes: Takes,
    default: Option<Seq<char>>,
) -> OptionView {
    OptionView {
        id: long,
        short: None,
        long: Some(long),
        alias: None,
        value_name,
        takes,
        default,
        hyphens: false,
    }
}

/// An option with a value that may be absent.
pub(crate) fn valued(long: &'static str, value_name: &'static str, takes: Takes) -> (r: OptionSpec)
    ensures
        r@ == valued_view(long@, value_name@, takes, None),
{
    OptionSpec {
        id: long,
        short: None,
        long: Some(long),
        alias: None,
        value_name,
        takes,
        default: None,
        hyphens: false,
    }
}

/// An option with a value and a default.
pub(crate) fn defaulted(
    long: &'static str,
    value_name: &'static str,
    takes: Takes,
    default: &'static str,
) -> (r: OptionSpec)
    ensures
        r@ == valued_view(long@, value_name@, takes, Some(default@)),
{
    OptionSpec {
        id: long,
        short: None,
        long: Some(long),
        alias: None,
        value_name,
        takes,
        default: Some(default),
        hyphens: false,
    }
}

/// Puts an option at the end of a table.
pub(crate) fn push_option(table: &mut Vec<OptionSpec>, option: OptionSpec)
    ensures
        option_views(final(table)@) == option_views(old(table)@).push(option@),
{
    table.push(option);
    proof {
        assert(option_views(table@) =~= option_views(old(table)@).push(option@));
    }
}

// ---------------------------------------------------------------------------
// Options that fit together.

/// Whether an option stands by itself: it has a name unless it takes the
/// positional arguments, its short name is no hyphen and its long names do not start
/// with one, only an option with a text may admit hyphens, the limit of a size is the
/// machine's, and a default is one that it would accept.
pub open spec fn is_sound(o: OptionView) -> bool {
    &&& (o.takes is Positionals) == (o.short is None && o.long is None)
    &&& o.takes is Positionals ==> o.alias is None
    &&& o.short != Some('-')
    &&& o.long matches Some(long) ==> long.len() > 0 && !"-"@.is_prefix_of(long)
    &&& o.alias matches Some(alias) ==> alias.len() > 0 && !"-"@.is_prefix_of(alias)
    &&& o.hyphens ==> o.takes is Text || o.takes is Texts
    &&& o.takes matches Takes::Size { max } ==> max == usize::MAX
    &&& o.default matches Some(default) ==> match o.takes {
        Takes::Text => true,
        Takes::Between { min, max } => min <= 0 && max >= 0 && text::parse_unsigned(
            default,
            max as nat,
        ) is Some,
        Takes::U64 => text::parse_unsigned(default, u64::MAX as nat) is Some,
        Takes::Size { .. } => text::parse_unsigned(default, u32::MAX as nat) is Some,
        _ => false,
    }
}

/// Whether two options answer to one name.
pub open spec fn clash(a: OptionView, b: OptionView) -> bool {
    ||| a.id == b.id
    ||| a.takes is Positionals && b.takes is Positionals
    ||| a.short is Some && a.short == b.short
    ||| a.long is Some && (a.long == b.long || a.long == b.alias)
    ||| a.alias is Some && (a.alias == b.long || a.alias == b.alias)
}

/// Whether an option can join others.
pub open spec fn joins(o: OptionView, others: Seq<OptionView>) -> bool {
    is_sound(o) && forall|i: int| 0 <= i < others.len() ==> !clash(o, #[trigger] others[i])
}

/// Whether options make up a command.
pub open spec fn consistent(options: Seq<OptionView>) -> bool {
    forall|i: int|
        0 <= i < options.len() ==> joins(#[trigger] options[i], options.take(i))
}

/// The options of a table, without those that do not fit the ones before them.
pub open spec fn fitting(table: Seq<OptionView>) -> Seq<OptionView>
    decreases table.len(),
{
    if table.len() == 0 {
        Seq::empty()
    } else {
        let before = fitting(table.drop_last());
        if joins(table.last(), before) {
            before.push(table.last())
        } else {
            before
        }
    }
}

fn same_name(a: Option<&'static str>, b: Option<&'static str>) -> (r: bool)
    ensures
        r == (a is Some && name_view(a) == name_view(b)),
{
    match (a, b) {
        (Some(a), Some(b)) => str_eq(a, b),
        _ => false,
    }
}

fn names_itself_well(name: Option<&'static str>) -> (r: bool)
    ensures
        r == (name_view(name) matches Some(n) ==> n.len() > 0 && !"-"@.is_prefix_of(n)),
{
    match name {
        Some(name) => {
            let cs: Vec<char> = chars_of(name);
            cs.len() > 0 && !starts_with(cs.as_slice(), "-")
        },
        None => true,
    }
}

fn default_is_accepted(option: &OptionSpec) -> (r: bool)
    ensures
        r == (option@.default matches Some(default) ==> match option.takes {
            Takes::Text => true,
            Takes::Between { min, max } => min <= 0 && max >= 0 && text::parse_unsigned(
                default,
                max as nat,
            ) is Some,
            Takes::U64 => text::parse_unsigned(default, u64::MAX as nat) is Some,
            Takes::Size { .. } => text::parse_unsigned(default, u32::MAX as nat) is Some,
            _ => false,
        }),
{
    match option.default {
        Some(default) => {
            let cs: Vec<char> = chars_of(default);
            match option.takes {
                Takes::Text => true,
                Takes::Between { min, max } => min <= 0 && max >= 0 && parse_unsigned_chars(
                    cs.as_slice(),
                    max as u64,
                ).is_some(),
                Takes::U64 => parse_unsigned_chars(cs.as_slice(), u64::MAX).is_some(),
                Takes::Size { .. } => parse_unsigned_chars(
                    cs.as_slice(),
                    u32::MAX as u64,
                ).is_some(),
                _ => false,
            }
        },
        None => true,
    }
}

fn stands_alone(option: &OptionSpec) -> (r: bool)
    ensures
        r == is_sound(option@),
{
    let positional: bool = matches!(option.takes, Takes::Positionals);
    let hyphen: bool = match option.short {
        Some(short) => short == '-',
        None => false,
    };
    let nameless: bool = option.short.is_none() && option.long.is_none();
    let texts: bool = matches!(option.takes, Takes::Text | Takes::Texts);
    let fits: bool = match option.takes {
        Takes::Size { max } => max == usize::MAX,
        _ => true,
    };
    fits && positional == nameless && (!positional || option.alias.is_none()) && !hyphen
        && names_itself_well(option.long) && names_itself_well(option.alias) && (!option.hyphens
        || texts) && default_is_accepted(option)
}

fn clashes(a: &OptionSpec, b: &OptionSpec) -> (r: bool)
    ensures
        r == clash(a@, b@),
{
    let both_positional: bool = matches!(a.takes, Takes::Positionals) && matches!(
        b.takes,
        Takes::Positionals
    );
    let same_short: bool = match (a.short, b.short) {
        (Some(x), Some(y)) => x == y,
        _ => false,
    };
    str_eq(a.id, b.id) || both_positional || same_short || same_name(a.long, b.long) || same_name(
        a.long,
        b.alias,
    ) || same_name(a.alias, b.long) || same_name(a.alias, b.alias)
}

fn can_join(option: &OptionSpec, others: &Vec<OptionSpec>) -> (r: bool)
    ensures
        r == joins(option@, option_views(others@)),
{
    if !stands_alone(option) {
        return false;
    }
    let mut i: usize = 0;
    while i < others.len()
        invariant
            i <= others.len(),
            forall|k: int| 0 <= k < i ==> !clash(option@, #[trigger] option_views(others@)[k]),
        decreases others.len() - i,
    {
        if clashes(option, &others[i]) {
            proof {
                assert(clash(option@, option_views(others@)[i as int]));
            }
            return false;
        }
        i += 1;
    }
    true
}

// ---------------------------------------------------------------------------
// Reading an argument list.

/// `clap::Command`, a command under construction.
#[verifier::external_type_specification]
#[verifier::external_body]
pub struct ExCommand(clap::Command);

/// The options of a command.
pub uninterp spec fn options_of(command: clap::Command) -> Seq<OptionView>;

/// The values that an argument list gives the options: names with texts. There are
/// none for an argument list that the options do not admit.
pub uninterp spec fn read_by(options: Seq<OptionView>, argv: Seq<Seq<char>>) -> Option<
    Seq<(Seq<char>, Seq<Seq<char>>)>,
>;

/// `clap::Command::new` and `disable_help_flag`: a command without options.
#[verifier::external_body]
fn new_command() -> (r: clap::Command)
    ensures
        (options_of(r) == Seq::<OptionView>::empty()),
{
    clap::Command::new("quokka").disable_help_flag(true)
}

/// `clap::Command::arg` with a `clap::Arg`: the command with one more option.
/// `clap::Arg::short` panics on a hyphen, which the precondition leaves out.
#[verifier::external_body]
fn with_option(command: clap::Command, option: &OptionSpec) -> (r: clap::Command)
    requires
        is_sound(option@),
    ensures
        options_of(r) == options_of(command).push(option@),
{
    let arg = Arg::new(option.id).short(option.short).long(option.long).alias(option.alias);
    let arg = arg.value_name(option.value_name).default_value(option.default);
    let arg = arg.allow_hyphen_values(option.hyphens);
    command.arg(match option.takes {
        Takes::Nothing => arg.action(ArgAction::SetTrue),
        Takes::Text => arg,
        Takes::Texts => arg.action(ArgAction::Append),
        Takes::Positionals => arg.action(ArgAction::Append).num_args(1..),
        Takes::Path => arg.value_parser(PathBufValueParser::new()),
        Takes::Between { min, max } => arg.value_parser(min..=max),
        Takes::U64 => arg.value_parser(RangedU64ValueParser::<u64>::new()),
        Takes::Size { .. } => arg.value_parser(usize::from_str),
    })
}

/// `clap::Command::try_get_matches_from` and `clap::ArgMatches::get_raw`: the
/// texts that each option was given or has by default, by the name of the option;
/// a flag is given the text `true` or `false`. The first argument is the program.
/// Whether the arguments are admitted, and the values, depend on the options and the
/// arguments alone. Of the message of a refusal nothing is said: it names the program
/// as the machine's rules for paths have it. clap's own consistency checks, which
/// panic, are left out by the precondition.
#[verifier::external_body]
fn matches_from(command: clap::Command, argv: &[String]) -> (r: Result<
    Vec<(String, Vec<String>)>,
    String,
>)
    requires
        consistent(options_of(command)),
    ensures
        is_reading(reading_view(r), read_by(options_of(command), text::views(argv@))),
{
    let matches = command.try_get_matches_from(argv).map_err(|e| e.to_string())?;
    let texts = |id: &str| {
        let raw = matches.get_raw(id).into_iter().flatten();
        raw.map(|value| value.to_string_lossy().into_owned()).collect()
    };
    Ok(matches.ids().map(|id| (id.to_string(), texts(id.as_str()))).collect())
}

/// Values as mathematical values.
pub open spec fn value_views(values: Seq<(String, Vec<String>)>) -> Seq<
    (Seq<char>, Seq<Seq<char>>),
> {
    Seq::new(values.len(), |i: int| (values[i].0@, text::views(values[i].1@)))
}

/// The values that were read, or the message of a refusal, as mathematical values.
pub open spec fn reading_view(r: Result<Vec<(String, Vec<String>)>, String>) -> Result<
    Seq<(Seq<char>, Seq<Seq<char>>)>,
    Seq<char>,
> {
    match r {
        Ok(values) => Ok(value_views(values@)),
        Err(message) => Err(message@),
    }
}

/// Whether the values are those of the reading, or a refusal is right.
pub open spec fn is_reading(
    r: Result<Seq<(Seq<char>, Seq<Seq<char>>)>, Seq<char>>,
    reading: Option<Seq<(Seq<char>, Seq<Seq<char>>)>>,
) -> bool {
    match r {
        Ok(values) => reading == Some(values),
        Err(_) => reading is None,
    }
}

/// Reads an argument list by the options of a table. Options that do not fit the
/// ones before them are left out.
pub fn read_arguments(table: &Vec<OptionSpec>, argv: &[String]) -> (r: Result<
    Vec<(String, Vec<String>)>,
    String,
>)
    ensures
        is_reading(reading_view(r), read_by(fitting(option_views(table@)), text::views(argv@))),
{
    let ghost all = option_views(table@);
    let mut command: clap::Command = new_command();
    let mut kept: Vec<OptionSpec> = Vec::new();
    let mut i: usize = 0;
    proof {
        assert(option_views(kept@) =~= Seq::<OptionView>::empty());
    }
    while i < table.len()
        invariant
            i <= table.len(),
            all == option_views(table@),
            options_of(command) == option_views(kept@),
            option_views(kept@) == fitting(all.take(i as int)),
            consistent(option_views(kept@)),
        decreases table.len() - i,
    {
        let option: OptionSpec = table[i];
        proof {
            assert(all.take(i + 1).drop_last() =~= all.take(i as int));
            assert(all.take(i + 1).last() == option@);
        }
        if can_join(&option, &kept) {
            let ghost before = option_views(kept@);
            command = with_option(command, &option);
            push_option(&mut kept, option);
            proof {
                let after = option_views(kept@);
                assert forall|k: int| 0 <= k < after.len() implies joins(
                    #[trigger] after[k],
                    after.take(k),
                ) by {
                    assert(after.take(k) =~= before.take(k));
                    if k < before.len() {
                        assert(joins(before[k], before.take(k)));
                    } else {
                        assert(before.take(k) =~= before);
                    }
                }
            }
        }
        i += 1;
    }
    proof {
        assert(all.take(i as int) =~= all);
    }
    matches_from(command, argv)
}

// ---------------------------------------------------------------------------
// Taking single values out.

/// The texts under a name; none when the name is not there.
pub open spec fn texts_at(values: Seq<(Seq<char>, Seq<Seq<char>>)>, id: Seq<char>) -> Seq<Seq<char>>
    decreases values.len(),
{
    if values.len() == 0 {
        Seq::empty()
    } else if values[0].0 == id {
        values[0].1
    } else {
        texts_at(values.skip(1), id)
    }
}

/// The text under a name, if there is one.
pub open spec fn text_at(values: Seq<(Seq<char>, Seq<Seq<char>>)>, id: Seq<char>) -> Option<
    Seq<char>,
> {
    if texts_at(values, id).len() > 0 {
        Some(texts_at(values, id)[0])
    } else {
        None
    }
}

/// Whether a flag was given.
pub open spec fn flag_at(values: Seq<(Seq<char>, Seq<Seq<char>>)>, id: Seq<char>) -> bool {
    text_at(values, id) == Some("true"@)
}

/// The integer that a text stands for, with a sign or without one, when it is in a
/// range that includes zero.
pub open spec fn integer_between(s: Seq<char>, min: int, max: int) -> Option<int> {
    if s.len() > 0 && s[0] == '-' {
        if s.skip(1).len() > 0 && text::all_digits(s.skip(1)) && text::digits_value(s.skip(1))
            <= -min {
            Some(-(text::digits_value(s.skip(1)) as int))
        } else {
            None
        }
    } else {
        match text::parse_unsigned(s, max as nat) {
            Some(n) => Some(n as int),
            None => None,
        }
    }
}

/// The texts under a name.
pub(crate) fn get_texts(values: &[(String, Vec<String>)], id: &str) -> (r: Vec<String>)
    ensures
        text::views(r@) == texts_at(value_views(values@), id@),
{
    let ghost all = value_views(values@);
    let mut i: usize = 0;
    proof {
        assert(all.skip(0) =~= all);
    }
    while i < values.len()
        invariant
            i <= values.len(),
            all == value_views(values@),
            texts_at(all, id@) == texts_at(all.skip(i as int), id@),
        decreases values.len() - i,
    {
        proof {
            assert(all.skip(i as int)[0] == all[i as int]);
            assert(all.skip(i as int).skip(1) =~= all.skip(i + 1));
        }
        if str_eq(values[i].0.as_str(), id) {
            return text::copy_strings(values[i].1.as_slice());
        }
        i += 1;
    }
    let none: Vec<String> = Vec::new();
    proof {
        assert(text::views(none@) =~= Seq::<Seq<char>>::empty());
    }
    none
}

/// The text under a name, if there is one.
pub(crate) fn get_text(values: &[(String, Vec<String>)], id: &str) -> (r: Option<String>)
    ensures
        r is Some <==> text_at(value_views(values@), id@) is Some,
        r matches Some(t) ==> text_at(value_views(values@), id@) == Some(t@),
{
    let texts: Vec<String> = get_texts(values, id);
    proof {
        assert(text::views(texts@).len() == texts@.len());
    }
    if texts.len() > 0 {
        proof {
            assert(text::views(texts@)[0] == texts@[0]@);
        }
        Some(texts[0].clone())
    } else {
        None
    }
}

/// Whether a flag was given.
pub(crate) fn get_flag(values: &[(String, Vec<String>)], id: &str) -> (r: bool)
    ensures
        r == flag_at(value_views(values@), id@),
{
    match get_text(values, id) {
        Some(given) => str_eq(given.as_str(), "true"),
        None => false,
    }
}

/// The integer that a text stands for, when it is in a range that includes zero.
pub(crate) fn parse_between(s: &str, min: i64, max: i64) -> (r: Option<i64>)
    requires
        -0x7fff_ffff_ffff_ffff <= min <= 0 <= max,
    ensures
        r is Some <==> integer_between(s@, min as int, max as int) is Some,
        r matches Some(n) ==> integer_between(s@, min as int, max as int) == Some(n as int),
        r matches Some(n) ==> min <= n <= max,
{
    let cs: Vec<char> = chars_of(s);
    if cs.len() > 0 && cs[0] == '-' {
        let body: Vec<char> = text::slice_of(cs.as_slice(), 1, cs.len());
        let ghost rest = s@.skip(1);
        proof {
            assert(body@ =~= rest);
        }
        if body.len() == 0 || body[0] == '+' {
            proof {
                if body@.len() > 0 {
                    assert(!text::is_digit(body@[0]));
                }
            }
            return None;
        }
        let limit: u64 = (-min) as u64;
        match parse_unsigned_chars(body.as_slice(), limit) {
            Some(n) => Some(-(n as i64)),
            None => None,
        }
    } else {
        match parse_unsigned_chars(cs.as_slice(), max as u64) {
            Some(n) => Some(n as i64),
            None => None,
        }
    }
}

} // verus!

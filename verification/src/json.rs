//! JSON as the test harnesses write it: one object per line, with members of a
//! few plain kinds.

use std::collections::BTreeMap;

use serde_json::value::RawValue;
use vstd::prelude::*;

use crate::text::{self, str_eq};

verus! {

/// A member of a JSON object. Arrays, objects and numbers that are no unsigned
/// 64-bit integer are `Other`.
#[derive(Debug, Clone, PartialEq, Eq)]
pub enum JsonField {
    Null,
    Bool(bool),
    Count(u64),
    Text(String),
    Other,
}

/// A member of a JSON object as a mathematical value.
pub enum JsonView {
    Null,
    Bool(bool),
    Count(u64),
    Text(Seq<char>),
    Other,
}

impl View for JsonField {
    type V = JsonView;

    open spec fn view(&self) -> JsonView {
        match *self {
            JsonField::Null => JsonView::Null,
            JsonField::Bool(b) => JsonView::Bool(b),
            JsonField::Count(n) => JsonView::Count(n),
            JsonField::Text(t) => JsonView::Text(t@),
            JsonField::Other => JsonView::Other,
        }
    }
}

/// The members of an object: keys and values.
pub type FieldsView = Seq<(Seq<char>, JsonView)>;

/// The members of an object as mathematical values.
pub open spec fn field_views(fields: Seq<(String, JsonField)>) -> FieldsView {
    Seq::new(fields.len(), |i: int| (fields[i].0@, fields[i].1@))
}

// ---------------------------------------------------------------------------
// Written JSON.

/// A character as it stands inside a JSON string.
pub open spec fn json_escape(c: char) -> Seq<char> {
    if c == '"' {
        seq!['\\', '"']
    } else if c == '\\' {
        seq!['\\', '\\']
    } else if c == '\n' {
        seq!['\\', 'n']
    } else if c == '\r' {
        seq!['\\', 'r']
    } else if c == '\t' {
        seq!['\\', 't']
    } else if c as int == 8 {
        seq!['\\', 'b']
    } else if c as int == 12 {
        seq!['\\', 'f']
    } else if (c as int) < 32 {
        seq!['\\', 'u'] + text::hex(c as nat, 4)
    } else {
        seq![c]
    }
}

/// A text as it stands inside a JSON string.
pub open spec fn json_escaped(s: Seq<char>) -> Seq<char>
    decreases s.len(),
{
    if s.len() == 0 {
        Seq::empty()
    } else {
        json_escaped(s.drop_last()) + json_escape(s.last())
    }
}

/// A text as a JSON string.
pub open spec fn json_quoted(s: Seq<char>) -> Seq<char> {
    seq!['"'] + json_escaped(s) + seq!['"']
}

/// The members of an object: keys and the texts of their values.
pub type MembersView = Seq<(Seq<char>, Seq<char>)>;

/// A value as JSON.
pub open spec fn value_text(v: JsonView) -> Seq<char> {
    match v {
        JsonView::Null => "null"@,
        JsonView::Bool(b) => if b {
            "true"@
        } else {
            "false"@
        },
        JsonView::Count(n) => text::decimal(n as nat),
        JsonView::Text(t) => json_quoted(t),
        JsonView::Other => Seq::empty(),
    }
}

/// A member as JSON.
pub open spec fn member_text(m: (Seq<char>, Seq<char>)) -> Seq<char> {
    json_quoted(m.0) + ": "@ + m.1
}

/// Members as JSON, with commas between them.
pub open spec fn members_text(members: MembersView) -> Seq<char>
    decreases members.len(),
{
    if members.len() == 0 {
        Seq::empty()
    } else if members.len() == 1 {
        member_text(members[0])
    } else {
        members_text(members.drop_last()) + ", "@ + member_text(members.last())
    }
}

/// An object on one line.
pub open spec fn object_text(members: MembersView) -> Seq<char> {
    "{ "@ + members_text(members) + " }"@
}

/// Whether no key is repeated and every value is plain: null, a flag, a number or a
/// text.
pub open spec fn is_plain(members: MembersView) -> bool {
    &&& forall|i: int, j: int|
        0 <= i < j < members.len() ==> (#[trigger] members[i]).0 != (#[trigger] members[j]).0
    &&& forall|i: int|
        0 <= i < members.len() ==> exists|v: JsonView|
            v !is Other && (#[trigger] members[i]).1 == #[trigger] value_text(v)
}

/// The text of the value under a key, if the object has it.
pub open spec fn text_under(members: MembersView, key: Seq<char>) -> Option<Seq<char>>
    decreases members.len(),
{
    if members.len() == 0 {
        None
    } else if members[0].0 == key {
        Some(members[0].1)
    } else {
        text_under(members.skip(1), key)
    }
}

/// `serde_json::to_string` of a text: the text in quotes, with quotes,
/// backslashes and the control characters below the space escaped. A text always
/// serializes.
#[verifier::external_body]
pub(crate) fn json_string(s: &str) -> (r: String)
    ensures
        r@ == json_quoted(s@),
{
    serde_json::to_string(s).expect("string serialization cannot fail")
}

// ---------------------------------------------------------------------------
// Reading JSON.

/// What a line holds as JSON: the members of an object, `None` when it is
/// anything else. Of a repeated key the last member counts.
pub uninterp spec fn json_object(line: Seq<char>) -> Option<Seq<(Seq<char>, Seq<char>)>>;

/// The text that the text of a value holds; `Some(None)` is null, `None` is anything
/// else.
pub uninterp spec fn json_text(value: Seq<char>) -> Option<Option<Seq<char>>>;

/// The flag that the text of a value holds; `None` is anything else.
pub uninterp spec fn json_flag(value: Seq<char>) -> Option<bool>;

/// The unsigned 64-bit integer that the text of a value holds; `None` is anything
/// else.
pub uninterp spec fn json_count(value: Seq<char>) -> Option<u64>;

/// What the text of a value holds.
pub open spec fn json_value(value: Seq<char>) -> JsonView {
    match (json_text(value), json_flag(value), json_count(value)) {
        (Some(None), _, _) => JsonView::Null,
        (Some(Some(t)), _, _) => JsonView::Text(t),
        (None, Some(b), _) => JsonView::Bool(b),
        (None, None, Some(n)) => JsonView::Count(n),
        (None, None, None) => JsonView::Other,
    }
}

/// Members as mathematical values.
pub open spec fn member_texts(members: Seq<(String, String)>) -> MembersView {
    Seq::new(members.len(), |i: int| (members[i].0@, members[i].1@))
}

/// Whether the members that were read are those that were written on the line, if any
/// were.
pub open spec fn reads_back(line: Seq<char>, r: Option<Vec<(String, String)>>) -> bool {
    forall|written: MembersView|
        line == #[trigger] object_text(written) && is_plain(written) ==> (r matches Some(members)
            && forall|key: Seq<char>| #[trigger]
            text_under(member_texts(members@), key) == text_under(written, key))
}

/// The view of a text or null.
pub open spec fn text_or_null_view(r: Option<Option<String>>) -> Option<Option<Seq<char>>> {
    match r {
        Some(t) => Some(text_view(t)),
        None => None,
    }
}

/// Whether the text or null is the one that was written, if a value was.
pub open spec fn holds_text(value: Seq<char>, r: Option<Option<String>>) -> bool {
    forall|v: JsonView|
        v !is Other && value == #[trigger] value_text(v) ==> text_or_null_view(r) == (match v {
            JsonView::Null => Some(None),
            JsonView::Text(t) => Some(Some(t)),
            _ => None,
        })
}

/// Whether the flag is the one that was written, if a value was.
pub open spec fn holds_flag(value: Seq<char>, r: Option<bool>) -> bool {
    forall|v: JsonView|
        v !is Other && value == #[trigger] value_text(v) ==> r == (match v {
            JsonView::Bool(b) => Some(b),
            _ => None,
        })
}

/// Whether the integer is the one that was written, if a value was.
pub open spec fn holds_count(value: Seq<char>, r: Option<u64>) -> bool {
    forall|v: JsonView|
        v !is Other && value == #[trigger] value_text(v) ==> r == (match v {
            JsonView::Count(n) => Some(n),
            _ => None,
        })
}

/// `serde_json::from_str` to a map of `serde_json::value::RawValue`: the members of
/// the object that the line holds, each value as it stands there, `None` when the
/// line is no JSON or no object. Its result depends on the line alone. An object that
/// is written on one line with plain members reads as those members.
#[verifier::external_body]
fn read_members(line: &str) -> (r: Option<Vec<(String, String)>>)
    ensures
        r is Some <==> json_object(line@) is Some,
        r matches Some(members) ==> json_object(line@) == Some(member_texts(members@)),
        reads_back(line@, r),
{
    let members: BTreeMap<String, &RawValue> = serde_json::from_str(line).ok()?;
    Some(members.into_iter().map(|(key, value)| (key, value.get().to_owned())).collect())
}

/// `serde_json::from_str` to an `Option<String>`: the text that the text of a value
/// holds, or null. Its result depends on the value alone. Of a written value it reads
/// texts and null, and nothing else.
#[verifier::external_body]
fn text_of_value(value: &str) -> (r: Option<Option<String>>)
    ensures
        text_or_null_view(r) == json_text(value@),
        holds_text(value@, r),
{
    serde_json::from_str(value).ok()
}

/// `serde_json::from_str` to a `bool`: the flag that the text of a value holds. Its
/// result depends on the value alone. Of a written value it reads flags and nothing
/// else.
#[verifier::external_body]
fn flag_of_value(value: &str) -> (r: Option<bool>)
    ensures
        r == json_flag(value@),
        holds_flag(value@, r),
{
    serde_json::from_str(value).ok()
}

/// `serde_json::from_str` to a `u64`: the integer that the text of a value holds. Its
/// result depends on the value alone. Of a written value it reads integers and
/// nothing else.
#[verifier::external_body]
fn count_of_value(value: &str) -> (r: Option<u64>)
    ensures
        r == json_count(value@),
        holds_count(value@, r),
{
    serde_json::from_str(value).ok()
}

/// Reads what the text of a value holds.
fn read_value(value: &str) -> (r: JsonField)
    ensures
        r@ == json_value(value@),
        forall|v: JsonView| v !is Other && value@ == #[trigger] value_text(v) ==> r@ == v,
{
    let t: Option<Option<String>> = text_of_value(value);
    let flag: Option<bool> = flag_of_value(value);
    let count: Option<u64> = count_of_value(value);
    match (t, flag, count) {
        (Some(None), _, _) => JsonField::Null,
        (Some(Some(t)), _, _) => JsonField::Text(t),
        (None, Some(b), _) => JsonField::Bool(b),
        (None, None, Some(n)) => JsonField::Count(n),
        (None, None, None) => JsonField::Other,
    }
}

/// Members with what their values hold.
pub open spec fn fields_of(members: MembersView) -> FieldsView {
    Seq::new(members.len(), |i: int| (members[i].0, json_value(members[i].1)))
}

/// The members of the object that a line holds, with what their values hold.
pub open spec fn line_fields(line: Seq<char>) -> Option<FieldsView> {
    match json_object(line) {
        Some(members) => Some(fields_of(members)),
        None => None,
    }
}

/// Plain values as their texts.
pub open spec fn written_members(fields: FieldsView) -> MembersView {
    Seq::new(fields.len(), |i: int| (fields[i].0, value_text(fields[i].1)))
}

/// Whether no key is repeated and every value is plain.
pub open spec fn is_writable(fields: FieldsView) -> bool {
    &&& forall|i: int, j: int|
        0 <= i < j < fields.len() ==> (#[trigger] fields[i]).0 != (#[trigger] fields[j]).0
    &&& forall|i: int| 0 <= i < fields.len() ==> (#[trigger] fields[i]).1 !is Other
}

/// Whether a line reads as the members that were written on it, if any were.
pub open spec fn reads_as_written(line: Seq<char>) -> bool {
    forall|fields: FieldsView|
        line == object_text(#[trigger] written_members(fields)) && is_writable(fields) ==> (
        line_fields(line) matches Some(read) && forall|key: Seq<char>| #[trigger]
            member(read, key) == member(fields, key))
}

/// The value under a key, if the object has it.
pub open spec fn member(fields: FieldsView, key: Seq<char>) -> Option<JsonView>
    decreases fields.len(),
{
    if fields.len() == 0 {
        None
    } else if fields[0].0 == key {
        Some(fields[0].1)
    } else {
        member(fields.skip(1), key)
    }
}

/// The value under a key, if the object has it.
fn member_of<'a>(fields: &'a [(String, JsonField)], key: &str) -> (r: Option<&'a JsonField>)
    ensures
        r is Some <==> member(field_views(fields@), key@) is Some,
        r matches Some(f) ==> member(field_views(fields@), key@) == Some(f@),
{
    let ghost all = field_views(fields@);
    proof {
        assert(all.skip(0) =~= all);
    }
    let mut i: usize = 0;
    while i < fields.len()
        invariant
            i <= fields.len(),
            all == field_views(fields@),
            member(all, key@) == member(all.skip(i as int), key@),
        decreases fields.len() - i,
    {
        proof {
            assert(all.skip(i as int)[0] == all[i as int]);
            assert(all.skip(i as int).skip(1) =~= all.skip(i + 1));
        }
        if str_eq(fields[i].0.as_str(), key) {
            return Some(&fields[i].1);
        }
        i += 1;
    }
    None
}

/// A text that has to be there; `None` when it is not.
pub open spec fn required_text(fields: FieldsView, key: Seq<char>) -> Option<Seq<char>> {
    match member(fields, key) {
        Some(JsonView::Text(t)) => Some(t),
        _ => None,
    }
}

/// A text that may be absent or null; `None` when it is something else.
pub open spec fn optional_text(fields: FieldsView, key: Seq<char>) -> Option<Option<Seq<char>>> {
    match member(fields, key) {
        None | Some(JsonView::Null) => Some(None),
        Some(JsonView::Text(t)) => Some(Some(t)),
        _ => None,
    }
}

/// A number that may be absent or null; `None` when it is something else.
pub open spec fn optional_count(fields: FieldsView, key: Seq<char>) -> Option<Option<u64>> {
    match member(fields, key) {
        None | Some(JsonView::Null) => Some(None),
        Some(JsonView::Count(n)) => Some(Some(n)),
        _ => None,
    }
}

/// A flag that is false when absent; `None` when it is something else.
pub open spec fn flag(fields: FieldsView, key: Seq<char>) -> Option<bool> {
    match member(fields, key) {
        None => Some(false),
        Some(JsonView::Bool(b)) => Some(b),
        _ => None,
    }
}

/// The view of an optional text.
pub open spec fn text_view(t: Option<String>) -> Option<Seq<char>> {
    match t {
        Some(t) => Some(t@),
        None => None,
    }
}

/// Reads a text that has to be there.
pub fn read_required_text(fields: &[(String, JsonField)], key: &str) -> (r: Option<String>)
    ensures
        text_view(r) == required_text(field_views(fields@), key@),
{
    match member_of(fields, key) {
        Some(JsonField::Text(t)) => Some(t.clone()),
        _ => None,
    }
}

/// Reads a text that may be absent or null.
pub fn read_optional_text(fields: &[(String, JsonField)], key: &str) -> (r: Option<Option<String>>)
    ensures
        r is Some <==> optional_text(field_views(fields@), key@) is Some,
        r matches Some(t) ==> optional_text(field_views(fields@), key@) == Some(text_view(t)),
{
    match member_of(fields, key) {
        None => Some(None),
        Some(JsonField::Null) => Some(None),
        Some(JsonField::Text(t)) => Some(Some(t.clone())),
        _ => None,
    }
}

/// Reads a number that may be absent or null.
pub fn read_optional_count(fields: &[(String, JsonField)], key: &str) -> (r: Option<Option<u64>>)
    ensures
        r == optional_count(field_views(fields@), key@),
{
    match member_of(fields, key) {
        None => Some(None),
        Some(JsonField::Null) => Some(None),
        Some(JsonField::Count(n)) => Some(Some(*n)),
        _ => None,
    }
}

/// Reads a flag that is false when absent.
pub fn read_flag(fields: &[(String, JsonField)], key: &str) -> (r: Option<bool>)
    ensures
        r == flag(field_views(fields@), key@),
{
    match member_of(fields, key) {
        None => Some(false),
        Some(JsonField::Bool(b)) => Some(*b),
        _ => None,
    }
}

proof fn lemma_member_of_texts(members: MembersView, key: Seq<char>)
    ensures
        member(fields_of(members), key) is Some <==> text_under(members, key) is Some,
        text_under(members, key) matches Some(t) ==> member(fields_of(members), key) == Some(
            json_value(t),
        ),
    decreases members.len(),
{
    if members.len() > 0 {
        lemma_member_of_texts(members.skip(1), key);
        assert(fields_of(members).skip(1) =~= fields_of(members.skip(1)));
    }
}

proof fn lemma_member_of_written(fields: FieldsView, key: Seq<char>)
    ensures
        member(fields, key) is Some <==> text_under(written_members(fields), key) is Some,
        member(fields, key) matches Some(v) ==> text_under(written_members(fields), key) == Some(
            value_text(v),
        ) && exists|i: int| 0 <= i < fields.len() && (#[trigger] fields[i]).1 == v,
    decreases fields.len(),
{
    if fields.len() > 0 {
        let rest = fields.skip(1);
        lemma_member_of_written(rest, key);
        assert(written_members(fields).skip(1) =~= written_members(rest));
        assert(fields[0] == fields[0]);
        if fields[0].0 != key && member(rest, key) is Some {
            let i = choose|i: int| 0 <= i < rest.len() && (#[trigger] rest[i]).1 == member(
                rest,
                key,
            )->0;
            assert(fields[i + 1] == rest[i]);
        }
    }
}

proof fn lemma_text_is_held(members: MembersView, key: Seq<char>)
    ensures
        text_under(members, key) matches Some(t) ==> exists|i: int|
            0 <= i < members.len() && (#[trigger] members[i]).1 == t,
    decreases members.len(),
{
    if members.len() > 0 && members[0].0 != key {
        let rest = members.skip(1);
        lemma_text_is_held(rest, key);
        if text_under(rest, key) is Some {
            let i = choose|i: int| 0 <= i < rest.len() && (#[trigger] rest[i]).1 == text_under(
                rest,
                key,
            )->0;
            assert(members[i + 1] == rest[i]);
        }
    }
}

/// Reads the members of the object that a line holds.
pub(crate) fn json_fields(line: &str) -> (r: Option<Vec<(String, JsonField)>>)
    ensures
        r is Some <==> line_fields(line@) is Some,
        r matches Some(fields) ==> line_fields(line@) == Some(field_views(fields@)),
        reads_as_written(line@),
{
    let members: Vec<(String, String)> = match read_members(line) {
        Some(members) => members,
        None => {
            return None;
        },
    };
    let ghost texts = member_texts(members@);
    let mut out: Vec<(String, JsonField)> = Vec::new();
    let mut i: usize = 0;
    while i < members.len()
        invariant
            i <= members.len(),
            texts == member_texts(members@),
            out@.len() == i,
            forall|k: int| 0 <= k < i ==> #[trigger] field_views(out@)[k] == fields_of(texts)[k],
            forall|k: int, v: JsonView|
                0 <= k < i && v !is Other && (#[trigger] texts[k]).1 == #[trigger] value_text(v)
                    ==> json_value(texts[k].1) == v,
        decreases members.len() - i,
    {
        let ghost before = out@;
        let value: JsonField = read_value(members[i].1.as_str());
        out.push((members[i].0.clone(), value));
        proof {
            assert forall|k: int| 0 <= k < i + 1 implies #[trigger] field_views(out@)[k]
                == fields_of(texts)[k] by {
                if k < i {
                    assert(field_views(out@)[k] == field_views(before)[k]);
                }
            }
        }
        i += 1;
    }
    proof {
        assert(field_views(out@) =~= fields_of(texts));
        assert forall|fields: FieldsView|
            line@ == object_text(#[trigger] written_members(fields)) && is_writable(
                fields,
            ) implies (line_fields(line@) matches Some(read) && forall|key: Seq<char>| #[trigger]
            member(read, key) == member(fields, key)) by {
            let written = written_members(fields);
            assert forall|k: int| 0 <= k < written.len() implies exists|v: JsonView|
                v !is Other && (#[trigger] written[k]).1 == #[trigger] value_text(v) by {
                assert(fields[k].1 !is Other);
                assert(written[k].1 == value_text(fields[k].1));
            }
            assert(is_plain(written)) by {
                assert forall|a: int, b: int| 0 <= a < b < written.len() implies (
                #[trigger] written[a]).0 != (#[trigger] written[b]).0 by {
                    assert(fields[a].0 != fields[b].0);
                }
            }
            assert forall|key: Seq<char>| #[trigger]
                member(fields_of(texts), key) == member(fields, key) by {
                lemma_member_of_texts(texts, key);
                lemma_member_of_written(fields, key);
                lemma_text_is_held(texts, key);
                assert(text_under(texts, key) == text_under(written, key));
            }
        }
    }
    Some(out)
}

} // verus!

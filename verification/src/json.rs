//! The generic tree that a scene document is written in.
//!
//! Values are `serde_json::Value`s. Verus cannot look inside one, so this
//! module gives each value a mathematical view, [`Json`], and states over that
//! view what the handful of `serde_json` operations used by the codec do.
//! Nothing in this module is proved: every contract here is taken from the
//! documentation and source of `serde_json`, built with its features
//! `arbitrary_precision` (a number keeps its text) and `preserve_order` (an
//! object keeps its entries in insertion order).

use crate::number::is_number;
use vstd::prelude::*;

verus! {

/// `serde_json::Value`, taken as it is: nothing of its inside is used here.
#[verifier::external_type_specification]
#[verifier::external_body]
pub struct ExValue(serde_json::Value);

/// What a JSON value holds.
///
/// A number is kept as its text. The entries of an object are kept in the
/// order in which they were inserted.
pub enum Json {
    Null,
    Bool(bool),
    Number(Seq<char>),
    Text(Seq<char>),
    List(Seq<Json>),
    Record(Seq<(Seq<char>, Json)>),
}

/// The content of a `serde_json::Value`.
pub uninterp spec fn json_view(v: serde_json::Value) -> Json;

/// The value that `serde_json` reads from the front of `bytes`, after any
/// white space, with the number of bytes it took; `None` where the bytes do
/// not start with a JSON value.
pub uninterp spec fn json_prefix(bytes: Seq<u8>) -> Option<(Json, int)>;

/// The text that `serde_json` writes for a value when it puts every element
/// on a line of its own and indents each level with `indent`.
pub uninterp spec fn pretty_text(j: Json, indent: Seq<u8>) -> Seq<char>;

/// The contents of a sequence of values.
pub open spec fn json_views(s: Seq<serde_json::Value>) -> Seq<Json> {
    s.map_values(|v: serde_json::Value| json_view(v))
}

/// The contents of a sequence of keyed values.
pub open spec fn entry_views(s: Seq<(String, serde_json::Value)>) -> Seq<(Seq<char>, Json)> {
    s.map_values(|e: (String, serde_json::Value)| (e.0@, json_view(e.1)))
}

/// Whether no key stands twice among `entries`.
pub open spec fn distinct_keys<T>(entries: Seq<(Seq<char>, T)>) -> bool {
    forall|i: int, j: int|
        0 <= i < j < entries.len() ==> (#[trigger] entries[i]).0 != (#[trigger] entries[j]).0
}

/// The value that stands under `key` in `entries`: that of the first entry
/// with this key.
pub open spec fn record_find(entries: Seq<(Seq<char>, Json)>, key: Seq<char>) -> Option<Json>
    decreases entries.len(),
{
    if entries.len() == 0 {
        None
    } else if entries[0].0 == key {
        Some(entries[0].1)
    } else {
        record_find(entries.drop_first(), key)
    }
}

/// `serde_json::Value::Null`.
#[verifier::external_body]
pub(crate) fn json_null() -> (v: serde_json::Value)
    ensures
        json_view(v) == Json::Null,
{
    serde_json::Value::Null
}

/// `serde_json::Value::String`: the string value with the given text.
#[verifier::external_body]
pub(crate) fn json_text(text: String) -> (v: serde_json::Value)
    ensures
        json_view(v) == Json::Text(text@),
{
    serde_json::Value::String(text)
}

/// `<serde_json::Number as FromStr>::from_str`, wrapped in
/// `serde_json::Value::Number`. A number in plain form is accepted and keeps
/// its text character for character.
#[verifier::external_body]
pub(crate) fn json_number(text: &str) -> (r: Option<serde_json::Value>)
    ensures
        is_number(text@) ==> r is Some && json_view(r.unwrap()) == Json::Number(text@),
{
    text.parse::<serde_json::Number>().ok().map(serde_json::Value::Number)
}

/// `serde_json::Value::Array`: the array of the given values, in their order.
#[verifier::external_body]
pub(crate) fn json_list(items: Vec<serde_json::Value>) -> (v: serde_json::Value)
    ensures
        json_view(v) == Json::List(json_views(items@)),
{
    serde_json::Value::Array(items)
}

/// `serde_json::Map::from_iter`, wrapped in `serde_json::Value::Object`: the
/// object with the given entries, in their order. Where a key stood twice the
/// map would keep one entry of the two, so such input is left out.
#[verifier::external_body]
pub(crate) fn json_record(entries: Vec<(String, serde_json::Value)>) -> (v: serde_json::Value)
    requires
        distinct_keys(entry_views(entries@)),
    ensures
        json_view(v) == Json::Record(entry_views(entries@)),
{
    serde_json::Value::Object(entries.into_iter().collect())
}

/// `serde_json::Value::is_null`: whether the value is `null`.
pub assume_specification[ serde_json::Value::is_null ](v: &serde_json::Value) -> (b: bool)
    ensures
        b == (json_view(*v) is Null),
;

/// `serde_json::Value::as_str`: the text of a string, and `None` for every
/// other kind of value.
pub assume_specification<'a>[ serde_json::Value::as_str ](v: &'a serde_json::Value) -> (r: Option<
    &'a str,
>)
    ensures
        match json_view(*v) {
            Json::Text(t) => r is Some && r.unwrap()@ == t,
            _ => r is None,
        },
;

/// `serde_json::Value::as_array`: the elements of an array, and `None` for
/// every other kind of value.
pub assume_specification<'a>[ serde_json::Value::as_array ](v: &'a serde_json::Value) -> (r:
    Option<&'a Vec<serde_json::Value>>)
    ensures
        match json_view(*v) {
            Json::List(items) => r is Some && json_views(r.unwrap()@) == items,
            _ => r is None,
        },
;

/// `serde_json::Value::as_number`, then the number's `to_string`: the text of
/// a number, and `None` for every other kind of value.
#[verifier::external_body]
pub(crate) fn json_number_text(v: &serde_json::Value) -> (r: Option<String>)
    ensures
        match json_view(*v) {
            Json::Number(t) => r is Some && r.unwrap()@ == t,
            _ => r is None,
        },
{
    match v.as_number() {
        Some(n) => Some(n.to_string()),
        None => None,
    }
}

/// `serde_json::Value::get` with a string index: the value that an object
/// holds under `key`, and `None` where the value is no object or has no such
/// key.
#[verifier::external_body]
pub(crate) fn json_field<'a>(v: &'a serde_json::Value, key: &str) -> (r: Option<
    &'a serde_json::Value,
>)
    ensures
        match json_view(*v) {
            Json::Record(entries) => match record_find(entries, key@) {
                Some(j) => r is Some && json_view(*r.unwrap()) == j,
                None => r is None,
            },
            _ => r is None,
        },
{
    v.get(key)
}

/// `serde_json::StreamDeserializer::next` at `start`, then `byte_offset`: the
/// first JSON value in `bytes[start..]` and the number of bytes read for it,
/// leading white space included. A value takes at least one byte and never
/// more than there are.
#[verifier::external_body]
pub(crate) fn json_scan(bytes: &[u8], start: usize) -> (r: Option<(serde_json::Value, usize)>)
    requires
        start <= bytes@.len(),
    ensures
        match r {
            Some((v, used)) => json_prefix(bytes@.skip(start as int)) == Some(
                (json_view(v), used as int),
            ) && 0 < used <= bytes@.len() - start,
            None => json_prefix(bytes@.skip(start as int)) is None,
        },
{
    let mut stream = serde_json::Deserializer::from_slice(&bytes[start..]).into_iter();
    match stream.next() {
        Some(Ok(v)) => Some((v, stream.byte_offset())),
        _ => None,
    }
}

/// `<serde_json::Value as serde::Serialize>::serialize` into a
/// `serde_json::Serializer` with a `PrettyFormatter` made by `with_indent`. A
/// `Value` always serializes, and writing to memory does not fail. The
/// indentation is copied into the output as it is, so it has to be text
/// itself: ASCII is asked for.
#[verifier::external_body]
pub(crate) fn json_render(v: &serde_json::Value, indent: &[u8]) -> (r: Option<String>)
    requires
        forall|i: int| 0 <= i < indent@.len() ==> indent@[i] < 0x80,
    ensures
        r is Some,
        r.unwrap()@ == pretty_text(json_view(*v), indent@),
{
    let mut out: Vec<u8> = Vec::new();
    let formatter = serde_json::ser::PrettyFormatter::with_indent(indent);
    let mut serializer = serde_json::Serializer::with_formatter(&mut out, formatter);
    match serde::Serialize::serialize(v, &mut serializer) {
        Ok(()) => String::from_utf8(out).ok(),
        Err(_) => None,
    }
}

} // verus!

//! JSON documents as plain data.
use vstd::prelude::*;
use crate::text::{begins, same, starts_with, Text};

verus! {

/// A number of a document, under each of the readings that it has.
#[derive(Debug, Clone, Copy, PartialEq, Eq, Structural)]
pub struct JsonNumber {
    /// As an unsigned integer.
    pub unsigned: Option<u64>,
    /// As a signed integer.
    pub signed: Option<i64>,
    /// As a double precision number: its bits.
    pub double: Option<u64>,
}

/// A JSON document.
#[derive(Debug)]
pub enum Json {
    Null,
    Bool(bool),
    Number(JsonNumber),
    Str(String),
    Array(Vec<Json>),
    /// Keys with their values; no key occurs twice in a parsed document.
    Object(Vec<(String, Json)>),
}

/// `serde_json::Value`, carried through unopened.
#[verifier::external_type_specification]
#[verifier::external_body]
pub struct ExValue(serde_json::Value);

/// What a `serde_json::Value` holds.
pub uninterp spec fn json_of(v: serde_json::Value) -> Json;

/// The document that a text writes, if it is JSON.
pub uninterp spec fn parsed_json(text: Seq<char>) -> Option<Json>;

/// Trusted: `serde_json::from_str` gives back the document that the text
/// writes, or an error if it writes none; the same text always gives the same
/// answer. What the error says is left open.
#[verifier::external_body]
fn read_value(text: &str) -> (r: Result<serde_json::Value, String>)
    ensures
        match r {
            Ok(v) => parsed_json(text@) == Some(json_of(v)),
            Err(_) => parsed_json(text@) is None,
        },
{
    serde_json::from_str::<serde_json::Value>(text).map_err(|e| e.to_string())
}

/// Trusted: takes a `serde_json::Value` apart. Each variant becomes the
/// variant of the same name; a number is read with `Number::as_u64`,
/// `Number::as_i64` and `Number::as_f64`.
#[verifier::external_body]
fn convert_value(v: serde_json::Value) -> (j: Json)
    ensures
        j == json_of(v),
{
    match v {
        serde_json::Value::Null => Json::Null,
        serde_json::Value::Bool(b) => Json::Bool(b),
        serde_json::Value::Number(n) => Json::Number(JsonNumber {
            unsigned: n.as_u64(),
            signed: n.as_i64(),
            double: n.as_f64().map(|x| x.to_bits()),
        }),
        serde_json::Value::String(s) => Json::Str(s),
        serde_json::Value::Array(a) => Json::Array(a.into_iter().map(convert_value).collect()),
        serde_json::Value::Object(m) =>
            Json::Object(m.into_iter().map(|(k, x)| (k, convert_value(x))).collect()),
    }
}

/// Parses a JSON document.
pub fn parse_json(text: &str) -> (r: Result<Json, String>)
    ensures
        match r {
            Ok(j) => parsed_json(text@) == Some(j),
            Err(_) => parsed_json(text@) is None,
        },
{
    match read_value(text) {
        Ok(v) => Ok(convert_value(v)),
        Err(e) => Err(e),
    }
}

/// The value under `key` among `entries`.
pub open spec fn entry(entries: Seq<(String, Json)>, key: Text) -> Option<Json>
    decreases entries.len(),
{
    if entries.len() == 0 {
        None
    } else if entries[0].0@ == key {
        Some(entries[0].1)
    } else {
        entry(entries.skip(1), key)
    }
}

/// The value under `key`, if `j` is an object that has the key.
pub open spec fn field(j: Json, key: Text) -> Option<Json> {
    match j {
        Json::Object(entries) => entry(entries@, key),
        _ => None,
    }
}

/// The value that an optional reference refers to.
pub open spec fn at(o: Option<&Json>) -> Option<Json> {
    match o {
        Some(j) => Some(*j),
        None => None,
    }
}

/// `a`, or `b` where there is no `a`.
pub open spec fn or(a: Option<Json>, b: Option<Json>) -> Option<Json> {
    match a {
        Some(_) => a,
        None => b,
    }
}

/// The value under `key` of an optional object.
pub open spec fn field_of(o: Option<Json>, key: Text) -> Option<Json> {
    match o {
        Some(j) => field(j, key),
        None => None,
    }
}

/// As an unsigned integer.
pub open spec fn u64_of(o: Option<Json>) -> Option<u64> {
    match o {
        Some(Json::Number(n)) => n.unsigned,
        _ => None,
    }
}

/// As a size.
pub open spec fn size_of(o: Option<Json>) -> Option<usize> {
    match u64_of(o) {
        Some(v) => Some(v as usize),
        None => None,
    }
}

/// As a double precision number.
pub open spec fn double_of(o: Option<Json>) -> Option<u64> {
    match o {
        Some(Json::Number(n)) => n.double,
        _ => None,
    }
}

/// As a truth value.
pub open spec fn bool_of(o: Option<Json>) -> Option<bool> {
    match o {
        Some(Json::Bool(b)) => Some(b),
        _ => None,
    }
}

/// As a text.
pub open spec fn str_of(o: Option<Json>) -> Option<Text> {
    match o {
        Some(Json::Str(s)) => Some(s@),
        _ => None,
    }
}

/// As a list.
pub open spec fn array_of(o: Option<Json>) -> Option<Seq<Json>> {
    match o {
        Some(Json::Array(a)) => Some(a@),
        _ => None,
    }
}

/// Some key of `j` begins with `prefix`.
pub open spec fn has_key_with(j: Json, prefix: Text) -> bool {
    match j {
        Json::Object(entries) => exists|i: int|
            0 <= i < entries@.len() && begins(#[trigger] entries@[i].0@, prefix),
        _ => false,
    }
}

fn find_entry<'a>(entries: &'a Vec<(String, Json)>, key: &str) -> (r: Option<&'a Json>)
    ensures
        at(r) == entry(entries@, key@),
{
    let mut i: usize = 0;
    assert(entries@.skip(0) =~= entries@);
    while i < entries.len()
        invariant
            i <= entries.len(),
            entry(entries@, key@) == entry(entries@.skip(i as int), key@),
        decreases entries.len() - i,
    {
        let ghost rest = entries@.skip(i as int);
        assert(rest[0] == entries@[i as int]);
        assert(rest.skip(1) =~= entries@.skip(i + 1));
        if same(&entries[i].0, key) {
            return Some(&entries[i].1);
        }
        i += 1;
    }
    None
}

/// Looks a key up.
pub fn get<'a>(j: &'a Json, key: &str) -> (r: Option<&'a Json>)
    ensures
        at(r) == field(*j, key@),
{
    match j {
        Json::Object(entries) => find_entry(entries, key),
        _ => None,
    }
}

/// Looks a key up in an optional object.
pub fn get_in<'a>(o: Option<&'a Json>, key: &str) -> (r: Option<&'a Json>)
    ensures
        at(r) == field_of(at(o), key@),
{
    match o {
        Some(j) => get(j, key),
        None => None,
    }
}

/// The first of the two that is there.
pub fn first<'a>(a: Option<&'a Json>, b: Option<&'a Json>) -> (r: Option<&'a Json>)
    ensures
        at(r) == or(at(a), at(b)),
{
    match a {
        Some(_) => a,
        None => b,
    }
}

pub fn as_u64(o: Option<&Json>) -> (r: Option<u64>)
    ensures
        r == u64_of(at(o)),
{
    match o {
        Some(Json::Number(n)) => n.unsigned,
        _ => None,
    }
}

pub fn as_size(o: Option<&Json>) -> (r: Option<usize>)
    ensures
        r == size_of(at(o)),
{
    match as_u64(o) {
        Some(v) => Some(v as usize),
        None => None,
    }
}

pub fn as_double(o: Option<&Json>) -> (r: Option<u64>)
    ensures
        r == double_of(at(o)),
{
    match o {
        Some(Json::Number(n)) => n.double,
        _ => None,
    }
}

pub fn as_bool(o: Option<&Json>) -> (r: Option<bool>)
    ensures
        r == bool_of(at(o)),
{
    match o {
        Some(Json::Bool(b)) => Some(*b),
        _ => None,
    }
}

pub fn as_text<'a>(o: Option<&'a Json>) -> (r: Option<&'a String>)
    ensures
        match r {
            Some(s) => str_of(at(o)) == Some(s@),
            None => str_of(at(o)) is None,
        },
{
    match o {
        Some(Json::Str(s)) => Some(s),
        _ => None,
    }
}

pub fn as_array<'a>(o: Option<&'a Json>) -> (r: Option<&'a Vec<Json>>)
    ensures
        match r {
            Some(a) => array_of(at(o)) == Some(a@),
            None => array_of(at(o)) is None,
        },
{
    match o {
        Some(Json::Array(a)) => Some(a),
        _ => None,
    }
}

fn find_prefix(entries: &Vec<(String, Json)>, prefix: &str) -> (found: bool)
    ensures
        found == exists|i: int|
            0 <= i < entries@.len() && begins(#[trigger] entries@[i].0@, prefix@),
{
    let mut i: usize = 0;
    while i < entries.len()
        invariant
            i <= entries.len(),
            forall|k: int| 0 <= k < i ==> !begins(#[trigger] entries@[k].0@, prefix@),
        decreases entries.len() - i,
    {
        if starts_with(&entries[i].0, prefix) {
            assert(begins(entries@[i as int].0@, prefix@));
            return true;
        }
        i += 1;
    }
    false
}

/// Whether some key begins with `prefix`.
pub fn any_key_with(j: &Json, prefix: &str) -> (found: bool)
    ensures
        found == has_key_with(*j, prefix@),
{
    match j {
        Json::Object(entries) => find_prefix(entries, prefix),
        _ => false,
    }
}

/// What is looked up under a key is the first entry of that key; without one
/// there is nothing.
pub proof fn law_first_entry_counts(entries: Seq<(String, Json)>, key: Text, i: int)
    requires
        0 <= i <= entries.len(),
        forall|k: int| 0 <= k < i ==> (#[trigger] entries[k]).0@ != key,
    ensures
        i < entries.len() && entries[i].0@ == key ==> entry(entries, key) == Some(entries[i].1),
        i == entries.len() ==> entry(entries, key) is None,
    decreases entries.len(),
{
    if entries.len() > 0 && i > 0 {
        let rest = entries.skip(1);
        assert forall|k: int| 0 <= k < i - 1 implies (#[trigger] rest[k]).0@ != key by {
            assert(rest[k] == entries[k + 1]);
        }
        assert(entries[0].0@ != key);
        law_first_entry_counts(rest, key, i - 1);
    }
}

/// A value is read as what it is: a number by its value, a text by its
/// characters, a list by its items, and none as another.
pub proof fn law_values_are_read(j: Json)
    ensures
        j matches Json::Bool(b) ==> bool_of(Some(j)) == Some(b),
        !(j is Bool) ==> bool_of(Some(j)) is None,
        j matches Json::Str(s) ==> str_of(Some(j)) == Some(s@),
        !(j is Str) ==> str_of(Some(j)) is None,
        j matches Json::Array(a) ==> array_of(Some(j)) == Some(a@),
        !(j is Array) ==> array_of(Some(j)) is None,
        j matches Json::Number(n) ==> u64_of(Some(j)) == n.unsigned && double_of(Some(j))
            == n.double,
        !(j is Number) ==> u64_of(Some(j)) is None && double_of(Some(j)) is None && size_of(Some(j))
            is None,
        j matches Json::Number(n) ==> (n.unsigned matches Some(v) ==> (v <= usize::MAX ==> (size_of(
            Some(j),
        ) matches Some(w) && w == v))),
        u64_of(None) is None && size_of(None) is None && double_of(None) is None,
        bool_of(None) is None && str_of(None) is None && array_of(None) is None,
{
}

} // verus!

//! JSON documents, read and written by `serde_json`. `Json` is what the
//! gateway sees of a document; the trusted functions below say how
//! `serde_json` relates to it.
use vstd::prelude::*;
use vstd::utf8::*;

verus! {

/// A JSON value, as far as the gateway looks into it.
pub enum Json {
    /// A string.
    Text(Seq<char>),
    /// A number: its value where it is an integer that a `u64` holds.
    Number(Option<u64>),
    /// An object: its members by name.
    Object(Map<Seq<char>, Json>),
    /// Null, a boolean or an array.
    Other,
}

/// The member `key` of an object. `None` for a value that is no object.
pub open spec fn member(j: Json, key: Seq<char>) -> Option<Json> {
    match j {
        Json::Object(members) => if members.dom().contains(key) {
            Some(members[key])
        } else {
            None
        },
        _ => None,
    }
}

/// The characters of a string. `None` for a value that is no string.
pub open spec fn text_of(j: Json) -> Option<Seq<char>> {
    match j {
        Json::Text(s) => Some(s),
        _ => None,
    }
}

/// The integer that a number stands for. `None` for a value that is no
/// number, or one that a `u64` cannot hold.
pub open spec fn integer_of(j: Json) -> Option<u64> {
    match j {
        Json::Number(n) => n,
        _ => None,
    }
}

/// Whether `j` is made of strings and objects alone, with at most `depth`
/// objects around any value, and no member name starts with a `$`: such names
/// can have a meaning of their own to `serde_json`.
pub open spec fn only_text(j: Json, depth: nat) -> bool
    decreases depth,
{
    match j {
        Json::Text(_) => true,
        Json::Object(members) => depth > 0 && forall|key: Seq<char>|
            #![trigger members[key]]
            members.dom().contains(key) ==> !(key.len() > 0 && key[0] == '$') && only_text(
                members[key],
                (depth - 1) as nat,
            ),
        _ => false,
    }
}

/// The members that a list of fields gives an object.
pub open spec fn members_of(fields: Seq<(String, serde_json::Value)>) -> Map<Seq<char>, Json>
    decreases fields.len(),
{
    if fields.len() == 0 {
        Map::empty()
    } else {
        members_of(fields.drop_last()).insert(fields.last().0@, json_view(fields.last().1))
    }
}

/// `serde_json::Value`.
#[verifier::external_type_specification]
#[verifier::external_body]
pub struct ExValue(serde_json::Value);

/// What a `serde_json::Value` holds.
pub uninterp spec fn json_view(v: serde_json::Value) -> Json;

/// What `serde_json::from_slice` reads from `bytes`: the value that the JSON
/// text stands for, or nothing where the bytes are no JSON text that
/// `serde_json` accepts.
pub uninterp spec fn json_document(bytes: Seq<u8>) -> Option<Json>;

/// The compact JSON text that `serde_json` writes for a value made of strings
/// and objects.
pub uninterp spec fn json_text(j: Json) -> Seq<char>;

/// `serde_json::from_slice`. What it reads is named; the contract says that
/// the outcome depends on the bytes alone, and that no bytes are no JSON text.
#[verifier::external_body]
pub(crate) fn parse(bytes: &[u8]) -> (r: Option<serde_json::Value>)
    ensures
        match r {
            Some(v) => json_document(bytes@) == Some(json_view(v)),
            None => json_document(bytes@) is None,
        },
        bytes@.len() == 0 ==> r is None,
{
    serde_json::from_slice(bytes).ok()
}

/// `serde_json::Value::get` with a string index: the member of that name,
/// where the value is an object that has one.
#[verifier::external_body]
pub(crate) fn get<'a>(v: &'a serde_json::Value, key: &str) -> (r: Option<&'a serde_json::Value>)
    ensures
        match r {
            Some(m) => member(json_view(*v), key@) == Some(json_view(*m)),
            None => member(json_view(*v), key@) is None,
        },
{
    v.get(key)
}

/// `serde_json::Value::as_str`: the characters, where the value is a string.
pub assume_specification[ serde_json::Value::as_str ](v: &serde_json::Value) -> (r: Option<&str>)
    ensures
        match r {
            Some(s) => text_of(json_view(*v)) == Some(s@),
            None => text_of(json_view(*v)) is None,
        },
;

/// `serde_json::Value::as_u64`: the number, where the value is an integer
/// that a `u64` holds.
pub assume_specification[ serde_json::Value::as_u64 ](v: &serde_json::Value) -> (r: Option<u64>)
    ensures
        r == integer_of(json_view(*v)),
;

/// `From<&str>` of `serde_json::Value`, which makes a JSON string.
#[verifier::external_body]
pub(crate) fn string(s: &str) -> (r: serde_json::Value)
    ensures
        json_view(r) == Json::Text(s@),
{
    serde_json::Value::from(s)
}

/// `FromIterator<(String, Value)>` of `serde_json::Value`, which makes an
/// object of fields that have distinct names.
#[verifier::external_body]
pub(crate) fn object(fields: Vec<(String, serde_json::Value)>) -> (r: serde_json::Value)
    requires
        forall|i: int, j: int| 0 <= i < j < fields@.len() ==> fields@[i].0@ != fields@[j].0@,
    ensures
        json_view(r) == Json::Object(members_of(fields@)),
{
    serde_json::Value::from_iter(fields)
}

/// `Display` of `serde_json::Value`, which writes the value as compact JSON
/// text. For a value made of strings and objects the text depends on what the
/// value holds alone, and `serde_json::from_slice` reads the value back from
/// it; of other values nothing is claimed.
#[verifier::external_body]
pub(crate) fn write(v: &serde_json::Value) -> (r: String)
    ensures
        only_text(json_view(*v), 100) ==> r@ == json_text(json_view(*v)),
        only_text(json_view(*v), 100) ==> json_document(encode_utf8(r@)) == Some(json_view(*v)),
{
    v.to_string()
}

} // verus!

//! The JSON values that the library reads and writes, through serde_json.
//!
//! A `serde_json::Value` is opaque to the verifier. What the logic needs of one
//! is given by a few names: the entries of an object, the text of a string and
//! the elements of an array. Every function here makes one call into
//! serde_json and states its result over those names.
use vstd::prelude::*;

verus! {

#[verifier::external_type_specification]
#[verifier::external_body]
pub struct ExValue(serde_json::Value);

#[verifier::external_type_specification]
#[verifier::external_body]
#[verifier::reject_recursive_types(K)]
#[verifier::reject_recursive_types(V)]
pub struct ExObject<K, V>(serde_json::Map<K, V>);

#[verifier::external_type_specification]
#[verifier::external_body]
pub struct ExJsonError(serde_json::Error);

/// Relies on `serde_json::Value`'s derived `Clone`: an equal value.
pub assume_specification[ <serde_json::Value as Clone>::clone ](v: &serde_json::Value) -> (r: serde_json::Value)
    ensures
        r == *v,
;

/// A JSON object: string keys to values.
pub type JsonObject = serde_json::Map<String, serde_json::Value>;

/// What a `serde_json::Map` holds, key by key.
pub uninterp spec fn entries(m: JsonObject) -> Map<Seq<char>, serde_json::Value>;

/// The entries of a value that is an object; `None` for any other value.
pub uninterp spec fn object_entries(v: serde_json::Value) -> Option<Map<Seq<char>, serde_json::Value>>;

/// The text of a value that is a string; `None` for any other value.
pub uninterp spec fn string_of(v: serde_json::Value) -> Option<Seq<char>>;

/// The unsigned integer that a number value holds; `None` for any other value,
/// and for a number that is no unsigned integer.
pub uninterp spec fn uint_of(v: serde_json::Value) -> Option<u64>;

/// The elements of a value that is an array; `None` for any other value.
pub uninterp spec fn array_of(v: serde_json::Value) -> Option<Seq<serde_json::Value>>;

/// What `serde_json::from_str` makes of a text read as a map: the entries of
/// a JSON object, none for `null`; `None` where the text is neither.
pub uninterp spec fn parsed_object(s: Seq<char>) -> Option<Map<Seq<char>, serde_json::Value>>;

/// The text that `serde_json::to_string` writes for an object with these entries.
pub uninterp spec fn object_text(e: Map<Seq<char>, serde_json::Value>) -> Seq<char>;

/// The entries of an empty object.
pub open spec fn no_entries() -> Map<Seq<char>, serde_json::Value> {
    Map::empty()
}

/// The member `k` of `v`, where `v` is an object that has it.
pub open spec fn member(v: serde_json::Value, k: Seq<char>) -> Option<serde_json::Value> {
    match object_entries(v) {
        Some(e) => if e.contains_key(k) {
            Some(e[k])
        } else {
            None
        },
        None => None,
    }
}

/// Relies on `serde_json::Map::new`: an empty map.
#[verifier::external_body]
pub(crate) fn new_object() -> (r: JsonObject)
    ensures
        entries(r) == no_entries(),
{
    serde_json::Map::new()
}

/// Relies on `serde_json::Map::insert`: the key now maps to the value, the other
/// keys are untouched.
#[verifier::external_body]
pub(crate) fn object_insert(m: &mut JsonObject, k: String, v: serde_json::Value)
    ensures
        entries(*final(m)) == entries(*old(m)).insert(k@, v),
{
    m.insert(k, v);
}

/// Relies on `serde_json::Map::remove`: the value under the key, which leaves the
/// map.
#[verifier::external_body]
pub(crate) fn object_remove(m: &mut JsonObject, k: &str) -> (r: Option<serde_json::Value>)
    ensures
        entries(*final(m)) == entries(*old(m)).remove(k@),
        entries(*old(m)).contains_key(k@) ==> r == Some(entries(*old(m))[k@]),
        !entries(*old(m)).contains_key(k@) ==> r is None,
{
    m.remove(k)
}

/// Relies on `serde_json::Map`'s `IntoIterator`: each entry once, as a pair.
#[verifier::external_body]
pub(crate) fn object_pairs(m: JsonObject) -> (r: Vec<(String, serde_json::Value)>)
    ensures
        forall|i: int, j: int|
            0 <= i < j < r@.len() ==> r@[i].0@ != r@[j].0@,
        forall|i: int|
            0 <= i < r@.len() ==> entries(m).contains_key(#[trigger] r@[i].0@)
                && entries(m)[r@[i].0@] == r@[i].1,
        forall|k: Seq<char>|
            entries(m).contains_key(k) ==> exists|i: int| 0 <= i < r@.len() && #[trigger] r@[i].0@ == k,
{
    m.into_iter().collect()
}

/// Relies on the `serde_json::Value::Object` variant: a value that is this object.
#[verifier::external_body]
pub(crate) fn object_value(m: JsonObject) -> (r: serde_json::Value)
    ensures
        object_entries(r) == Some(entries(m)),
        string_of(r) is None,
{
    serde_json::Value::Object(m)
}

/// Relies on the `serde_json::Value::Object` variant: the map inside a value that
/// is an object.
#[verifier::external_body]
pub(crate) fn into_object(v: serde_json::Value) -> (r: Option<JsonObject>)
    ensures
        r is None <==> object_entries(v) is None,
        r matches Some(m) ==> object_entries(v) == Some(entries(m)),
{
    match v {
        serde_json::Value::Object(m) => Some(m),
        _ => None,
    }
}

/// Relies on `serde_json::Value::get` with a string key: the member of an object,
/// `None` for a missing key or a value that is no object.
#[verifier::external_body]
pub(crate) fn value_get<'a>(v: &'a serde_json::Value, k: &str) -> (r: Option<&'a serde_json::Value>)
    ensures
        r is None <==> member(*v, k@) is None,
        r matches Some(x) ==> member(*v, k@) == Some(*x),
{
    v.get(k)
}

/// Relies on `serde_json::Value::as_str`: the text of a string value.
#[verifier::external_body]
pub(crate) fn value_as_str(v: &serde_json::Value) -> (r: Option<&str>)
    ensures
        r is None <==> string_of(*v) is None,
        r matches Some(s) ==> string_of(*v) == Some(s@),
{
    v.as_str()
}

/// Relies on the `serde_json::Value::String` variant: a string value.
#[verifier::external_body]
pub(crate) fn string_value(s: String) -> (r: serde_json::Value)
    ensures
        string_of(r) == Some(s@),
        object_entries(r) is None,
{
    serde_json::Value::String(s)
}

/// Relies on `serde_json::Value`'s `From<u64>`: a number value.
#[verifier::external_body]
pub(crate) fn number_value(n: u64) -> (r: serde_json::Value)
    ensures
        uint_of(r) == Some(n),
        string_of(r) is None,
        object_entries(r) is None,
{
    serde_json::Value::from(n)
}

/// Relies on `serde_json::Value`'s `From<Vec<Value>>`: an array value.
#[verifier::external_body]
pub(crate) fn array_value(items: Vec<serde_json::Value>) -> (r: serde_json::Value)
    ensures
        array_of(r) == Some(items@),
        string_of(r) is None,
        object_entries(r) is None,
{
    serde_json::Value::from(items)
}

/// Relies on `serde_json::from_str` read as a `serde_json::Map`: the entries of
/// the object that the text holds (none for `null`), or an error where the
/// text is no JSON object and no `null`.
#[verifier::external_body]
pub(crate) fn parse_object(s: &str) -> (r: Result<JsonObject, serde_json::Error>)
    ensures
        r is Ok <==> parsed_object(s@) is Some,
        r matches Ok(m) ==> parsed_object(s@) == Some(entries(m)),
{
    serde_json::from_str(s)
}

/// Relies on `serde_json::to_string` of a `serde_json::Map`: the object's text.
/// It fails only where a `Serialize` impl fails or a map key is no string,
/// neither of which a map of string keys to values can meet.
#[verifier::external_body]
pub(crate) fn object_to_text(m: &JsonObject) -> (r: Result<String, serde_json::Error>)
    ensures
        r is Ok,
        r matches Ok(s) ==> s@ == object_text(entries(*m)),
{
    serde_json::to_string(m)
}

} // verus!

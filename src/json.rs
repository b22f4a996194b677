//! The calls into serde_json that the library makes. A JSON value is opaque
//! here: it is carried through and handed to serde_json.
use vstd::prelude::*;

verus! {

#[verifier::external_type_specification]
#[verifier::external_body]
pub struct ExJsonValue(serde_json::Value);

#[verifier::external_type_specification]
#[verifier::external_body]
pub struct ExJsonError(serde_json::Error);

#[verifier::external_type_specification]
#[verifier::external_body]
#[verifier::reject_recursive_types(K)]
#[verifier::reject_recursive_types(V)]
pub struct ExJsonMap<K, V>(serde_json::Map<K, V>);

/// What `serde_json::from_str` makes of a text: the value, or `None` where
/// the text is not JSON.
pub uninterp spec fn parsed_json(text: Seq<char>) -> Option<serde_json::Value>;

/// The entry `key` of a value that is an object holding it.
pub uninterp spec fn json_field(v: serde_json::Value, key: Seq<char>) -> Option<serde_json::Value>;

/// The value read as an object, where it is one.
pub uninterp spec fn json_object(v: serde_json::Value) -> Option<serde_json::Map<String, serde_json::Value>>;

/// The values of an object, in the map's order.
pub uninterp spec fn json_values(m: serde_json::Map<String, serde_json::Value>) -> Seq<serde_json::Value>;

/// The value read as a string, where it is one.
pub uninterp spec fn json_string(v: serde_json::Value) -> Option<Seq<char>>;

/// The value written as JSON text, each level indented by `indent`; `None`
/// where serde_json reports an error.
pub uninterp spec fn json_pretty_text(v: serde_json::Value, indent: Seq<char>) -> Option<Seq<char>>;

/// Relies on `serde_json::from_str` to parse JSON text into a value.
#[verifier::external_body]
pub(crate) fn json_parse(text: &str) -> (r: Result<serde_json::Value, serde_json::Error>)
    ensures
        r is Ok <==> parsed_json(text@) is Some,
        r matches Ok(v) ==> parsed_json(text@) == Some(v),
{
    serde_json::from_str(text)
}

/// Relies on `<serde_json::Value as Clone>::clone` to copy a value.
#[verifier::external_body]
pub(crate) fn clone_json(v: &serde_json::Value) -> (r: serde_json::Value)
    ensures
        r == *v,
{
    v.clone()
}

/// Relies on `serde_json::Value::get` to look up an entry of an object.
#[verifier::external_body]
pub(crate) fn json_get(v: &serde_json::Value, key: &str) -> (r: Option<serde_json::Value>)
    ensures
        r == json_field(*v, key@),
{
    v.get(key).cloned()
}

/// Relies on `serde_json::Value::as_object` to read a value as an object.
#[verifier::external_body]
pub(crate) fn json_as_object(v: &serde_json::Value) -> (r: Option<serde_json::Map<String, serde_json::Value>>)
    ensures
        r == json_object(*v),
{
    v.as_object().cloned()
}

/// Relies on `serde_json::Map::values` to list the values of an object.
#[verifier::external_body]
pub(crate) fn json_map_values(m: &serde_json::Map<String, serde_json::Value>) -> (r: Vec<serde_json::Value>)
    ensures
        r@ == json_values(*m),
{
    m.values().cloned().collect()
}

/// Relies on `serde_json::Value::as_str` to read a value as a string.
#[verifier::external_body]
pub(crate) fn json_as_str(v: &serde_json::Value) -> (r: Option<String>)
    ensures
        r is Some <==> json_string(*v) is Some,
        r matches Some(s) ==> json_string(*v) == Some(s@),
{
    v.as_str().map(String::from)
}

/// Relies on serde_json's `Serializer` with a `PrettyFormatter` whose
/// indentation is `indent`, to write a value as JSON text. serde_json
/// documents that writing fails only where a `Serialize` impl fails or a map
/// has keys that are not strings, neither of which a `Value` can hold.
#[verifier::external_body]
pub(crate) fn json_pretty(v: &serde_json::Value, indent: &str) -> (r: Option<String>)
    ensures
        r is Some,
        r is Some <==> json_pretty_text(*v, indent@) is Some,
        r matches Some(s) ==> json_pretty_text(*v, indent@) == Some(s@),
{
    let mut buf: Vec<u8> = Vec::new();
    let fmt = serde_json::ser::PrettyFormatter::with_indent(indent.as_bytes());
    let mut ser = serde_json::Serializer::with_formatter(&mut buf, fmt);
    match serde::Serialize::serialize(v, &mut ser) {
        Ok(()) => String::from_utf8(buf).ok(),
        Err(_) => None,
    }
}

} // verus!

//! Trusted access to the JSON representation of requests and results.
//!
//! Parsing belongs to the outside crate; what it returns is named here: a
//! parsed value's content (`json_view`) and the parse of a document
//! (`json_parse`), both functions of their inputs alone. Every walk over
//! the parsed tree is verified code in the envelope module, against the
//! accessor contracts below.

use vstd::prelude::*;

verus! {

/// The mathematical image of a JSON value: null, a boolean, a number
/// (recorded by its unsigned 64-bit value where it has one), a string, an
/// array, or an object as its members in the map's order.
pub ghost enum JsonModel {
    Null,
    Bool(bool),
    Num(Option<u64>),
    Text(Seq<char>),
    Arr(Seq<JsonModel>),
    Obj(Seq<(Seq<char>, JsonModel)>),
}

/// The member of an object under a key: the first entry that carries it.
pub open spec fn obj_lookup(members: Seq<(Seq<char>, JsonModel)>, key: Seq<char>) -> Option<
    JsonModel,
>
    decreases members.len(),
{
    if members.len() == 0 {
        None
    } else if members[0].0 == key {
        Some(members[0].1)
    } else {
        obj_lookup(members.drop_first(), key)
    }
}

#[verifier::external_type_specification]
#[verifier::external_body]
pub struct ExValue(serde_json::Value);

/// What a parsed JSON value holds, as plain values.
pub uninterp spec fn json_view(v: serde_json::Value) -> JsonModel;

/// What parsing a document returns: a function of the text alone, `None`
/// on malformed JSON.
pub uninterp spec fn json_parse(s: Seq<char>) -> Option<JsonModel>;

/// Relies on `serde_json::from_str::<Value>`: parses a JSON document into
/// its generic value tree, or fails on malformed JSON; the result is a
/// function of the document text alone.
#[verifier::external_body]
pub fn json_from_str(s: &str) -> (r: Option<serde_json::Value>)
    ensures
        match r {
            Some(v) => json_parse(s@) == Some(json_view(v)),
            None => json_parse(s@) is None,
        },
{
    serde_json::from_str(s).ok()
}

/// Relies on `serde_json::Value::is_object`.
#[verifier::external_body]
pub fn json_is_object(v: &serde_json::Value) -> (r: bool)
    ensures
        r == (json_view(*v) is Obj),
{
    v.is_object()
}

/// Relies on `serde_json::Value::get`: the member of a JSON object under
/// this key; `None` when the value is no object or the key is absent.
#[verifier::external_body]
pub fn json_get<'a>(v: &'a serde_json::Value, key: &str) -> (r: Option<&'a serde_json::Value>)
    ensures
        json_view(*v) is Obj ==> match r {
            Some(x) => obj_lookup(json_view(*v)->Obj_0, key@) == Some(json_view(*x)),
            None => obj_lookup(json_view(*v)->Obj_0, key@) is None,
        },
        !(json_view(*v) is Obj) ==> r is None,
{
    v.get(key)
}

/// Relies on `serde_json::Value::as_array`: the elements of a JSON array,
/// or `None` when the value is no array.
#[verifier::external_body]
pub fn json_as_array(v: &serde_json::Value) -> (r: Option<Vec<serde_json::Value>>)
    ensures
        match r {
            Some(items) => json_view(*v) is Arr && items@.len() == json_view(*v)->Arr_0.len()
                && forall|i: int|
                0 <= i < items@.len() ==> json_view(#[trigger] items@[i]) == json_view(
                    *v,
                )->Arr_0[i],
            None => !(json_view(*v) is Arr),
        },
{
    v.as_array().map(|a| a.clone())
}

/// Relies on `serde_json::Value::as_str`: the text of a JSON string, or
/// `None` when the value is no string.
#[verifier::external_body]
pub fn json_as_string(v: &serde_json::Value) -> (r: Option<String>)
    ensures
        match r {
            Some(s) => json_view(*v) is Text && s@ == json_view(*v)->Text_0,
            None => !(json_view(*v) is Text),
        },
{
    v.as_str().map(|s| s.to_string())
}

/// Relies on `serde_json::Value::as_u64`: the value of a JSON number that
/// is an unsigned 64-bit integer, `None` for any other value.
#[verifier::external_body]
pub fn json_as_u64(v: &serde_json::Value) -> (r: Option<u64>)
    ensures
        match r {
            Some(n) => json_view(*v) is Num && json_view(*v)->Num_0 == Some(n),
            None => !(json_view(*v) is Num) || json_view(*v)->Num_0 is None,
        },
{
    v.as_u64()
}

/// Relies on `serde_json::Map::iter` through `Value::as_object`: the
/// members of a JSON object as (key, value) pairs, in the map's iteration
/// order, or `None` when the value is no object.
#[verifier::external_body]
pub fn json_object_entries(v: &serde_json::Value) -> (r: Option<Vec<(String, serde_json::Value)>>)
    ensures
        match r {
            Some(out) => json_view(*v) is Obj && out@.len() == json_view(*v)->Obj_0.len()
                && forall|i: int|
                0 <= i < out@.len() ==> (#[trigger] out@[i]).0@ == json_view(*v)->Obj_0[i].0
                    && json_view(out@[i].1) == json_view(*v)->Obj_0[i].1,
            None => !(json_view(*v) is Obj),
        },
{
    v.as_object().map(|m| m.iter().map(|(k, x)| (k.clone(), x.clone())).collect())
}

} // verus!

//! What a JSON value is, and what its members are.

use crate::json::{entries_map, values_view, Json, JsonNumber, JsonObject, JsonView, NumberView};
use crate::serde_values::{members_contents, value_contents};
use vstd::prelude::*;

verus! {

/// A value is what it holds: a text its characters, an array its items, an object its members.
pub proof fn law_values(
    truth: bool,
    number: JsonNumber,
    text: String,
    items: Vec<Json>,
    object: JsonObject,
    at: int,
)
    ensures
        Json::Null@ == JsonView::Null,
        Json::Bool(truth)@ == JsonView::Bool(truth),
        Json::Number(number)@ == JsonView::Number(number@),
        Json::Str(text)@ == JsonView::Str(text@),
        Json::Object(object)@ == JsonView::Object(object@),
        Json::Array(items)@ is Array,
        Json::Array(items)@->Array_0.len() == items@.len(),
        0 <= at < items@.len() ==> Json::Array(items)@->Array_0[at] == items@[at]@,
        values_view(items@).len() == items@.len(),
        0 <= at < items@.len() ==> values_view(items@)[at] == items@[at]@,
{
}

/// An integer is the same whether it is held as unsigned or as signed.
pub proof fn law_integers(unsigned: u64, signed: i64)
    ensures
        JsonNumber::Unsigned(unsigned)@ == NumberView::Integer(unsigned as int),
        JsonNumber::Signed(signed)@ == NumberView::Integer(signed as int),
{
}

/// The members of an object are its entries, the later of two with one name.
pub proof fn law_members(
    entries: Seq<(String, Json)>,
    name: String,
    value: Json,
    object: JsonObject,
)
    ensures
        entries_map(entries.push((name, value))) == entries_map(entries).insert(name@, value@),
        entries_map(Seq::<(String, Json)>::empty()) == Map::<Seq<char>, JsonView>::empty(),
        object@ == entries_map(object.entries@),
{
    assert(entries.push((name, value)).drop_last() =~= entries);
}

/// The members of a `serde_json` object are its entries, the later of two with one name.
pub proof fn law_outside_members(
    entries: Seq<(String, serde_json::Value)>,
    name: String,
    value: serde_json::Value,
)
    ensures
        members_contents(entries.push((name, value))) == members_contents(entries).insert(
            name@,
            value_contents(value),
        ),
        members_contents(Seq::<(String, serde_json::Value)>::empty()) == Map::<
            Seq<char>,
            JsonView,
        >::empty(),
{
    assert(entries.push((name, value)).drop_last() =~= entries);
}

/// Only an object has members, and those that it holds.
pub proof fn law_fields(
    value: JsonView,
    members: Map<Seq<char>, JsonView>,
    key: Seq<char>,
    text: Seq<char>,
    items: Seq<JsonView>,
)
    ensures
        !(value is Object) ==> value.field(key) is None,
        value == JsonView::Object(members) ==> {
            &&& value.field(key) is Some <==> members.contains_key(key)
            &&& members.contains_key(key) ==> value.field(key) == Some(members[key])
        },
        value.text_field(key) == Some(text) <==> value.field(key) == Some(JsonView::Str(text)),
        value.array_field(key) == Some(items) <==> value.field(key) == Some(
            JsonView::Array(items),
        ),
{
}

} // verus!

//! The passage between `serde_json` and the library's own JSON values.

use crate::json::{
    entries_map, is_sorted, json_view, number_contents, number_integer, sort_json_value, Json,
    JsonNumber, JsonObject, JsonView,
};
use std::collections::HashMap;
use vstd::prelude::*;

verus! {

/// `serde_json::Value`.
#[verifier::external_type_specification]
#[verifier::external_body]
pub struct ExValue(serde_json::Value);

/// What a `serde_json::Value` holds.
pub uninterp spec fn value_contents(value: serde_json::Value) -> JsonView;

/// The compact JSON text that `serde_json` writes for a value, where it writes one.
pub uninterp spec fn json_text(contents: JsonView) -> Option<Seq<char>>;

/// The members of the JSON object that `serde_json` reads in a text, or the message of the error
/// with which it refuses the text.
pub uninterp spec fn object_in_text(text: Seq<char>) -> Result<Map<Seq<char>, JsonView>, Seq<char>>;

/// One level of a `serde_json::Value`.
pub enum ValueParts {
    Null,
    Bool(bool),
    Number(serde_json::Number),
    Str(String),
    Array(Vec<serde_json::Value>),
    Object(Vec<(String, serde_json::Value)>),
}

/// What a list of `serde_json` values holds.
pub open spec fn values_contents(values: Seq<serde_json::Value>) -> Seq<JsonView> {
    values.map_values(|value: serde_json::Value| value_contents(value))
}

/// The map that a list of members stands for: later members replace earlier ones.
pub open spec fn members_contents(members: Seq<(String, serde_json::Value)>) -> Map<
    Seq<char>,
    JsonView,
>
    decreases members.len(),
{
    if members.len() == 0 {
        Map::empty()
    } else {
        members_contents(members.drop_last()).insert(
            members.last().0@,
            value_contents(members.last().1),
        )
    }
}

/// No name occurs twice.
pub open spec fn names_distinct(members: Seq<(String, serde_json::Value)>) -> bool {
    forall|i: int, j: int|
        #![trigger members[i], members[j]]
        0 <= i < j < members.len() ==> members[i].0@ != members[j].0@
}

/// What the parts of a value hold.
pub open spec fn parts_contents(parts: ValueParts) -> JsonView {
    match parts {
        ValueParts::Null => JsonView::Null,
        ValueParts::Bool(truth) => JsonView::Bool(truth),
        ValueParts::Number(number) => JsonView::Number(number_contents(number)),
        ValueParts::Str(text) => JsonView::Str(text@),
        ValueParts::Array(items) => JsonView::Array(values_contents(items@)),
        ValueParts::Object(members) => JsonView::Object(members_contents(members@)),
    }
}

/// Takes a `serde_json::Value` apart by its variant. The members of an object come with
/// each name once, as `serde_json::Map` holds them.
#[verifier::external_body]
fn take_apart(value: serde_json::Value) -> (parts: ValueParts)
    ensures
        parts_contents(parts) == value_contents(value),
        parts matches ValueParts::Object(members) ==> names_distinct(members@),
{
    match value {
        serde_json::Value::Null => ValueParts::Null,
        serde_json::Value::Bool(truth) => ValueParts::Bool(truth),
        serde_json::Value::Number(number) => ValueParts::Number(number),
        serde_json::Value::String(text) => ValueParts::Str(text),
        serde_json::Value::Array(items) => ValueParts::Array(items),
        serde_json::Value::Object(members) => ValueParts::Object(members.into_iter().collect()),
    }
}

/// Builds a `serde_json::Value` of the variant that the parts name. Members of different names
/// are collected into a `serde_json::Map` that holds each of them.
#[verifier::external_body]
fn put_together(parts: ValueParts) -> (value: serde_json::Value)
    requires
        parts matches ValueParts::Object(members) ==> names_distinct(members@),
    ensures
        value_contents(value) == parts_contents(parts),
{
    match parts {
        ValueParts::Null => serde_json::Value::Null,
        ValueParts::Bool(truth) => serde_json::Value::Bool(truth),
        ValueParts::Number(number) => serde_json::Value::Number(number),
        ValueParts::Str(text) => serde_json::Value::String(text),
        ValueParts::Array(items) => serde_json::Value::Array(items),
        ValueParts::Object(members) => serde_json::Value::Object(members.into_iter().collect()),
    }
}

/// `<serde_json::Number as From<u64>>::from`: a number that holds this integer.
#[verifier::external_body]
fn number_from_u64(integer: u64) -> (number: serde_json::Number)
    ensures
        number_integer(number) == Some(integer as int),
{
    serde_json::Number::from(integer)
}

/// `<serde_json::Number as From<i64>>::from`: a number that holds this integer.
#[verifier::external_body]
fn number_from_i64(integer: i64) -> (number: serde_json::Number)
    ensures
        number_integer(number) == Some(integer as int),
{
    serde_json::Number::from(integer)
}

/// The text of an optional string.
pub open spec fn text_of(string: Option<String>) -> Option<Seq<char>> {
    match string {
        Some(content) => Some(content@),
        None => None,
    }
}

/// `serde_json::to_string` on a `serde_json::Value`: its text is a function of what the
/// value holds, for `serde_json::Map` writes its members in the order of their names.
#[verifier::external_body]
fn value_to_string(value: &serde_json::Value) -> (text: Option<String>)
    ensures
        text_of(text) == json_text(value_contents(*value)),
{
    serde_json::to_string(value).ok()
}

/// `serde_json::from_str` into a table from names to values: whether it reads one, which
/// members it then has, and what its error says otherwise, is a function of the text.
#[verifier::external_body]
fn read_members(text: &str) -> (result: Result<Vec<(String, serde_json::Value)>, String>)
    ensures
        match result {
            Ok(members) => object_in_text(text@) == Ok::<Map<Seq<char>, JsonView>, Seq<char>>(
                members_contents(members@),
            ) && names_distinct(members@),
            Err(reason) => object_in_text(text@) == Err::<Map<Seq<char>, JsonView>, Seq<char>>(
                reason@,
            ),
        },
{
    let table: Result<HashMap<String, serde_json::Value>, serde_json::Error> =
        serde_json::from_str(text);
    match table {
        Ok(members) => Ok(members.into_iter().collect()),
        Err(error) => Err(error.to_string()),
    }
}

proof fn lemma_member_contents(members: Seq<(String, serde_json::Value)>, at: int)
    requires
        names_distinct(members),
        0 <= at < members.len(),
    ensures
        members_contents(members).contains_key(members[at].0@),
        members_contents(members)[members[at].0@] == value_contents(members[at].1),
        members_contents(members).dom().finite(),
    decreases members.len(),
{
    if at < members.len() - 1 {
        assert(names_distinct(members.drop_last())) by {
            assert forall|i: int, j: int|
                #![trigger members.drop_last()[i], members.drop_last()[j]]
                0 <= i < j < members.len() - 1 implies members.drop_last()[i].0@
                != members.drop_last()[j].0@ by {
                assert(members[i].0@ != members[j].0@);
            }
        }
        lemma_member_contents(members.drop_last(), at);
        assert(members[at].0@ != members.last().0@);
    } else {
        lemma_members_finite(members);
    }
}

proof fn lemma_members_finite(members: Seq<(String, serde_json::Value)>)
    ensures
        members_contents(members).dom().finite(),
    decreases members.len(),
{
    if members.len() > 0 {
        lemma_members_finite(members.drop_last());
    }
}

impl Json {
    /// The library's own value for a `serde_json::Value`.
    pub fn from_value(value: serde_json::Value) -> (json: Json)
        ensures
            json@ == value_contents(value),
        decreases value_contents(value),
    {
        let ghost contents = value_contents(value);
        match take_apart(value) {
            ValueParts::Null => Json::Null,
            ValueParts::Bool(truth) => Json::Bool(truth),
            ValueParts::Number(number) => {
                match number.as_u64() {
                    Some(integer) => Json::Number(JsonNumber::Unsigned(integer)),
                    None => match number.as_i64() {
                        Some(integer) => Json::Number(JsonNumber::Signed(integer)),
                        None => Json::Number(JsonNumber::Other(number)),
                    },
                }
            },
            ValueParts::Str(text) => Json::Str(text),
            ValueParts::Array(items) => {
                let ghost all = items@;
                let mut values: Vec<Json> = Vec::new();
                for item in it: items
                    invariant
                        it.seq() == all,
                        contents == JsonView::Array(values_contents(all)),
                        contents == value_contents(value),
                        values@.len() == it.index(),
                        forall|i: int|
                            0 <= i < values@.len() ==> (#[trigger] values@[i])@ == value_contents(
                                all[i],
                            ),
                {
                    assert(value_contents(item) == contents->Array_0[it.index()]);
                    values.push(Json::from_value(item));
                }
                assert(json_view(Json::Array(values))->Array_0 =~= contents->Array_0);
                Json::Array(values)
            },
            ValueParts::Object(members) => {
                let ghost all = members@;
                let mut entries: Vec<(String, Json)> = Vec::new();
                for member in it: members
                    invariant
                        it.seq() == all,
                        contents == JsonView::Object(members_contents(all)),
                        contents == value_contents(value),
                        names_distinct(all),
                        entries_map(entries@) == members_contents(all.take(it.index())),
                {
                    let ghost before = entries@;
                    proof {
                        lemma_member_contents(all, it.index());
                        assert(decreases_to!(
                            contents->Object_0 => contents->Object_0[member.0@]
                        ));
                    }
                    entries.push((member.0, Json::from_value(member.1)));
                    assert(entries@.drop_last() =~= before);
                    assert(all.take(it.index() + 1).drop_last() =~= all.take(it.index()));
                }
                assert(all.take(all.len() as int) =~= all);
                Json::Object(JsonObject { entries })
            },
        }
    }

    /// The `serde_json::Value` for a value of the library.
    pub fn to_value(&self) -> (value: serde_json::Value)
        ensures
            value_contents(value) == self@,
    {
        sort_json_value(self).sorted_value()
    }

    /// The `serde_json::Value` for a value whose objects hold each name once, in order.
    fn sorted_value(&self) -> (value: serde_json::Value)
        requires
            is_sorted(*self),
        ensures
            value_contents(value) == self@,
        decreases self,
    {
        match self {
            Json::Null => put_together(ValueParts::Null),
            Json::Bool(truth) => put_together(ValueParts::Bool(*truth)),
            Json::Number(JsonNumber::Unsigned(integer)) => put_together(
                ValueParts::Number(number_from_u64(*integer)),
            ),
            Json::Number(JsonNumber::Signed(integer)) => put_together(
                ValueParts::Number(number_from_i64(*integer)),
            ),
            Json::Number(JsonNumber::Other(number)) => put_together(
                ValueParts::Number(number.clone()),
            ),
            Json::Str(text) => put_together(ValueParts::Str(text.clone())),
            Json::Array(items) => {
                let mut values: Vec<serde_json::Value> = Vec::new();
                let mut at: usize = 0;
                while at < items.len()
                    invariant
                        at <= items@.len(),
                        *self == Json::Array(*items),
                        is_sorted(*self),
                        values@.len() == at,
                        forall|i: int|
                            0 <= i < at ==> value_contents(#[trigger] values@[i]) == items@[i]@,
                    decreases items.len() - at,
                {
                    assert(decreases_to!(*self => self->Array_0));
                    values.push(items[at].sorted_value());
                    at = at + 1;
                }
                assert(values_contents(values@) =~= self@->Array_0);
                put_together(ValueParts::Array(values))
            },
            Json::Object(object) => {
                let mut members: Vec<(String, serde_json::Value)> = Vec::new();
                let mut at: usize = 0;
                while at < object.entries.len()
                    invariant
                        at <= object.entries@.len(),
                        *self == Json::Object(*object),
                        is_sorted(*self),
                        members@.len() == at,
                        forall|i: int|
                            0 <= i < at ==> (#[trigger] members@[i]).0@ == object.entries@[i].0@,
                        members_contents(members@) == entries_map(
                            object.entries@.take(at as int),
                        ),
                    decreases object.entries.len() - at,
                {
                    let ghost before = members@;
                    assert(decreases_to!(*self => self->Object_0));
                    let member = object.entries[at].1.sorted_value();
                    members.push((object.entries[at].0.clone(), member));
                    assert(members@.drop_last() =~= before);
                    assert(object.entries@.take(at + 1).drop_last() =~= object.entries@.take(
                        at as int,
                    ));
                    at = at + 1;
                }
                assert(object.entries@.take(object.entries@.len() as int) =~= object.entries@);
                assert(names_distinct(members@)) by {
                    assert forall|i: int, j: int|
                        #![trigger members@[i], members@[j]]
                        0 <= i < j < members@.len() implies members@[i].0@ != members@[j].0@ by {
                        assert(object.entries@[i].0@ != object.entries@[j].0@);
                    }
                }
                put_together(ValueParts::Object(members))
            },
        }
    }

    /// The compact JSON text of a value.
    pub fn to_text(&self) -> (text: Option<String>)
        ensures
            text_of(text) == json_text(self@),
    {
        value_to_string(&self.to_value())
    }
}

impl JsonObject {
    /// Reads the members of the JSON object in `text`, or says why there is none.
    pub fn from_text(text: &str) -> (result: Result<JsonObject, String>)
        ensures
            match result {
                Ok(object) => object_in_text(text@) == Ok::<Map<Seq<char>, JsonView>, Seq<char>>(
                    object@,
                ),
                Err(reason) => object_in_text(text@) == Err::<
                    Map<Seq<char>, JsonView>,
                    Seq<char>,
                >(reason@),
            },
    {
        match read_members(text) {
            Ok(members) => {
                let ghost all = members@;
                let mut entries: Vec<(String, Json)> = Vec::new();
                for member in it: members
                    invariant
                        it.seq() == all,
                        entries_map(entries@) == members_contents(all.take(it.index())),
                {
                    let ghost before = entries@;
                    entries.push((member.0, Json::from_value(member.1)));
                    assert(entries@.drop_last() =~= before);
                    assert(all.take(it.index() + 1).drop_last() =~= all.take(it.index()));
                }
                assert(all.take(all.len() as int) =~= all);
                Ok(JsonObject { entries })
            },
            Err(reason) => Err(reason),
        }
    }
}

} // verus!

//! JSON values as plain data, and what the simulator reads and writes of them.

use crate::text::{
    in_order, lemma_lex_antisymmetric, lemma_lex_total, lemma_lex_transitive, lex_le, same_text,
};
use vstd::prelude::*;

verus! {

/// `serde_json::Number`: carried as it is where it is no integer.
#[verifier::external_type_specification]
#[verifier::external_body]
pub struct ExNumber(serde_json::Number);

/// `<serde_json::Number as Clone>::clone`: the same number.
pub assume_specification[ <serde_json::Number as Clone>::clone ](
    number: &serde_json::Number,
) -> (result: serde_json::Number)
    ensures
        result == *number,
;

/// The integer that a `serde_json::Number` holds, where it holds one.
pub uninterp spec fn number_integer(number: serde_json::Number) -> Option<int>;

/// `serde_json::Number::as_u64`: the integer, unless there is none or it is negative.
pub assume_specification[ serde_json::Number::as_u64 ](number: &serde_json::Number) -> (result:
    Option<u64>)
    ensures
        match result {
            Some(integer) => number_integer(*number) == Some(integer as int),
            None => number_integer(*number) is None || number_integer(*number)->0 < 0,
        },
;

/// `serde_json::Number::as_i64`: the integer, unless there is none or it is larger than an
/// `i64`.
pub assume_specification[ serde_json::Number::as_i64 ](number: &serde_json::Number) -> (result:
    Option<i64>)
    ensures
        match result {
            Some(integer) => number_integer(*number) == Some(integer as int),
            None => number_integer(*number) is None || number_integer(*number)->0 > i64::MAX,
        },
;

/// A JSON number.
#[derive(Debug)]
pub enum JsonNumber {
    /// An integer that is not negative.
    Unsigned(u64),
    /// An integer, most often a negative one.
    Signed(i64),
    /// A number that `serde_json` does not hold as an integer.
    Other(serde_json::Number),
}

/// A JSON value.
#[derive(Debug)]
pub enum Json {
    Null,
    Bool(bool),
    Number(JsonNumber),
    Str(String),
    Array(Vec<Json>),
    Object(JsonObject),
}

/// The members of a JSON object. Of two members with one name the later one counts.
#[derive(Debug)]
pub struct JsonObject {
    pub entries: Vec<(String, Json)>,
}

/// What a JSON number is.
#[verifier::ext_equal]
pub enum NumberView {
    Integer(int),
    Other(serde_json::Number),
}

/// What a JSON value is: an object is a map, so the order of its members does not matter.
#[verifier::ext_equal]
pub enum JsonView {
    Null,
    Bool(bool),
    Number(NumberView),
    Str(Seq<char>),
    Array(Seq<JsonView>),
    Object(Map<Seq<char>, JsonView>),
}

/// What a `serde_json::Number` is.
pub open spec fn number_contents(number: serde_json::Number) -> NumberView {
    match number_integer(number) {
        Some(integer) => NumberView::Integer(integer),
        None => NumberView::Other(number),
    }
}

impl View for JsonNumber {
    type V = NumberView;

    open spec fn view(&self) -> NumberView {
        match self {
            JsonNumber::Unsigned(integer) => NumberView::Integer(*integer as int),
            JsonNumber::Signed(integer) => NumberView::Integer(*integer as int),
            JsonNumber::Other(number) => number_contents(*number),
        }
    }
}

/// What a JSON value is.
pub open spec fn json_view(json: Json) -> JsonView
    decreases json,
{
    match json {
        Json::Null => JsonView::Null,
        Json::Bool(truth) => JsonView::Bool(truth),
        Json::Number(number) => JsonView::Number(number@),
        Json::Str(text) => JsonView::Str(text@),
        Json::Array(items) => JsonView::Array(
            Seq::new(
                items@.len(),
                |i: int|
                    if 0 <= i < items@.len() {
                        json_view(items@[i])
                    } else {
                        JsonView::Null
                    },
            ),
        ),
        Json::Object(object) => JsonView::Object(entries_map(object.entries@)),
    }
}

/// The map that a list of members stands for: later members replace earlier ones.
pub open spec fn entries_map(entries: Seq<(String, Json)>) -> Map<Seq<char>, JsonView>
    decreases entries,
{
    if entries.len() == 0 {
        Map::empty()
    } else {
        entries_map(entries.drop_last()).insert(entries.last().0@, json_view(entries.last().1))
    }
}

impl View for Json {
    type V = JsonView;

    open spec fn view(&self) -> JsonView {
        json_view(*self)
    }
}

impl View for JsonObject {
    type V = Map<Seq<char>, JsonView>;

    open spec fn view(&self) -> Map<Seq<char>, JsonView> {
        entries_map(self.entries@)
    }
}

/// What the values of a list are.
pub open spec fn values_view(values: Seq<Json>) -> Seq<JsonView> {
    values.map_values(|value: Json| value@)
}

/// What an array is.
pub proof fn lemma_array_view(items: Vec<Json>)
    ensures
        json_view(Json::Array(items)) == JsonView::Array(values_view(items@)),
{
    assert(json_view(Json::Array(items))->Array_0 =~= values_view(items@));
}

/// Setting a member to what it is changes nothing.
pub proof fn lemma_insert_same(members: Map<Seq<char>, JsonView>, key: Seq<char>)
    ensures
        members.contains_key(key) ==> members.insert(key, members[key]) == members,
{
    if members.contains_key(key) {
        assert(members.insert(key, members[key]) =~= members);
    }
}

impl JsonView {
    /// The member `key` of an object.
    pub open spec fn field(self, key: Seq<char>) -> Option<JsonView> {
        match self {
            JsonView::Object(members) => if members.contains_key(key) {
                Some(members[key])
            } else {
                None
            },
            _ => None,
        }
    }

    /// The member `key` of an object, where it is a string.
    pub open spec fn text_field(self, key: Seq<char>) -> Option<Seq<char>> {
        match self.field(key) {
            Some(JsonView::Str(text)) => Some(text),
            _ => None,
        }
    }

    /// The member `key` of an object, where it is an array.
    pub open spec fn array_field(self, key: Seq<char>) -> Option<Seq<JsonView>> {
        match self.field(key) {
            Some(JsonView::Array(items)) => Some(items),
            _ => None,
        }
    }
}

/// The place of the last member named `key`, or -1.
spec fn last_place(entries: Seq<(String, Json)>, key: Seq<char>) -> int
    decreases entries.len(),
{
    if entries.len() == 0 {
        -1
    } else if entries.last().0@ == key {
        entries.len() - 1
    } else {
        last_place(entries.drop_last(), key)
    }
}

proof fn lemma_last_place(entries: Seq<(String, Json)>, key: Seq<char>)
    ensures
        -1 <= last_place(entries, key) < entries.len(),
        entries_map(entries).contains_key(key) == (last_place(entries, key) >= 0),
        last_place(entries, key) >= 0 ==> {
            &&& entries[last_place(entries, key)].0@ == key
            &&& entries_map(entries)[key] == entries[last_place(entries, key)].1@
        },
        forall|i: int|
            last_place(entries, key) < i < entries.len() ==> (#[trigger] entries[i]).0@ != key,
    decreases entries.len(),
{
    if entries.len() > 0 && entries.last().0@ != key {
        lemma_last_place(entries.drop_last(), key);
        assert forall|i: int| last_place(entries, key) < i < entries.len() implies (
        #[trigger] entries[i]).0@ != key by {
            if i < entries.len() - 1 {
                assert(entries.drop_last()[i] == entries[i]);
            }
        }
    }
}

proof fn lemma_is_last_place(entries: Seq<(String, Json)>, key: Seq<char>, place: int)
    requires
        -1 <= place < entries.len(),
        place >= 0 ==> entries[place].0@ == key,
        forall|i: int| place < i < entries.len() ==> (#[trigger] entries[i]).0@ != key,
    ensures
        last_place(entries, key) == place,
{
    lemma_last_place(entries, key);
    if last_place(entries, key) < place {
        assert(entries[place].0@ != key);
    }
}

/// Replacing the last member named `key` sets `key` in the map.
proof fn lemma_update_last(entries: Seq<(String, Json)>, place: int, name: String, value: Json)
    requires
        0 <= place < entries.len(),
        place == last_place(entries, name@),
    ensures
        entries_map(entries.update(place, (name, value))) == entries_map(entries).insert(
            name@,
            value@,
        ),
{
    let updated = entries.update(place, (name, value));
    lemma_last_place(entries, name@);
    let wanted = entries_map(entries).insert(name@, value@);
    assert forall|other: Seq<char>|
        #![trigger entries_map(updated).dom().contains(other)]
        #![trigger wanted.dom().contains(other)]
        entries_map(updated).dom().contains(other) == wanted.dom().contains(other) && (
        wanted.dom().contains(other) ==> entries_map(updated)[other] == wanted[other]) by {
        lemma_last_place(entries, other);
        lemma_last_place(updated, other);
        let p = last_place(entries, other);
        assert forall|i: int| p < i < updated.len() implies (#[trigger] updated[i]).0@ != other by {
            assert(entries[i].0@ != other);
        }
        if p >= 0 {
            assert(updated[p].0@ == other);
        }
        lemma_is_last_place(updated, other, p);
    }
    assert(entries_map(updated) =~= wanted);
}

/// No name occurs twice.
pub open spec fn names_differ(entries: Seq<(String, Json)>) -> bool {
    forall|i: int, j: int|
        #![trigger entries[i], entries[j]]
        0 <= i < j < entries.len() ==> entries[i].0@ != entries[j].0@
}

/// Where no name occurs twice, every entry of an object is its member.
pub proof fn lemma_entry_is_member(entries: Seq<(String, Json)>, at: int)
    requires
        names_differ(entries),
        0 <= at < entries.len(),
    ensures
        entries_map(entries).contains_key(entries[at].0@),
        entries_map(entries)[entries[at].0@] == entries[at].1@,
{
    assert(forall|i: int| at < i < entries.len() ==> (#[trigger] entries[i]).0@ != entries[at].0@);
    lemma_is_last_place(entries, entries[at].0@, at);
    lemma_last_place(entries, entries[at].0@);
}

/// Every member of an object is one of its entries.
pub proof fn lemma_member_is_entry(entries: Seq<(String, Json)>, key: Seq<char>) -> (at: int)
    requires
        entries_map(entries).contains_key(key),
    ensures
        0 <= at < entries.len(),
        entries[at].0@ == key,
        entries_map(entries)[key] == entries[at].1@,
{
    lemma_last_place(entries, key);
    last_place(entries, key)
}

impl JsonObject {
    /// An object without members.
    pub fn new() -> (object: JsonObject)
        ensures
            object@ == Map::<Seq<char>, JsonView>::empty(),
    {
        JsonObject { entries: Vec::new() }
    }

    fn place_of(&self, key: &str) -> (place: Option<usize>)
        ensures
            place matches Some(at) ==> at == last_place(self.entries@, key@),
            place is None ==> last_place(self.entries@, key@) == -1,
    {
        let mut at: usize = self.entries.len();
        while at > 0
            invariant
                at <= self.entries@.len(),
                forall|i: int|
                    at <= i < self.entries@.len() ==> (#[trigger] self.entries@[i]).0@ != key@,
            decreases at,
        {
            at = at - 1;
            if same_text(self.entries[at].0.as_str(), key) {
                proof {
                    lemma_is_last_place(self.entries@, key@, at as int);
                }
                return Some(at);
            }
        }
        proof {
            lemma_is_last_place(self.entries@, key@, -1);
        }
        None
    }

    /// The member named `key`.
    pub fn get(&self, key: &str) -> (member: Option<&Json>)
        ensures
            member is Some <==> self@.contains_key(key@),
            member matches Some(value) ==> value@ == self@[key@],
    {
        proof {
            lemma_last_place(self.entries@, key@);
        }
        match self.place_of(key) {
            Some(at) => Some(&self.entries[at].1),
            None => None,
        }
    }

    /// The member named `key`, to be changed.
    pub fn get_mut(&mut self, key: &str) -> (member: Option<&mut Json>)
        ensures
            match member {
                Some(value) => {
                    &&& old(self)@.contains_key(key@)
                    &&& value@ == old(self)@[key@]
                    &&& final(self)@ == old(self)@.insert(key@, final(value)@)
                },
                None => !old(self)@.contains_key(key@) && final(self)@ == old(self)@,
            },
    {
        proof {
            lemma_last_place(self.entries@, key@);
        }
        match self.place_of(key) {
            Some(at) => {
                let ghost before = self.entries@;
                let value = &mut self.entries[at].1;
                proof {
                    lemma_update_last(before, at as int, before[at as int].0, *final(value));
                }
                Some(value)
            },
            None => None,
        }
    }

    /// Whether there is a member named `key`.
    pub fn contains_key(&self, key: &str) -> (result: bool)
        ensures
            result == self@.contains_key(key@),
    {
        self.get(key).is_some()
    }

    /// Whether there are no members.
    pub fn is_empty(&self) -> (result: bool)
        ensures
            result == (self@ == Map::<Seq<char>, JsonView>::empty()),
    {
        if self.entries.len() > 0 {
            assert(self@.contains_key(self.entries@.last().0@));
            false
        } else {
            true
        }
    }

    /// Sets the member named `key` to `value`.
    pub fn insert(&mut self, key: &str, value: Json)
        ensures
            final(self)@ == old(self)@.insert(key@, value@),
    {
        match self.place_of(key) {
            Some(at) => {
                let ghost before = self.entries@;
                proof {
                    lemma_last_place(before, key@);
                    lemma_update_last(before, at as int, before[at as int].0, value);
                }
                self.entries[at].1 = value;
                assert(self.entries@ =~= before.update(at as int, (before[at as int].0, value)));
            },
            None => {
                let ghost before = self.entries@;
                self.entries.push((key.to_owned(), value));
                assert(self.entries@.drop_last() =~= before);
            },
        }
    }

    /// Takes out the member named `key`.
    pub fn remove(&mut self, key: &str)
        ensures
            final(self)@ == old(self)@.remove(key@),
    {
        let mut entries: Vec<(String, Json)> = Vec::new();
        std::mem::swap(&mut entries, &mut self.entries);
        let ghost all = entries@;
        assert(entries_map(self.entries@) =~= entries_map(all.take(0)).remove(key@));
        for entry in it: entries
            invariant
                it.seq() == all,
                entries_map(self.entries@) == entries_map(all.take(it.index())).remove(key@),
        {
            let ghost before = self.entries@;
            let ghost taken = all.take(it.index() + 1);
            assert(taken.drop_last() =~= all.take(it.index()));
            assert(taken.last() == entry);
            if !same_text(entry.0.as_str(), key) {
                self.entries.push(entry);
                assert(self.entries@.drop_last() =~= before);
            }
            assert(entries_map(self.entries@) =~= entries_map(taken).remove(key@));
        }
        assert(all.take(all.len() as int) =~= all);
    }

    /// Takes out all members.
    pub fn clear(&mut self)
        ensures
            final(self)@ == Map::<Seq<char>, JsonView>::empty(),
    {
        self.entries.clear();
    }

    /// A copy.
    pub fn duplicate(&self) -> (copy: JsonObject)
        ensures
            copy@ == self@,
        decreases self,
    {
        let mut entries: Vec<(String, Json)> = Vec::new();
        let mut at: usize = 0;
        while at < self.entries.len()
            invariant
                at <= self.entries@.len(),
                entries_map(entries@) == entries_map(self.entries@.take(at as int)),
            decreases self.entries.len() - at,
        {
            let ghost before = entries@;
            let ghost taken = self.entries@.take(at + 1);
            assert(taken.drop_last() =~= self.entries@.take(at as int));
            let value = self.entries[at].1.duplicate();
            entries.push((self.entries[at].0.clone(), value));
            assert(entries@.drop_last() =~= before);
            at = at + 1;
        }
        assert(self.entries@.take(self.entries@.len() as int) =~= self.entries@);
        JsonObject { entries }
    }
}

impl JsonNumber {
    /// A copy.
    pub fn duplicate(&self) -> (copy: JsonNumber)
        ensures
            copy == *self,
    {
        match self {
            JsonNumber::Unsigned(integer) => JsonNumber::Unsigned(*integer),
            JsonNumber::Signed(integer) => JsonNumber::Signed(*integer),
            JsonNumber::Other(number) => JsonNumber::Other(number.clone()),
        }
    }
}

impl Json {
    /// The member named `key` of an object.
    pub fn get(&self, key: &str) -> (member: Option<&Json>)
        ensures
            member is Some <==> self@.field(key@) is Some,
            member matches Some(value) ==> Some(value@) == self@.field(key@),
    {
        match self {
            Json::Object(object) => object.get(key),
            _ => None,
        }
    }

    /// The text of a string.
    pub fn as_str(&self) -> (text: Option<&str>)
        ensures
            text is Some <==> self@ is Str,
            text matches Some(content) ==> self@ == JsonView::Str(content@),
    {
        match self {
            Json::Str(text) => Some(text.as_str()),
            _ => None,
        }
    }

    /// The items of an array.
    pub fn as_array(&self) -> (items: Option<&Vec<Json>>)
        ensures
            items is Some <==> self@ is Array,
            items matches Some(values) ==> self@ == JsonView::Array(values_view(values@)),
    {
        match self {
            Json::Array(items) => {
                assert(self@->Array_0 =~= values_view(items@));
                Some(items)
            },
            _ => None,
        }
    }

    /// The member named `key` of an object, where it is a string.
    pub fn text_field(&self, key: &str) -> (text: Option<&str>)
        ensures
            text is Some <==> self@.text_field(key@) is Some,
            text matches Some(content) ==> self@.text_field(key@) == Some(content@),
    {
        match self.get(key) {
            Some(member) => member.as_str(),
            None => None,
        }
    }

    /// The member named `key` of an object, where it is an array.
    pub fn array_field(&self, key: &str) -> (items: Option<&Vec<Json>>)
        ensures
            items is Some <==> self@.array_field(key@) is Some,
            items matches Some(values) ==> self@.array_field(key@) == Some(values_view(values@)),
    {
        match self.get(key) {
            Some(member) => member.as_array(),
            None => None,
        }
    }

    /// A copy.
    pub fn duplicate(&self) -> (copy: Json)
        ensures
            copy@ == self@,
        decreases self,
    {
        match self {
            Json::Null => Json::Null,
            Json::Bool(truth) => Json::Bool(*truth),
            Json::Number(number) => Json::Number(number.duplicate()),
            Json::Str(text) => Json::Str(text.clone()),
            Json::Array(items) => {
                let mut copies: Vec<Json> = Vec::new();
                let mut at: usize = 0;
                while at < items.len()
                    invariant
                        at <= items@.len(),
                        *self == Json::Array(*items),
                        copies@.len() == at,
                        forall|i: int| 0 <= i < at ==> (#[trigger] copies@[i])@ == items@[i]@,
                    decreases items.len() - at,
                {
                    assert(decreases_to!(*self => self->Array_0));
                    copies.push(items[at].duplicate());
                    at = at + 1;
                }
                assert(json_view(Json::Array(copies))->Array_0 =~= self@->Array_0);
                Json::Array(copies)
            },
            Json::Object(object) => Json::Object(object.duplicate()),
        }
    }
}

/// The names of the members ascend, so none occurs twice.
pub open spec fn names_ascend(entries: Seq<(String, Json)>) -> bool {
    forall|i: int, j: int|
        #![trigger entries[i], entries[j]]
        0 <= i < j < entries.len() ==> lex_le(entries[i].0@, entries[j].0@) && entries[i].0@
            != entries[j].0@
}

/// In every object of the value the names ascend.
pub open spec fn is_sorted(json: Json) -> bool
    decreases json,
{
    match json {
        Json::Array(items) => forall|i: int|
            0 <= i < items@.len() ==> is_sorted(#[trigger] items@[i]),
        Json::Object(object) => names_ascend(object.entries@) && forall|i: int|
            0 <= i < object.entries@.len() ==> is_sorted((#[trigger] object.entries@[i]).1),
        _ => true,
    }
}

/// Putting in a member whose name is new sets that name in the map.
proof fn lemma_insert_new(entries: Seq<(String, Json)>, at: int, name: String, value: Json)
    requires
        0 <= at <= entries.len(),
        forall|i: int| 0 <= i < entries.len() ==> (#[trigger] entries[i]).0@ != name@,
    ensures
        entries_map(entries.insert(at, (name, value))) == entries_map(entries).insert(
            name@,
            value@,
        ),
{
    let inserted = entries.insert(at, (name, value));
    let wanted = entries_map(entries).insert(name@, value@);
    assert forall|other: Seq<char>|
        #![trigger entries_map(inserted).dom().contains(other)]
        #![trigger wanted.dom().contains(other)]
        entries_map(inserted).dom().contains(other) == wanted.dom().contains(other) && (
        wanted.dom().contains(other) ==> entries_map(inserted)[other] == wanted[other]) by {
        lemma_last_place(entries, other);
        lemma_last_place(inserted, other);
        let old_place = last_place(entries, other);
        let place = if other == name@ {
            at
        } else if old_place >= at {
            old_place + 1
        } else {
            old_place
        };
        assert forall|i: int| place < i < inserted.len() implies (#[trigger] inserted[i]).0@
            != other by {
            if i > at {
                assert(inserted[i] == entries[i - 1]);
            } else if i < at {
                assert(inserted[i] == entries[i]);
            }
        }
        if place >= 0 && other != name@ {
            if old_place >= at {
                assert(inserted[place] == entries[old_place]);
            } else {
                assert(inserted[place] == entries[old_place]);
            }
        }
        lemma_is_last_place(inserted, other, place);
    }
    assert(entries_map(inserted) =~= wanted);
}

/// Sets the member `name` in a list whose names ascend.
fn put_sorted(entries: &mut Vec<(String, Json)>, name: String, value: Json)
    requires
        names_ascend(old(entries)@),
        forall|i: int| 0 <= i < old(entries)@.len() ==> is_sorted((#[trigger] old(entries)@[i]).1),
        is_sorted(value),
    ensures
        names_ascend(final(entries)@),
        forall|i: int|
            0 <= i < final(entries)@.len() ==> is_sorted((#[trigger] final(entries)@[i]).1),
        entries_map(final(entries)@) == entries_map(old(entries)@).insert(name@, value@),
{
    let ghost before = entries@;
    let mut at: usize = 0;
    while at < entries.len() && !in_order(name.as_str(), entries[at].0.as_str())
        invariant
            at <= entries@.len(),
            entries@ == before,
            forall|i: int|
                0 <= i < at ==> !lex_le(name@, (#[trigger] entries@[i]).0@),
        decreases entries.len() - at,
    {
        at = at + 1;
    }
    let same = at < entries.len() && same_text(name.as_str(), entries[at].0.as_str());
    proof {
        assert forall|i: int| 0 <= i < at implies lex_le((#[trigger] before[i]).0@, name@)
            && before[i].0@ != name@ by {
            lemma_lex_total(name@, before[i].0@);
            if before[i].0@ == name@ {
                lemma_lex_total(name@, name@);
            }
        }
        assert forall|i: int| at < i < before.len() implies lex_le(
            name@,
            (#[trigger] before[i]).0@,
        ) && name@ != before[i].0@ by {
            lemma_lex_transitive(name@, before[at as int].0@, before[i].0@);
            if name@ == before[i].0@ {
                lemma_lex_antisymmetric(before[at as int].0@, name@);
            }
        }
    }
    if same {
        proof {
            lemma_is_last_place(before, name@, at as int);
            lemma_update_last(before, at as int, name, value);
        }
        entries[at] = (name, value);
        assert(entries@ =~= before.update(at as int, (name, value)));
    } else {
        proof {
            lemma_insert_new(before, at as int, name, value);
        }
        entries.insert(at, (name, value));
        assert(entries@ =~= before.insert(at as int, (name, value)));
        proof {
            assert forall|i: int, j: int|
                #![trigger entries@[i], entries@[j]]
                0 <= i < j < entries@.len() implies lex_le(entries@[i].0@, entries@[j].0@)
                && entries@[i].0@ != entries@[j].0@ by {
                let old_i = if i > at {
                    i - 1
                } else {
                    i
                };
                let old_j = if j > at {
                    j - 1
                } else {
                    j
                };
                if i != at {
                    assert(entries@[i] == before[old_i]);
                }
                if j != at {
                    assert(entries@[j] == before[old_j]);
                }
            }
            assert forall|i: int| 0 <= i < entries@.len() implies is_sorted(
                (#[trigger] entries@[i]).1,
            ) by {
                if i < at {
                    assert(entries@[i] == before[i]);
                } else if i > at {
                    assert(entries@[i] == before[i - 1]);
                }
            }
        }
    }
}

/// The same value, with the members of every object in it in the order of their names.
pub fn sort_json_value(value: &Json) -> (sorted: Json)
    ensures
        sorted@ == value@,
        is_sorted(sorted),
    decreases value,
{
    match value {
        Json::Object(object) => {
            let mut entries: Vec<(String, Json)> = Vec::new();
            let mut at: usize = 0;
            while at < object.entries.len()
                invariant
                    at <= object.entries@.len(),
                    *value == Json::Object(*object),
                    names_ascend(entries@),
                    forall|i: int|
                        0 <= i < entries@.len() ==> is_sorted((#[trigger] entries@[i]).1),
                    entries_map(entries@) == entries_map(object.entries@.take(at as int)),
                decreases object.entries.len() - at,
            {
                let ghost taken = object.entries@.take(at + 1);
                assert(taken.drop_last() =~= object.entries@.take(at as int));
                assert(decreases_to!(*value => value->Object_0));
                let member = sort_json_value(&object.entries[at].1);
                put_sorted(&mut entries, object.entries[at].0.clone(), member);
                at = at + 1;
            }
            assert(object.entries@.take(object.entries@.len() as int) =~= object.entries@);
            Json::Object(JsonObject { entries })
        },
        Json::Array(items) => {
            let mut sorted: Vec<Json> = Vec::new();
            let mut at: usize = 0;
            while at < items.len()
                invariant
                    at <= items@.len(),
                    *value == Json::Array(*items),
                    sorted@.len() == at,
                    forall|i: int|
                        0 <= i < at ==> (#[trigger] sorted@[i])@ == items@[i]@ && is_sorted(
                            sorted@[i],
                        ),
                decreases items.len() - at,
            {
                assert(decreases_to!(*value => value->Array_0));
                sorted.push(sort_json_value(&items[at]));
                at = at + 1;
            }
            assert(json_view(Json::Array(sorted))->Array_0 =~= value@->Array_0);
            Json::Array(sorted)
        },
        _ => value.duplicate(),
    }
}

impl Clone for JsonObject {
    fn clone(&self) -> (copy: JsonObject)
        ensures
            copy@ == self@,
    {
        self.duplicate()
    }
}

impl Clone for Json {
    fn clone(&self) -> (copy: Json)
        ensures
            copy@ == self@,
    {
        self.duplicate()
    }
}

} // verus!

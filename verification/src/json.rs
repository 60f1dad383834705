//! JSON values as the daemons exchange them.
use vstd::prelude::*;

use crate::sorted_map::{has_key, key_index, lemma_in_order, SortedMap};
use crate::text::optional_str;

verus! {

/// A JSON number: an unsigned or a negative integer, or a floating-point number
/// held by the bits of its IEEE 754 double.
#[derive(Debug, Clone, Copy, PartialEq, Eq)]
pub enum JsonNumber {
    Unsigned(u64),
    Negative(i64),
    FloatBits(u64),
}

/// A JSON value. An object holds its members in order of their keys.
#[derive(Debug, PartialEq)]
pub enum Json {
    Null,
    Bool(bool),
    Number(JsonNumber),
    Text(String),
    Array(Vec<Json>),
    Object(SortedMap<Json>),
}

/// What a JSON value is: texts are character sequences, arrays are sequences and
/// objects are maps.
#[verifier::ext_equal]
pub enum JsonModel {
    Null,
    Bool(bool),
    Number(JsonNumber),
    Text(Seq<char>),
    Array(Seq<JsonModel>),
    Object(Map<Seq<char>, JsonModel>),
}

impl View for Json {
    type V = JsonModel;

    open spec fn view(&self) -> JsonModel
        decreases self,
    {
        match *self {
            Json::Null => JsonModel::Null,
            Json::Bool(b) => JsonModel::Bool(b),
            Json::Number(n) => JsonModel::Number(n),
            Json::Text(text) => JsonModel::Text(text@),
            Json::Array(items) => JsonModel::Array(items_model(items)),
            Json::Object(members) => JsonModel::Object(members_model(members)),
        }
    }
}

/// What the items of an array are.
pub closed spec fn items_model(items: Vec<Json>) -> Seq<JsonModel>
    decreases items,
{
    Seq::new(
        items@.len(),
        |i: int|
            if 0 <= i < items@.len() {
                items@[i].view()
            } else {
                JsonModel::Null
            },
    )
}

/// What the members of an object are.
pub closed spec fn members_model(members: SortedMap<Json>) -> Map<Seq<char>, JsonModel>
    decreases members,
{
    Map::new(
        |key: Seq<char>| has_key(members.in_order(), key),
        |key: Seq<char>|
            {
                let i = key_index(members.in_order(), key);
                if 0 <= i < members.values@.len() {
                    members.values@[i].view()
                } else {
                    JsonModel::Null
                }
            },
    )
}

/// The members of an object as a map of models.
pub open spec fn fields(members: SortedMap<Json>) -> Map<Seq<char>, JsonModel> {
    members@.map_values(|value: Json| value@)
}

/// The items of an array as a sequence of models.
pub open spec fn models(items: Seq<Json>) -> Seq<JsonModel> {
    items.map_values(|value: Json| value@)
}

/// An object is the map of its members.
pub proof fn lemma_members_model(members: SortedMap<Json>)
    ensures
        members_model(members) == fields(members),
{
    lemma_in_order(members);
    assert(members_model(members) =~= fields(members));
}

/// An array is the sequence of its items.
pub proof fn lemma_items_model(items: Vec<Json>)
    ensures
        items_model(items) == models(items@),
{
    assert(items_model(items) =~= models(items@));
}

impl JsonModel {
    /// The member of an object under a key.
    pub open spec fn field(self, key: Seq<char>) -> Option<JsonModel> {
        match self {
            JsonModel::Object(members) => if members.contains_key(key) {
                Some(members[key])
            } else {
                None
            },
            _ => None,
        }
    }

    /// What a JSON text says.
    pub open spec fn text(self) -> Option<Seq<char>> {
        match self {
            JsonModel::Text(text) => Some(text),
            _ => None,
        }
    }

    /// The truth value of a JSON boolean.
    pub open spec fn truth(self) -> Option<bool> {
        match self {
            JsonModel::Bool(b) => Some(b),
            _ => None,
        }
    }

    /// The value of an unsigned JSON integer.
    pub open spec fn unsigned(self) -> Option<u64> {
        match self {
            JsonModel::Number(JsonNumber::Unsigned(n)) => Some(n),
            _ => None,
        }
    }

    /// The items of a JSON array.
    pub open spec fn items(self) -> Option<Seq<JsonModel>> {
        match self {
            JsonModel::Array(items) => Some(items),
            _ => None,
        }
    }

    /// The text of the member under a key.
    pub open spec fn field_text(self, key: Seq<char>) -> Option<Seq<char>> {
        match self.field(key) {
            Some(value) => value.text(),
            None => None,
        }
    }
}

/// What an optional JSON value is.
pub open spec fn optional_json(value: Option<&Json>) -> Option<JsonModel> {
    match value {
        Some(value) => Some(value@),
        None => None,
    }
}

/// Sets a member.
pub fn put(members: &mut SortedMap<Json>, key: &str, value: Json)
    ensures
        fields(*final(members)) == fields(*old(members)).insert(key@, value@),
{
    let _ = members.insert(key.to_owned(), value);
    assert(fields(*members) =~= fields(*old(members)).insert(key@, value@));
}

/// An object without members.
pub fn no_members() -> (members: SortedMap<Json>)
    ensures
        fields(members) == Map::<Seq<char>, JsonModel>::empty(),
{
    let members = SortedMap::new();
    assert(fields(members) =~= Map::<Seq<char>, JsonModel>::empty());
    members
}

impl Json {
    /// A JSON text.
    pub fn from_text(text: &str) -> (r: Json)
        ensures
            r@ == JsonModel::Text(text@),
    {
        Json::Text(text.to_owned())
    }

    /// An unsigned JSON integer.
    pub fn from_unsigned(n: u64) -> (r: Json)
        ensures
            r@ == JsonModel::Number(JsonNumber::Unsigned(n)),
    {
        Json::Number(JsonNumber::Unsigned(n))
    }

    /// A JSON object.
    pub fn from_members(members: SortedMap<Json>) -> (r: Json)
        ensures
            r@ == JsonModel::Object(fields(members)),
    {
        proof {
            lemma_members_model(members);
        }
        Json::Object(members)
    }

    /// A JSON array.
    pub fn from_items(items: Vec<Json>) -> (r: Json)
        ensures
            r@ == JsonModel::Array(models(items@)),
    {
        proof {
            lemma_items_model(items);
        }
        Json::Array(items)
    }

    /// The member of an object under a key, if there is one.
    pub fn get(&self, key: &str) -> (r: Option<&Json>)
        ensures
            optional_json(r) == self@.field(key@),
    {
        match self {
            Json::Object(members) => {
                proof {
                    lemma_members_model(*members);
                }
                members.get(key)
            },
            _ => None,
        }
    }

    /// What a text says.
    pub fn as_text(&self) -> (r: Option<&str>)
        ensures
            optional_str(r) == self@.text(),
    {
        match self {
            Json::Text(text) => Some(text.as_str()),
            _ => None,
        }
    }

    /// The text of the member under a key.
    pub fn get_text(&self, key: &str) -> (r: Option<&str>)
        ensures
            optional_str(r) == self@.field_text(key@),
    {
        match self.get(key) {
            Some(value) => value.as_text(),
            None => None,
        }
    }

    /// The truth value of a boolean.
    pub fn as_bool(&self) -> (r: Option<bool>)
        ensures
            r == self@.truth(),
    {
        match self {
            Json::Bool(b) => Some(*b),
            _ => None,
        }
    }

    /// The value of an unsigned integer.
    pub fn as_unsigned(&self) -> (r: Option<u64>)
        ensures
            r == self@.unsigned(),
    {
        match self {
            Json::Number(JsonNumber::Unsigned(n)) => Some(*n),
            _ => None,
        }
    }

    /// The items of an array.
    pub fn as_items(&self) -> (r: Option<&Vec<Json>>)
        ensures
            match r {
                Some(items) => self@.items() == Some(models(items@)),
                None => self@.items() is None,
            },
    {
        match self {
            Json::Array(items) => {
                proof {
                    lemma_items_model(*items);
                }
                Some(items)
            },
            _ => None,
        }
    }
}

/// A member is read back as it was set, and no other member changes with it. Only objects
/// have members.
pub proof fn members_are_read_back(
    value: JsonModel,
    members: Map<Seq<char>, JsonModel>,
    key: Seq<char>,
    other: Seq<char>,
    set: JsonModel,
)
    ensures
        JsonModel::Object(members.insert(key, set)).field(key) == Some(set),
        other != key ==> JsonModel::Object(members.insert(key, set)).field(other)
            == JsonModel::Object(members).field(other),
        !members.contains_key(key) ==> JsonModel::Object(members).field(key) is None,
        !(value is Object) ==> value.field(key) is None,
{
}

/// Texts, truth values, unsigned integers and arrays are read as what they are, and
/// nothing else is.
pub proof fn values_are_read_as_what_they_are(
    value: JsonModel,
    text: Seq<char>,
    truth: bool,
    n: u64,
    items: Seq<JsonModel>,
    members: Map<Seq<char>, JsonModel>,
    key: Seq<char>,
)
    ensures
        value.text() == Some(text) <==> value == JsonModel::Text(text),
        value.truth() == Some(truth) <==> value == JsonModel::Bool(truth),
        value.unsigned() == Some(n) <==> value == JsonModel::Number(JsonNumber::Unsigned(n)),
        value.items() == Some(items) <==> value == JsonModel::Array(items),
        JsonModel::Object(members.insert(key, JsonModel::Text(text))).field_text(key) == Some(
            text,
        ),
        JsonModel::Object(members.insert(key, JsonModel::Bool(truth))).field_text(key) is None,
{
}

} // verus!

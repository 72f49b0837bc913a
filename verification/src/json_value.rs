//! JSON values in the form in which `serde_json` holds them: reading them from text, writing them
//! as text, and what they hold.

use vstd::prelude::*;

use crate::json::ascending;
use crate::json::entry_views;
use crate::json::json_pretty;
use crate::json::json_text;
use crate::json::json_views;
use crate::json::keys_of;
use crate::json::lemma_array_view;
use crate::json::FloatNumber;
use crate::json::Json;
use crate::json::JsonObject;
use crate::json::JsonView;

verus! {

/// A JSON value as `serde_json` holds it.
#[verifier::external_type_specification]
#[verifier::external_body]
pub struct ExValue(serde_json::Value);

/// What a value of `serde_json` holds: the tree of its items and members.
pub uninterp spec fn value_json(value: serde_json::Value) -> JsonView;

/// What `serde_json::from_str` reads from a text: the value, or the message of its error.
pub uninterp spec fn json_document(text: Seq<char>) -> Result<JsonView, Seq<char>>;

/// Whether a text reads as a JSON value.
pub open spec fn reads_as(text: Seq<char>, json: JsonView) -> bool {
    json_document(text) matches Ok(read) && read == json
}

/// The outermost layer of a value of `serde_json`.
pub(crate) enum Layer {
    Null,
    Bool(bool),
    Unsigned(u64),
    Signed(i64),
    Float(serde_json::Value),
    Text(String),
    Array(Vec<serde_json::Value>),
    Object(Vec<(String, serde_json::Value)>),
}

/// What each value of a list holds.
pub open spec fn value_views(values: Seq<serde_json::Value>) -> Seq<JsonView> {
    values.map_values(|value: serde_json::Value| value_json(value))
}

/// What each member of a list holds.
pub open spec fn member_views(members: Seq<(String, serde_json::Value)>) -> Seq<
    (Seq<char>, JsonView),
> {
    members.map_values(|member: (String, serde_json::Value)| (member.0@, value_json(member.1)))
}

/// What the value with a given outermost layer holds.
pub(crate) open spec fn layer_json(layer: Layer) -> JsonView {
    match layer {
        Layer::Null => JsonView::Null,
        Layer::Bool(b) => JsonView::Bool(b),
        Layer::Unsigned(n) => JsonView::Integer(n as int),
        Layer::Signed(n) => JsonView::Integer(n as int),
        Layer::Float(value) => value_json(value),
        Layer::Text(s) => JsonView::Text(s@),
        Layer::Array(values) => JsonView::Array(value_views(values@)),
        Layer::Object(members) => JsonView::Object(member_views(members@)),
    }
}

/// Whether a layer is one that a value can have: a floating-point number where it says so, and
/// members in ascending order of their keys.
pub(crate) open spec fn layer_is_sound(layer: Layer) -> bool {
    match layer {
        Layer::Float(value) => value_json(value) is Float,
        Layer::Object(members) => ascending(keys_of(member_views(members@))),
        _ => true,
    }
}

/// Whether a value holds no floating-point number and nests at most `depth` arrays and objects.
pub open spec fn is_plain(json: JsonView, depth: nat) -> bool
    decreases json,
{
    match json {
        JsonView::Float(_) => false,
        JsonView::Array(items) => depth > 0 && forall|i: int|
            0 <= i < items.len() ==> is_plain(#[trigger] items[i], (depth - 1) as nat),
        JsonView::Object(members) => depth > 0 && forall|i: int|
            0 <= i < members.len() ==> is_plain((#[trigger] members[i]).1, (depth - 1) as nat),
        _ => true,
    }
}

/// Takes the outermost layer off a value, by the variants of `serde_json::Value` and by
/// `as_u64` and `as_i64` of its numbers. The layer holds what the value holds; a number that is
/// neither of the two integers is a floating-point number; an object hands out its members in
/// ascending order of their keys.
#[verifier::external_body]
fn open_value(value: serde_json::Value) -> (layer: Layer)
    ensures
        layer_json(layer) == value_json(value),
        layer_is_sound(layer),
{
    match value {
        serde_json::Value::Null => Layer::Null,
        serde_json::Value::Bool(b) => Layer::Bool(b),
        serde_json::Value::Number(n) => match (n.as_u64(), n.as_i64()) {
            (Some(u), _) => Layer::Unsigned(u),
            (None, Some(i)) => Layer::Signed(i),
            (None, None) => Layer::Float(serde_json::Value::Number(n)),
        },
        serde_json::Value::String(s) => Layer::Text(s),
        serde_json::Value::Array(items) => Layer::Array(items),
        serde_json::Value::Object(map) => Layer::Object(map.into_iter().collect()),
    }
}

/// Builds the value with a given outermost layer, by the variants of `serde_json::Value` and its
/// conversions from integers. The value holds what the layer holds.
#[verifier::external_body]
fn close_layer(layer: Layer) -> (value: serde_json::Value)
    requires
        layer_is_sound(layer),
    ensures
        value_json(value) == layer_json(layer),
{
    match layer {
        Layer::Null => serde_json::Value::Null,
        Layer::Bool(b) => serde_json::Value::Bool(b),
        Layer::Unsigned(n) => serde_json::Value::from(n),
        Layer::Signed(n) => serde_json::Value::from(n),
        Layer::Float(value) => value,
        Layer::Text(s) => serde_json::Value::String(s),
        Layer::Array(items) => serde_json::Value::Array(items),
        Layer::Object(members) => serde_json::Value::Object(members.into_iter().collect()),
    }
}

/// A copy of a value, by `serde_json::Value`'s `clone`: it holds the same.
#[verifier::external_body]
fn copy_value(value: &serde_json::Value) -> (copy: serde_json::Value)
    ensures
        value_json(copy) == value_json(*value),
{
    value.clone()
}

/// The compact text of a value, by `serde_json::Value`'s `to_string`: no spaces, members in the
/// order of their keys, strings escaped only where JSON demands it.
#[verifier::external_body]
pub(crate) fn value_text(value: &serde_json::Value) -> (text: String)
    ensures
        text@ == json_text(value_json(*value)),
{
    value.to_string()
}

/// The text of a value with each item and member on a line of its own, by
/// `serde_json::to_string_pretty`, which writes every value. Where the value holds no
/// floating-point number and is not nested deeper than the reader goes, `serde_json::from_str`
/// reads the same value back from it.
#[verifier::external_body]
fn value_pretty(value: &serde_json::Value) -> (text: Result<String, serde_json::Error>)
    ensures
        text is Ok,
        text->Ok_0@ == json_pretty(value_json(*value), 0),
        is_plain(value_json(*value), 127) ==> reads_as(text->Ok_0@, value_json(*value)),
{
    serde_json::to_string_pretty(value)
}

/// An error of `serde_json`.
#[verifier::external_type_specification]
#[verifier::external_body]
pub struct ExError(serde_json::Error);

/// Reads a value from text, by `serde_json::from_str`: the value, or the message of the error,
/// each a function of the text alone.
#[verifier::external_body]
fn read_value(text: &str) -> (read: Result<serde_json::Value, String>)
    ensures
        match (read, json_document(text@)) {
            (Ok(value), Ok(json)) => value_json(value) == json,
            (Err(message), Err(expected)) => message@ == expected,
            _ => false,
        },
{
    serde_json::from_str::<serde_json::Value>(text).map_err(|e| e.to_string())
}

proof fn lemma_item_is_smaller(items: Seq<JsonView>, i: int)
    requires
        0 <= i < items.len(),
    ensures
        decreases_to!(JsonView::Array(items) => items[i]),
{
    let array = JsonView::Array(items);
    assert(decreases_to!(array => array->Array_0));
    assert(decreases_to!(items => items[i]));
}

proof fn lemma_member_is_smaller(members: Seq<(Seq<char>, JsonView)>, i: int)
    requires
        0 <= i < members.len(),
    ensures
        decreases_to!(JsonView::Object(members) => members[i].1),
{
    let object = JsonView::Object(members);
    assert(decreases_to!(object => object->Object_0));
    assert(decreases_to!(members => members[i]));
    assert(decreases_to!(members[i] => members[i].1));
}

/// The JSON value that a value of `serde_json` holds.
pub fn from_value(value: serde_json::Value) -> (json: Json)
    ensures
        json@ == value_json(value),
    decreases value_json(value),
{
    match open_value(value) {
        Layer::Null => Json::Null,
        Layer::Bool(b) => Json::Bool(b),
        Layer::Unsigned(n) => Json::Unsigned(n),
        Layer::Signed(n) => Json::Signed(n),
        Layer::Float(number) => Json::Float(FloatNumber::new(number)),
        Layer::Text(s) => Json::Text(s),
        Layer::Array(values) => {
            let ghost all = values@;
            let mut items: Vec<Json> = Vec::new();
            for v in it: values.into_iter()
                invariant
                    it.seq() == all,
                    value_json(value) == JsonView::Array(value_views(all)),
                    json_views(items@) == value_views(all).take(it.index() as int),
            {
                assert(value_views(all)[it.index() as int] == value_json(v));
                proof {
                    lemma_item_is_smaller(value_views(all), it.index() as int);
                }
                let ghost before = items@;
                let item: Json = from_value(v);
                items.push(item);
                assert(json_views(items@) =~= json_views(before).push(value_json(v)));
                assert(json_views(items@) =~= value_views(all).take(it.index() + 1));
            }
            proof {
                lemma_array_view(items);
            }
            assert(value_views(all).take(all.len() as int) =~= value_views(all));
            Json::Array(items)
        },
        Layer::Object(members) => {
            let ghost all = members@;
            let mut entries: Vec<(String, Json)> = Vec::new();
            for member in it: members.into_iter()
                invariant
                    it.seq() == all,
                    value_json(value) == JsonView::Object(member_views(all)),
                    entry_views(entries@) == member_views(all).take(it.index() as int),
            {
                assert(member_views(all)[it.index() as int] == (member.0@, value_json(member.1)));
                proof {
                    lemma_member_is_smaller(member_views(all), it.index() as int);
                }
                let ghost before = entries@;
                let ghost view = (member.0@, value_json(member.1));
                let item: Json = from_value(member.1);
                entries.push((member.0, item));
                assert(entry_views(entries@) =~= entry_views(before).push(view));
                assert(entry_views(entries@) =~= member_views(all).take(it.index() + 1));
            }
            assert(member_views(all).take(all.len() as int) =~= member_views(all));
            Json::Object(JsonObject::from_entries(entries))
        },
    }
}

/// A value of `serde_json` that holds a JSON value.
fn to_value(json: &Json) -> (value: serde_json::Value)
    ensures
        value_json(value) == json@,
    decreases json@,
{
    match json {
        Json::Null => close_layer(Layer::Null),
        Json::Bool(b) => close_layer(Layer::Bool(*b)),
        Json::Unsigned(n) => close_layer(Layer::Unsigned(*n)),
        Json::Signed(n) => close_layer(Layer::Signed(*n)),
        Json::Float(number) => copy_value(number.value()),
        Json::Text(s) => close_layer(Layer::Text(s.clone())),
        Json::Array(items) => {
            proof {
                lemma_array_view(*items);
            }
            let mut values: Vec<serde_json::Value> = Vec::new();
            let mut i: usize = 0;
            while i < items.len()
                invariant
                    i <= items.len(),
                    json@ == JsonView::Array(json_views(items@)),
                    value_views(values@) == json_views(items@).take(i as int),
                decreases items.len() - i,
            {
                proof {
                    lemma_item_is_smaller(json_views(items@), i as int);
                }
                let ghost before = values@;
                values.push(to_value(&items[i]));
                assert(value_views(values@) =~= value_views(before).push(items@[i as int]@));
                assert(value_views(values@) =~= json_views(items@).take(i + 1));
                i = i + 1;
            }
            assert(json_views(items@).take(i as int) =~= json_views(items@));
            close_layer(Layer::Array(values))
        },
        Json::Object(object) => {
            let n: usize = object.len();
            let mut members: Vec<(String, serde_json::Value)> = Vec::new();
            let mut i: usize = 0;
            while i < n
                invariant
                    i <= n,
                    n == object@.len(),
                    json@ == JsonView::Object(object@),
                    member_views(members@) == object@.take(i as int),
                decreases n - i,
            {
                proof {
                    lemma_member_is_smaller(object@, i as int);
                }
                let ghost before = members@;
                members.push((object.key(i).to_owned(), to_value(object.value(i))));
                assert(member_views(members@) =~= member_views(before).push(object@[i as int]));
                assert(member_views(members@) =~= object@.take(i + 1));
                i = i + 1;
            }
            assert(object@.take(i as int) =~= object@);
            close_layer(Layer::Object(members))
        },
    }
}

/// Reads a JSON value from text; the message of the error where the text is not JSON.
pub fn parse_json(text: &str) -> (json: Result<Json, String>)
    ensures
        match (json, json_document(text@)) {
            (Ok(value), Ok(read)) => value@ == read,
            (Err(message), Err(expected)) => message@ == expected,
            _ => false,
        },
{
    match read_value(text) {
        Ok(value) => Ok(from_value(value)),
        Err(message) => Err(message),
    }
}

/// The compact text of a JSON value.
pub fn to_text(json: &Json) -> (text: String)
    ensures
        text@ == json_text(json@),
{
    value_text(&to_value(json))
}

/// The text of a JSON value with each item and member on a line of its own. Where the value holds
/// no floating-point number and nests at most 127 arrays and objects, the text reads as the value.
pub fn to_pretty(json: &Json) -> (text: String)
    ensures
        text@ == json_pretty(json@, 0),
        is_plain(json@, 127) ==> reads_as(text@, json@),
{
    let value: serde_json::Value = to_value(json);
    value_pretty(&value).unwrap()
}

} // verus!

//! What holds of JSON values: their members and their equality.

use vstd::prelude::*;

use crate::json::ascending;
use crate::json::keys_of;
use crate::json::lemma_array_view;
use crate::json::lemma_put_member_ascending;
use crate::json::lookup;
use crate::json::members_of;
use crate::json::object_of;
use crate::json::same_json;
use crate::json::same_member;
use crate::json::Json;
use crate::json::JsonView;
use crate::labels_corpus_check::diff_laws::law_put_then_find;
use crate::labels_corpus_check::diff_laws::lemma_find_member_at;
use crate::labels_corpus_check::diff_laws::lemma_find_member_some;
use crate::labels_corpus_check::diff_laws::lemma_same_reflexive;
use crate::order::text_before;

verus! {

/// Whether a value holds no floating-point number at any depth.
pub open spec fn has_no_float(json: JsonView) -> bool
    decreases json,
{
    match json {
        JsonView::Float(_) => false,
        JsonView::Array(items) => forall|i: int|
            0 <= i < items.len() ==> has_no_float(#[trigger] items[i]),
        JsonView::Object(members) => forall|i: int|
            0 <= i < members.len() ==> has_no_float((#[trigger] members[i]).1),
        _ => true,
    }
}

/// Values without floating-point numbers are equal exactly if they hold the same.
pub proof fn law_equal_values_hold_the_same(a: JsonView, b: JsonView)
    requires
        has_no_float(a),
    ensures
        same_json(a, b) <==> a == b,
    decreases a,
{
    if a == b {
        lemma_same_reflexive(a);
    }
    if same_json(a, b) {
        match (a, b) {
            (JsonView::Array(x), JsonView::Array(y)) => {
                assert forall|i: int| 0 <= i < x.len() implies x[i] == y[i] by {
                    assert(same_json(x[i], y[i]));
                    assert(has_no_float(x[i]));
                    law_equal_values_hold_the_same(x[i], y[i]);
                }
                assert(x =~= y);
            },
            (JsonView::Object(x), JsonView::Object(y)) => {
                assert forall|i: int| 0 <= i < x.len() implies x[i] == y[i] by {
                    assert(x[i].0 == y[i].0 && same_json(x[i].1, y[i].1));
                    assert(has_no_float(x[i].1));
                    law_equal_values_hold_the_same(x[i].1, y[i].1);
                }
                assert(x =~= y);
            },
            _ => {},
        }
    }
}

/// Floating-point numbers are equal exactly if they are written the same or both are zero, and
/// equal nothing else. Arrays are equal item by item, and objects member by member.
pub proof fn law_equality_goes_part_by_part(a: JsonView, b: JsonView)
    ensures
        a matches JsonView::Float(x) ==> (same_json(a, b) <==> (b matches JsonView::Float(y) && (x
            == y || ((x == "0.0"@ || x == "-0.0"@) && (y == "0.0"@ || y == "-0.0"@))))),
        a matches JsonView::Array(x) ==> (same_json(a, b) <==> (b matches JsonView::Array(y)
            && x.len() == y.len() && forall|i: int|
            0 <= i < x.len() ==> same_json(#[trigger] x[i], y[i]))),
        a matches JsonView::Object(x) ==> (same_json(a, b) <==> (b matches JsonView::Object(y)
            && x.len() == y.len() && forall|i: int|
            0 <= i < x.len() ==> (#[trigger] x[i]).0 == y[i].0 && same_json(x[i].1, y[i].1))),
{
}

/// In an object, each key finds the value that stands with it, and no other key finds anything.
pub proof fn law_keys_find_their_values(members: Seq<(Seq<char>, JsonView)>, key: Seq<char>)
    requires
        ascending(keys_of(members)),
    ensures
        forall|i: int|
            0 <= i < members.len() ==> lookup(
                JsonView::Object(members),
                (#[trigger] members[i]).0,
            ) == Some(members[i].1),
        lookup(JsonView::Object(members), key) is Some <==> exists|i: int|
            0 <= i < members.len() && (#[trigger] members[i]).0 == key,
{
    assert forall|i: int| 0 <= i < members.len() implies lookup(
        JsonView::Object(members),
        (#[trigger] members[i]).0,
    ) == Some(members[i].1) by {
        lemma_find_member_at(members, i);
    }
    lemma_find_member_some(members, key);
    if keys_of(members).contains(key) {
        let i = choose|i: int| 0 <= i < keys_of(members).len() && keys_of(members)[i] == key;
        assert(members[i].0 == key);
    }
    if exists|i: int| 0 <= i < members.len() && (#[trigger] members[i]).0 == key {
        let i = choose|i: int| 0 <= i < members.len() && (#[trigger] members[i]).0 == key;
        assert(keys_of(members)[i] == key);
    }
}

/// Only objects have members.
pub proof fn law_only_objects_have_members(json: JsonView, key: Seq<char>)
    ensures
        !(json is Object) ==> lookup(json, key) is None,
{
}

/// In an object that is built from a list, a key finds the last value that the list gives to it, and
/// nothing where the list does not have the key.
pub proof fn law_built_objects_hold_the_last_value(
    list: Seq<(Seq<char>, JsonView)>,
    key: Seq<char>,
    i: int,
)
    requires
        0 <= i <= list.len(),
        i < list.len() ==> list[i].0 == key,
        forall|j: int| i < j < list.len() ==> (#[trigger] list[j]).0 != key,
        i == list.len() ==> forall|j: int| 0 <= j < list.len() ==> (#[trigger] list[j]).0 != key,
    ensures
        i < list.len() ==> lookup(object_of(list), key) == Some(list[i].1),
        i == list.len() ==> lookup(object_of(list), key) is None,
    decreases list.len(),
{
    if list.len() > 0 {
        let front = list.drop_last();
        let last = list.last();
        assert(last == list[list.len() - 1]);
        law_put_then_find(members_of(front), last.0, last.1, key);
        if i < list.len() - 1 {
            assert forall|j: int| i < j < front.len() implies (#[trigger] front[j]).0 != key by {
                assert(front[j] == list[j]);
            }
            law_built_objects_hold_the_last_value(front, key, i);
        } else if i == list.len() {
            assert forall|j: int| 0 <= j < front.len() implies (#[trigger] front[j]).0 != key by {
                assert(front[j] == list[j]);
            }
            law_built_objects_hold_the_last_value(front, key, front.len() as int);
        }
    }
}

/// Where no key comes twice in a list, the object that is built from it finds every value of the
/// list under its key, and nothing under any other key.
pub proof fn law_built_objects_hold_the_list(list: Seq<(Seq<char>, JsonView)>)
    requires
        forall|i: int, j: int|
            0 <= i < j < list.len() ==> (#[trigger] list[i]).0 != (#[trigger] list[j]).0,
    ensures
        forall|i: int|
            0 <= i < list.len() ==> lookup(object_of(list), (#[trigger] list[i]).0) == Some(
                list[i].1,
            ),
        forall|key: Seq<char>| #[trigger]
            lookup(object_of(list), key) is Some ==> exists|i: int|
                0 <= i < list.len() && (#[trigger] list[i]).0 == key,
{
    assert forall|i: int| 0 <= i < list.len() implies lookup(
        object_of(list),
        (#[trigger] list[i]).0,
    ) == Some(list[i].1) by {
        law_built_objects_hold_the_last_value(list, list[i].0, i);
    }
    assert forall|key: Seq<char>| #[trigger] lookup(object_of(list), key) is Some implies exists|
        i: int,
    | 0 <= i < list.len() && (#[trigger] list[i]).0 == key by {
        if forall|i: int| 0 <= i < list.len() ==> (#[trigger] list[i]).0 != key {
            law_built_objects_hold_the_last_value(list, key, list.len() as int);
        }
    }
}

/// Values that may be missing are equal exactly if both are missing or both are there and equal.
pub proof fn law_missing_equals_missing_only(a: Option<JsonView>, b: Option<JsonView>)
    ensures
        same_member(a, b) <==> (a is None && b is None) || (a is Some && b is Some && same_json(
            a->Some_0,
            b->Some_0,
        )),
{
}

/// A value shows what it holds: an integer by its value whatever its sign, a text by its characters,
/// and an array by its items in their places.
pub proof fn law_values_show_what_they_hold(json: Json)
    ensures
        json is Null ==> json@ is Null,
        json matches Json::Bool(b) ==> json@ == JsonView::Bool(b),
        json matches Json::Unsigned(n) ==> json@ == JsonView::Integer(n as int),
        json matches Json::Signed(n) ==> json@ == JsonView::Integer(n as int),
        json matches Json::Text(s) ==> json@ == JsonView::Text(s@),
        json matches Json::Array(items) ==> (json@ matches JsonView::Array(views) && views.len()
            == items@.len() && forall|i: int|
            0 <= i < items@.len() ==> views[i] == (#[trigger] items@[i])@),
        json matches Json::Object(object) ==> json@ == JsonView::Object(object@),
{
    if let Json::Array(items) = json {
        lemma_array_view(items);
    }
}

/// An object that is built from a list has its members in ascending order of their keys.
pub proof fn law_built_objects_are_ascending(list: Seq<(Seq<char>, JsonView)>)
    ensures
        object_of(list) matches JsonView::Object(members) && forall|i: int, j: int|
            0 <= i < j < members.len() ==> text_before(
                (#[trigger] members[i]).0,
                (#[trigger] members[j]).0,
            ),
{
    lemma_members_are_ascending(list);
    let members = members_of(list);
    let keys = keys_of(members);
    assert forall|i: int, j: int| 0 <= i < j < members.len() implies text_before(
        (#[trigger] members[i]).0,
        (#[trigger] members[j]).0,
    ) by {
        assert(keys[i] == members[i].0 && keys[j] == members[j].0);
    }
}

proof fn lemma_members_are_ascending(list: Seq<(Seq<char>, JsonView)>)
    ensures
        ascending(keys_of(members_of(list))),
    decreases list.len(),
{
    if list.len() > 0 {
        lemma_members_are_ascending(list.drop_last());
        lemma_put_member_ascending(members_of(list.drop_last()), list.last().0, list.last().1);
    }
}

} // verus!

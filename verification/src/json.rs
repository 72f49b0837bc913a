//! JSON values: what they hold, when two are equal, and how they read as text.

use vstd::prelude::*;

use crate::json_value::value_json;
use crate::json_value::value_text;
use crate::order::codes;
use crate::order::codes_order;
use crate::order::lemma_text_order;
use crate::order::lemma_text_transitive;
use crate::order::rank_texts;
use crate::order::text_before;
use crate::order::Rank;
use crate::text::hex_char;
use crate::text::same_text;
use crate::text::signed_decimal;
use crate::text::texts;

verus! {

/// What a JSON value holds. A floating-point number is held as its shortest decimal text, an
/// object as its members in ascending order of their keys.
pub enum JsonView {
    Null,
    Bool(bool),
    Integer(int),
    Float(Seq<char>),
    Text(Seq<char>),
    Array(Seq<JsonView>),
    Object(Seq<(Seq<char>, JsonView)>),
}

/// A JSON value.
pub enum Json {
    Null,
    Bool(bool),
    Unsigned(u64),
    Signed(i64),
    Float(FloatNumber),
    Text(String),
    Array(Vec<Json>),
    Object(JsonObject),
}

/// The members of a JSON object, in ascending order of their keys, each key once.
pub struct JsonObject {
    entries: Vec<(String, Json)>,
}

/// A floating-point number, kept as it was read.
pub struct FloatNumber {
    value: serde_json::Value,
}

/// What a JSON value holds.
pub open spec fn json_view(json: Json) -> JsonView
    decreases json,
{
    match json {
        Json::Null => JsonView::Null,
        Json::Bool(b) => JsonView::Bool(b),
        Json::Unsigned(n) => JsonView::Integer(n as int),
        Json::Signed(n) => JsonView::Integer(n as int),
        Json::Float(f) => JsonView::Float(f.text()),
        Json::Text(s) => JsonView::Text(s@),
        Json::Array(items) => JsonView::Array(
            Seq::new(
                items@.len(),
                |i: int|
                    if 0 <= i < items@.len() {
                        json_view(items@[i])
                    } else {
                        JsonView::Null
                    },
            ),
        ),
        Json::Object(object) => JsonView::Object(object_view(object)),
    }
}

/// The members of an object.
pub closed spec fn object_view(object: JsonObject) -> Seq<(Seq<char>, JsonView)>
    decreases object,
{
    Seq::new(
        object.entries@.len(),
        |i: int|
            if 0 <= i < object.entries@.len() {
                (object.entries@[i].0@, json_view(object.entries@[i].1))
            } else {
                (Seq::empty(), JsonView::Null)
            },
    )
}

impl View for Json {
    type V = JsonView;

    open spec fn view(&self) -> JsonView {
        json_view(*self)
    }
}

impl View for JsonObject {
    type V = Seq<(Seq<char>, JsonView)>;

    open spec fn view(&self) -> Seq<(Seq<char>, JsonView)> {
        object_view(*self)
    }
}

/// What each value of a list holds.
pub open spec fn json_views(items: Seq<Json>) -> Seq<JsonView> {
    items.map_values(|item: Json| item@)
}

/// What each member of a list holds.
pub open spec fn entry_views(entries: Seq<(String, Json)>) -> Seq<(Seq<char>, JsonView)> {
    entries.map_values(|entry: (String, Json)| (entry.0@, entry.1@))
}

/// The keys of an object's members.
pub open spec fn keys_of(members: Seq<(Seq<char>, JsonView)>) -> Seq<Seq<char>> {
    members.map_values(|member: (Seq<char>, JsonView)| member.0)
}

/// Whether texts stand in ascending order, each once.
pub open spec fn ascending(keys: Seq<Seq<char>>) -> bool {
    forall|i: int, j: int| 0 <= i < j < keys.len() ==> text_before(#[trigger] keys[i], #[trigger] keys[j])
}

/// The value of the member with a key.
pub open spec fn find_member(members: Seq<(Seq<char>, JsonView)>, key: Seq<char>) -> Option<
    JsonView,
>
    decreases members.len(),
{
    if members.len() == 0 {
        None
    } else if members.last().0 == key {
        Some(members.last().1)
    } else {
        find_member(members.drop_last(), key)
    }
}

/// The value of the member with a key, where the value is an object that has one.
pub open spec fn lookup(json: JsonView, key: Seq<char>) -> Option<JsonView> {
    match json {
        JsonView::Object(members) => find_member(members, key),
        _ => None,
    }
}

/// An object's members with one more, or with the value of the member of that key replaced.
pub open spec fn put_member(
    members: Seq<(Seq<char>, JsonView)>,
    key: Seq<char>,
    value: JsonView,
) -> Seq<(Seq<char>, JsonView)>
    decreases members.len(),
{
    if members.len() == 0 || text_before(members.last().0, key) {
        members.push((key, value))
    } else if members.last().0 == key {
        members.drop_last().push((key, value))
    } else {
        put_member(members.drop_last(), key, value).push(members.last())
    }
}

/// The members of the object into which a list of members is put one after the other.
pub open spec fn members_of(list: Seq<(Seq<char>, JsonView)>) -> Seq<(Seq<char>, JsonView)>
    decreases list.len(),
{
    if list.len() == 0 {
        Seq::empty()
    } else {
        put_member(members_of(list.drop_last()), list.last().0, list.last().1)
    }
}

/// The object into which a list of members is put one after the other.
pub open spec fn object_of(list: Seq<(Seq<char>, JsonView)>) -> JsonView {
    JsonView::Object(members_of(list))
}

/// Whether the text of a floating-point number is that of zero, of either sign.
pub open spec fn is_zero_text(text: Seq<char>) -> bool {
    text == "0.0"@ || text == "-0.0"@
}

/// Whether two JSON values are equal: the same kind with the same contents, where the two
/// floating-point zeros count as the same and an integer never equals a floating-point number.
/// Floating-point numbers are told apart by their texts, since `serde_json` writes different finite
/// numbers as different texts.
pub open spec fn same_json(a: JsonView, b: JsonView) -> bool
    decreases a,
{
    match (a, b) {
        (JsonView::Float(x), JsonView::Float(y)) => x == y || (is_zero_text(x) && is_zero_text(y)),
        (JsonView::Array(x), JsonView::Array(y)) => x.len() == y.len() && forall|i: int|
            0 <= i < x.len() ==> same_json(#[trigger] x[i], y[i]),
        (JsonView::Object(x), JsonView::Object(y)) => x.len() == y.len() && forall|i: int|
            0 <= i < x.len() ==> (#[trigger] x[i]).0 == y[i].0 && same_json(x[i].1, y[i].1),
        _ => a == b,
    }
}

/// Whether two values that may be missing are both missing or equal.
pub open spec fn same_member(a: Option<JsonView>, b: Option<JsonView>) -> bool {
    match (a, b) {
        (Some(x), Some(y)) => same_json(x, y),
        (None, None) => true,
        _ => false,
    }
}

/// A character as it stands inside a JSON string.
pub open spec fn escaped_char(c: char) -> Seq<char> {
    if c == '"' {
        seq!['\\', '"']
    } else if c == '\\' {
        seq!['\\', '\\']
    } else if c as int == 8 {
        seq!['\\', 'b']
    } else if c as int == 9 {
        seq!['\\', 't']
    } else if c as int == 10 {
        seq!['\\', 'n']
    } else if c as int == 12 {
        seq!['\\', 'f']
    } else if c as int == 13 {
        seq!['\\', 'r']
    } else if (c as int) < 32 {
        seq!['\\', 'u', '0', '0', hex_char(c as int / 16), hex_char(c as int % 16)]
    } else {
        seq![c]
    }
}

/// A text as it stands inside a JSON string.
pub open spec fn escaped(s: Seq<char>) -> Seq<char>
    decreases s.len(),
{
    if s.len() == 0 {
        Seq::empty()
    } else {
        escaped(s.drop_last()) + escaped_char(s.last())
    }
}

/// A text as a JSON string.
pub open spec fn quoted(s: Seq<char>) -> Seq<char> {
    seq!['"'] + escaped(s) + seq!['"']
}

/// A JSON value as text without spaces.
pub open spec fn json_text(json: JsonView) -> Seq<char>
    decreases json, 0nat,
{
    match json {
        JsonView::Null => seq!['n', 'u', 'l', 'l'],
        JsonView::Bool(true) => seq!['t', 'r', 'u', 'e'],
        JsonView::Bool(false) => seq!['f', 'a', 'l', 's', 'e'],
        JsonView::Integer(n) => signed_decimal(n),
        JsonView::Float(text) => text,
        JsonView::Text(s) => quoted(s),
        JsonView::Array(items) => seq!['['] + items_text(items) + seq![']'],
        JsonView::Object(members) => seq!['{'] + members_text(members) + seq!['}'],
    }
}

/// The texts of values, with commas between them.
pub open spec fn items_text(items: Seq<JsonView>) -> Seq<char>
    decreases items, items.len(),
{
    if items.len() == 0 {
        Seq::empty()
    } else if items.len() == 1 {
        json_text(items[0])
    } else {
        items_text(items.drop_last()) + seq![','] + json_text(items.last())
    }
}

/// The texts of members, with commas between them.
pub open spec fn members_text(members: Seq<(Seq<char>, JsonView)>) -> Seq<char>
    decreases members, members.len(),
{
    if members.len() == 0 {
        Seq::empty()
    } else if members.len() == 1 {
        quoted(members[0].0) + seq![':'] + json_text(members[0].1)
    } else {
        members_text(members.drop_last()) + seq![','] + quoted(members.last().0) + seq![':']
            + json_text(members.last().1)
    }
}

/// A line break and two spaces for each level of nesting.
pub open spec fn new_line(depth: nat) -> Seq<char> {
    seq!['\n'] + Seq::new(2 * depth, |i: int| ' ')
}

/// A JSON value as text with each item and member on a line of its own, inside `depth` values.
pub open spec fn json_pretty(json: JsonView, depth: nat) -> Seq<char>
    decreases json, 0nat,
{
    match json {
        JsonView::Array(items) => if items.len() == 0 {
            seq!['[', ']']
        } else {
            seq!['['] + pretty_items(items, depth + 1) + new_line(depth) + seq![']']
        },
        JsonView::Object(members) => if members.len() == 0 {
            seq!['{', '}']
        } else {
            seq!['{'] + pretty_members(members, depth + 1) + new_line(depth) + seq!['}']
        },
        _ => json_text(json),
    }
}

/// The lines of the items of an array.
pub open spec fn pretty_items(items: Seq<JsonView>, depth: nat) -> Seq<char>
    decreases items, items.len(),
{
    if items.len() == 0 {
        Seq::empty()
    } else {
        let before = pretty_items(items.drop_last(), depth) + if items.len() > 1 {
            seq![',']
        } else {
            Seq::empty()
        };
        before + new_line(depth) + json_pretty(items.last(), depth)
    }
}

/// The lines of the members of an object.
pub open spec fn pretty_members(members: Seq<(Seq<char>, JsonView)>, depth: nat) -> Seq<char>
    decreases members, members.len(),
{
    if members.len() == 0 {
        Seq::empty()
    } else {
        let before = pretty_members(members.drop_last(), depth) + if members.len() > 1 {
            seq![',']
        } else {
            Seq::empty()
        };
        before + new_line(depth) + quoted(members.last().0) + seq![':', ' '] + json_pretty(
            members.last().1,
            depth,
        )
    }
}

impl FloatNumber {
    #[verifier::type_invariant]
    spec fn is_float(self) -> bool {
        value_json(self.value) is Float
    }

    /// The decimal text of the number.
    pub closed spec fn text(self) -> Seq<char> {
        value_json(self.value)->Float_0
    }

    /// Keeps a floating-point number.
    pub(crate) fn new(value: serde_json::Value) -> (number: FloatNumber)
        requires
            value_json(value) is Float,
        ensures
            JsonView::Float(number.text()) == value_json(value),
    {
        FloatNumber { value }
    }

    /// The number as it was read.
    pub(crate) fn value(&self) -> (value: &serde_json::Value)
        ensures
            value_json(*value) == JsonView::Float(self.text()),
    {
        proof {
            use_type_invariant(self);
        }
        &self.value
    }
}

proof fn lemma_put_member_keys(
    members: Seq<(Seq<char>, JsonView)>,
    key: Seq<char>,
    value: JsonView,
)
    ensures
        forall|i: int|
            0 <= i < put_member(members, key, value).len() ==> (#[trigger] put_member(
                members,
                key,
                value,
            )[i]).0 == key || keys_of(members).contains(put_member(members, key, value)[i].0),
    decreases members.len(),
{
    let result = put_member(members, key, value);
    let keys = keys_of(members);
    if members.len() == 0 || text_before(members.last().0, key) {
        assert forall|i: int| 0 <= i < result.len() implies (#[trigger] result[i]).0 == key
            || keys.contains(result[i].0) by {
            if i < members.len() {
                assert(keys[i] == result[i].0);
            }
        }
    } else if members.last().0 == key {
        assert forall|i: int| 0 <= i < result.len() implies (#[trigger] result[i]).0 == key
            || keys.contains(result[i].0) by {
            if i < members.len() - 1 {
                assert(keys[i] == result[i].0);
            }
        }
    } else {
        let front = members.drop_last();
        lemma_put_member_keys(front, key, value);
        let placed = put_member(front, key, value);
        assert forall|i: int| 0 <= i < result.len() implies (#[trigger] result[i]).0 == key
            || keys.contains(result[i].0) by {
            if i < placed.len() {
                assert(placed[i] == result[i]);
                if placed[i].0 != key {
                    assert(keys_of(front).contains(placed[i].0));
                    let k = choose|k: int| 0 <= k < keys_of(front).len() && keys_of(front)[k] == placed[i].0;
                    assert(keys[k] == placed[i].0);
                }
            } else {
                assert(keys[members.len() - 1] == result[i].0);
            }
        }
    }
}

/// Putting a member into an object keeps its keys in ascending order.
pub proof fn lemma_put_member_ascending(
    members: Seq<(Seq<char>, JsonView)>,
    key: Seq<char>,
    value: JsonView,
)
    requires
        ascending(keys_of(members)),
    ensures
        ascending(keys_of(put_member(members, key, value))),
    decreases members.len(),
{
    let result = put_member(members, key, value);
    let keys = keys_of(members);
    let new_keys = keys_of(result);
    if members.len() == 0 || text_before(members.last().0, key) {
        assert forall|i: int, j: int| 0 <= i < j < new_keys.len() implies text_before(
            #[trigger] new_keys[i],
            #[trigger] new_keys[j],
        ) by {
            assert(new_keys[i] == keys[i]);
            if j < members.len() {
                assert(new_keys[j] == keys[j]);
            } else {
                assert(new_keys[j] == key);
                if i < members.len() - 1 {
                    assert(text_before(keys[i], keys[members.len() - 1]));
                    lemma_text_transitive(keys[i], members.last().0, key);
                }
            }
        }
    } else if members.last().0 == key {
        assert(new_keys =~= keys);
    } else {
        let front = members.drop_last();
        assert forall|i: int, j: int| 0 <= i < j < keys_of(front).len() implies text_before(
            #[trigger] keys_of(front)[i],
            #[trigger] keys_of(front)[j],
        ) by {
            assert(text_before(keys[i], keys[j]));
        }
        lemma_put_member_ascending(front, key, value);
        lemma_put_member_keys(front, key, value);
        lemma_text_order(members.last().0, key);
        let placed = put_member(front, key, value);
        assert forall|i: int, j: int| 0 <= i < j < new_keys.len() implies text_before(
            #[trigger] new_keys[i],
            #[trigger] new_keys[j],
        ) by {
            assert(new_keys[i] == placed[i].0);
            if j < placed.len() {
                assert(keys_of(placed)[i] == placed[i].0 && keys_of(placed)[j] == placed[j].0);
                assert(new_keys[j] == placed[j].0);
            } else {
                assert(new_keys[j] == members.last().0);
                if placed[i].0 != key {
                    let k = choose|k: int| 0 <= k < keys_of(front).len() && keys_of(front)[k] == placed[i].0;
                    assert(keys[k] == placed[i].0);
                    assert(text_before(keys[k], keys[members.len() - 1]));
                }
            }
        }
    }
}

/// An array holds what its items hold.
pub proof fn lemma_array_view(items: Vec<Json>)
    ensures
        Json::Array(items)@ == JsonView::Array(json_views(items@)),
{
    assert(Json::Array(items)@->Array_0 =~= json_views(items@));
}

impl JsonObject {
    #[verifier::type_invariant]
    spec fn is_sorted(self) -> bool {
        ascending(keys_of(object_view(self)))
    }

    /// An object without members.
    pub fn new() -> (object: JsonObject)
        ensures
            object@ == Seq::<(Seq<char>, JsonView)>::empty(),
    {
        let object = JsonObject { entries: Vec::new() };
        assert(object@ =~= Seq::<(Seq<char>, JsonView)>::empty());
        object
    }

    /// The object with the given members.
    pub(crate) fn from_entries(entries: Vec<(String, Json)>) -> (object: JsonObject)
        requires
            ascending(keys_of(entry_views(entries@))),
        ensures
            object@ == entry_views(entries@),
    {
        assert(object_view(JsonObject { entries }) =~= entry_views(entries@));
        JsonObject { entries }
    }

    /// The number of members.
    pub fn len(&self) -> (n: usize)
        ensures
            n == self@.len(),
            ascending(keys_of(self@)),
    {
        proof {
            use_type_invariant(self);
        }
        self.entries.len()
    }

    /// The key of a member.
    pub fn key(&self, i: usize) -> (key: &str)
        requires
            i < self@.len(),
        ensures
            key@ == self@[i as int].0,
    {
        self.entries[i].0.as_str()
    }

    /// The value of a member.
    pub fn value(&self, i: usize) -> (value: &Json)
        requires
            i < self@.len(),
        ensures
            value@ == self@[i as int].1,
    {
        &self.entries[i].1
    }

    /// Puts a member into the object, in place of the one with the same key where there is one.
    pub fn with(self, key: &str, value: Json) -> (object: JsonObject)
        ensures
            object@ == put_member(self@, key@, value@),
    {
        proof {
            use_type_invariant(&self);
            lemma_put_member_ascending(self@, key@, value@);
        }
        let ghost members = self@;
        let mut entries: Vec<(String, Json)> = self.entries;
        let mut at: usize = entries.len();
        assert(members.take(at as int) =~= members);
        assert(put_member(members, key@, value@) =~= put_member(
            members.take(at as int),
            key@,
            value@,
        ) + members.skip(at as int));
        while at > 0 && rank_texts(entries[at - 1].0.as_str(), key) == Rank::Greater
            invariant
                at <= entries.len(),
                members == object_view(JsonObject { entries }),
                put_member(members, key@, value@) == put_member(
                    members.take(at as int),
                    key@,
                    value@,
                ) + members.skip(at as int),
            decreases at,
        {
            assert(members.take(at as int).last() == members[at - 1]);
            assert(members.take(at as int).drop_last() =~= members.take(at - 1));
            assert(codes_order(codes(members[at - 1].0), codes(key@)) == Rank::Greater);
            proof {
                lemma_text_order(members[at - 1].0, key@);
            }
            assert(members[at - 1].0 != key@) by {
                crate::order::lemma_codes_equal(codes(key@), codes(key@));
            }
            assert(put_member(members.take(at as int), key@, value@) + members.skip(at as int)
                =~= put_member(members.take(at - 1), key@, value@) + members.skip(at - 1));
            at = at - 1;
        }
        if at > 0 && same_text(entries[at - 1].0.as_str(), key) {
            assert(members.take(at as int).last() == members[at - 1]);
            proof {
                lemma_text_order(key@, key@);
            }
            entries.set(at - 1, (key.to_owned(), value));
            assert(object_view(JsonObject { entries }) =~= put_member(members, key@, value@));
        } else {
            proof {
                if at > 0 {
                    assert(members.take(at as int).last() == members[at - 1]);
                    crate::order::lemma_codes_equal(codes(members[at - 1].0), codes(key@));
                    crate::order::lemma_codes_of_text(members[at - 1].0, key@);
                }
            }
            entries.insert(at, (key.to_owned(), value));
            assert(object_view(JsonObject { entries }) =~= put_member(members, key@, value@));
        }
        JsonObject { entries }
    }

    /// The value of the member with a key.
    pub fn get(&self, key: &str) -> (value: Option<&Json>)
        ensures
            value is Some <==> find_member(self@, key@) is Some,
            value matches Some(v) ==> find_member(self@, key@) == Some(v@),
    {
        let mut at: usize = self.entries.len();
        assert(self@.take(at as int) =~= self@);
        while at > 0
            invariant
                at <= self.entries.len(),
                find_member(self@, key@) == find_member(self@.take(at as int), key@),
            decreases at,
        {
            assert(self@.take(at as int).last() == self@[at - 1]);
            assert(self@.take(at as int).drop_last() =~= self@.take(at - 1));
            if same_text(self.entries[at - 1].0.as_str(), key) {
                return Some(&self.entries[at - 1].1);
            }
            at = at - 1;
        }
        None
    }

    fn same(&self, other: &JsonObject) -> (same: bool)
        ensures
            same == same_json(JsonView::Object(self@), JsonView::Object(other@)),
        decreases self,
    {
        if self.entries.len() != other.entries.len() {
            return false;
        }
        let mut i: usize = 0;
        while i < self.entries.len()
            invariant
                i <= self.entries.len(),
                self.entries.len() == other.entries.len(),
                forall|k: int|
                    0 <= k < i ==> (#[trigger] self@[k]).0 == other@[k].0 && same_json(
                        self@[k].1,
                        other@[k].1,
                    ),
            decreases self.entries.len() - i,
        {
            if !same_text(self.entries[i].0.as_str(), other.entries[i].0.as_str())
                || !self.entries[i].1.same(&other.entries[i].1) {
                assert(self@[i as int].0 != other@[i as int].0 || !same_json(
                    self@[i as int].1,
                    other@[i as int].1,
                ));
                return false;
            }
            i = i + 1;
        }
        true
    }
}

/// What each member of a list holds.
pub open spec fn named_views(members: Seq<(&str, Json)>) -> Seq<(Seq<char>, JsonView)> {
    members.map_values(|member: (&str, Json)| (member.0@, member.1@))
}

/// The object into which a list of members is put one after the other.
pub fn object_from(members: Vec<(&str, Json)>) -> (json: Json)
    ensures
        json@ == object_of(named_views(members@)),
{
    let ghost all = members@;
    let ghost list = named_views(all);
    let mut object: JsonObject = JsonObject::new();
    assert(members_of(list.take(0)) =~= object@);
    for member in it: members.into_iter()
        invariant
            it.seq() == all,
            list == named_views(all),
            object@ == members_of(list.take(it.index() as int)),
    {
        assert(list.take(it.index() + 1).drop_last() =~= list.take(it.index() as int));
        assert(list.take(it.index() + 1).last() == list[it.index() as int]);
        object = object.with(member.0, member.1);
    }
    assert(list.take(list.len() as int) =~= list);
    Json::Object(object)
}

/// A list of texts as a JSON array.
pub open spec fn texts_json(list: Seq<Seq<char>>) -> JsonView {
    JsonView::Array(list.map_values(|text: Seq<char>| JsonView::Text(text)))
}

/// A list of texts as a JSON array.
pub fn json_texts(list: &Vec<String>) -> (json: Json)
    ensures
        json@ == texts_json(texts(list@)),
{
    let mut items: Vec<Json> = Vec::new();
    let mut i: usize = 0;
    while i < list.len()
        invariant
            i <= list.len(),
            items@.len() == i,
            forall|k: int| 0 <= k < i ==> (#[trigger] items@[k])@ == JsonView::Text(list@[k]@),
        decreases list.len() - i,
    {
        items.push(Json::Text(list[i].clone()));
        i = i + 1;
    }
    proof {
        lemma_array_view(items);
        assert(json_views(items@) =~= texts(list@).map_values(
            |text: Seq<char>| JsonView::Text(text),
        ));
    }
    Json::Array(items)
}

/// A text that may be missing as a JSON value.
pub open spec fn optional_json(text: Option<String>) -> JsonView {
    match text {
        Some(s) => JsonView::Text(s@),
        None => JsonView::Null,
    }
}

/// A text that may be missing as a JSON value.
pub fn json_optional(text: &Option<String>) -> (json: Json)
    ensures
        json@ == optional_json(*text),
{
    match text {
        Some(s) => Json::Text(s.clone()),
        None => Json::Null,
    }
}

impl Json {
    /// The value of the member with a key, where this is an object that has one.
    pub fn get(&self, key: &str) -> (value: Option<&Json>)
        ensures
            value is Some <==> lookup(self@, key@) is Some,
            value matches Some(v) ==> lookup(self@, key@) == Some(v@),
    {
        match self {
            Json::Object(object) => object.get(key),
            _ => None,
        }
    }

    /// Whether two values are equal.
    pub fn same(&self, other: &Json) -> (same: bool)
        ensures
            same == same_json(self@, other@),
        decreases self,
    {
        match (self, other) {
            (Json::Null, Json::Null) => true,
            (Json::Bool(a), Json::Bool(b)) => *a == *b,
            (Json::Unsigned(a), Json::Unsigned(b)) => *a == *b,
            (Json::Signed(a), Json::Signed(b)) => *a == *b,
            (Json::Unsigned(a), Json::Signed(b)) => *b >= 0 && *a == *b as u64,
            (Json::Signed(a), Json::Unsigned(b)) => *a >= 0 && *a as u64 == *b,
            (Json::Float(a), Json::Float(b)) => {
                let x: String = value_text(a.value());
                let y: String = value_text(b.value());
                x == y || ((same_text(x.as_str(), "0.0") || same_text(x.as_str(), "-0.0")) && (
                same_text(y.as_str(), "0.0") || same_text(y.as_str(), "-0.0")))
            },
            (Json::Text(a), Json::Text(b)) => same_text(a.as_str(), b.as_str()),
            (Json::Array(a), Json::Array(b)) => {
                if a.len() != b.len() {
                    return false;
                }
                proof {
                    lemma_array_view(*a);
                    lemma_array_view(*b);
                }
                let mut i: usize = 0;
                while i < a.len()
                    invariant
                        i <= a.len(),
                        a.len() == b.len(),
                        self@ == JsonView::Array(json_views(a@)),
                        other@ == JsonView::Array(json_views(b@)),
                        decreases_to!(self => a),
                        forall|k: int| 0 <= k < i ==> same_json(json_views(a@)[k], json_views(b@)[k]),
                    decreases a.len() - i,
                {
                    if !a[i].same(&b[i]) {
                        assert(!same_json(json_views(a@)[i as int], json_views(b@)[i as int]));
                        return false;
                    }
                    i = i + 1;
                }
                true
            },
            (Json::Object(a), Json::Object(b)) => a.same(b),
            _ => false,
        }
    }
}

} // verus!

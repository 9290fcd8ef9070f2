//! JSON values.

use vstd::prelude::*;
use vstd::string::*;

use crate::text::same_text;

verus! {

/// A JSON number: an integer, or the text of any other number.
#[derive(Debug)]
pub enum Number {
    Unsigned(u64),
    Negative(i64),
    Decimal(String),
}

/// A JSON value. The members of an object keep their order.
#[derive(Debug)]
pub enum Json {
    Null,
    Bool(bool),
    Number(Number),
    Text(String),
    Array(Vec<Json>),
    Object(Vec<(String, Json)>),
}

/// What a JSON number is.
pub ghost enum NumberView {
    Unsigned(u64),
    Negative(i64),
    Decimal(Seq<char>),
}

/// What a JSON value is.
pub ghost enum JsonValue {
    Null,
    Bool(bool),
    Number(NumberView),
    Text(Seq<char>),
    Array(Seq<JsonValue>),
    Object(Seq<(Seq<char>, JsonValue)>),
}

impl View for Number {
    type V = NumberView;

    open spec fn view(&self) -> NumberView {
        match self {
            Number::Unsigned(value) => NumberView::Unsigned(*value),
            Number::Negative(value) => NumberView::Negative(*value),
            Number::Decimal(text) => NumberView::Decimal(text@),
        }
    }
}

/// What a JSON value is.
pub open spec fn value_of(json: Json) -> JsonValue
    decreases json,
{
    match json {
        Json::Null => JsonValue::Null,
        Json::Bool(flag) => JsonValue::Bool(flag),
        Json::Number(number) => JsonValue::Number(number@),
        Json::Text(text) => JsonValue::Text(text@),
        Json::Array(items) => JsonValue::Array(
            Seq::new(
                items@.len(),
                |index: int|
                    if 0 <= index < items@.len() {
                        value_of(items@[index])
                    } else {
                        JsonValue::Null
                    },
            ),
        ),
        Json::Object(members) => JsonValue::Object(
            Seq::new(
                members@.len(),
                |index: int|
                    if 0 <= index < members@.len() {
                        (members@[index].0@, value_of(members@[index].1))
                    } else {
                        (Seq::empty(), JsonValue::Null)
                    },
            ),
        ),
    }
}

impl View for Json {
    type V = JsonValue;

    open spec fn view(&self) -> JsonValue {
        value_of(*self)
    }
}

/// What each of several JSON values is.
pub open spec fn values_of(items: Seq<Json>) -> Seq<JsonValue> {
    items.map_values(|item: Json| item@)
}

/// What each member of an object is.
pub open spec fn members_of(members: Seq<(String, Json)>) -> Seq<(Seq<char>, JsonValue)> {
    members.map_values(|member: (String, Json)| (member.0@, member.1@))
}

/// The items of an array are the values of its elements.
pub proof fn lemma_array(items: Vec<Json>)
    ensures
        Json::Array(items)@ == JsonValue::Array(values_of(items@)),
{
    assert(Json::Array(items)@->Array_0 =~= values_of(items@));
}

/// The members of an object are the values of its entries.
pub proof fn lemma_object(members: Vec<(String, Json)>)
    ensures
        Json::Object(members)@ == JsonValue::Object(members_of(members@)),
{
    assert(Json::Object(members)@->Object_0 =~= members_of(members@));
}

/// The value of the first member named `key`.
pub open spec fn lookup(members: Seq<(Seq<char>, JsonValue)>, key: Seq<char>) -> Option<JsonValue>
    decreases members.len(),
{
    if members.len() == 0 {
        None
    } else if members[0].0 == key {
        Some(members[0].1)
    } else {
        lookup(members.drop_first(), key)
    }
}

/// The value of the member named `key`, where `value` is an object.
pub open spec fn member(value: JsonValue, key: Seq<char>) -> Option<JsonValue> {
    match value {
        JsonValue::Object(members) => lookup(members, key),
        _ => None,
    }
}

/// The text of a value that is a text.
pub open spec fn text_in(value: Option<JsonValue>) -> Option<Seq<char>> {
    match value {
        Some(JsonValue::Text(text)) => Some(text),
        _ => None,
    }
}

/// The number of a value that is a non-negative 64-bit integer.
pub open spec fn number_in(value: Option<JsonValue>) -> Option<u64> {
    match value {
        Some(JsonValue::Number(NumberView::Unsigned(number))) => Some(number),
        _ => None,
    }
}

/// Returns the position of the first member named `key`.
pub fn find_member(members: &Vec<(String, Json)>, key: &str) -> (found: Option<usize>)
    ensures
        match found {
            Some(index) => {
                &&& index < members@.len()
                &&& members@[index as int].0@ == key@
                &&& forall|i: int| 0 <= i < index ==> (#[trigger] members@[i]).0@ != key@
                &&& lookup(members_of(members@), key@) == Some(members@[index as int].1@)
            },
            None => {
                &&& lookup(members_of(members@), key@) is None
                &&& forall|i: int| 0 <= i < members@.len() ==> (#[trigger] members@[i]).0@ != key@
            },
        },
{
    let mut index: usize = 0;
    let ghost all = members_of(members@);
    assert(all.skip(0) =~= all);
    while index < members.len()
        invariant
            index <= members.len(),
            all == members_of(members@),
            forall|i: int| 0 <= i < index ==> (#[trigger] members@[i]).0@ != key@,
            lookup(all, key@) == lookup(all.skip(index as int), key@),
        decreases members.len() - index,
    {
        if same_text(members[index].0.as_str(), key) {
            return Some(index);
        }
        assert(all.skip(index as int).drop_first() =~= all.skip(index + 1));
        index += 1;
    }
    None
}

impl Json {
    /// Returns the member named `key`, where this is an object.
    pub fn get(&self, key: &str) -> (found: Option<&Json>)
        ensures
            match found {
                Some(value) => member(self@, key@) == Some(value@) && decreases_to!(*self => *value),
                None => member(self@, key@) is None,
            },
    {
        match self {
            Json::Object(members) => {
                proof {
                    lemma_object(*members);
                }
                match find_member(members, key) {
                    Some(index) => {
                        let value = &members[index].1;
                        assert(decreases_to!(*self => self->Object_0));
                        assert(decreases_to!(*members => members@));
                        assert(decreases_to!(members@ => members@[index as int]));
                        assert(decreases_to!(members@[index as int] => members@[index as int].1));
                        Some(value)
                    },
                    None => None,
                }
            },
            _ => None,
        }
    }

    /// Returns the text, where this is a text.
    pub fn as_text(&self) -> (text: Option<&str>)
        ensures
            match text {
                Some(text) => self@ == JsonValue::Text(text@),
                None => !(self@ is Text),
            },
    {
        match self {
            Json::Text(text) => Some(text.as_str()),
            _ => None,
        }
    }

    /// Returns the number, where this is a non-negative 64-bit integer.
    pub fn as_number(&self) -> (number: Option<u64>)
        ensures
            number == number_in(Some(self@)),
    {
        match self {
            Json::Number(Number::Unsigned(number)) => Some(*number),
            _ => None,
        }
    }

    /// Returns the text of the member named `key`.
    pub fn get_text(&self, key: &str) -> (text: Option<&str>)
        ensures
            match text {
                Some(text) => text_in(member(self@, key@)) == Some(text@),
                None => text_in(member(self@, key@)) is None,
            },
    {
        match self.get(key) {
            Some(value) => value.as_text(),
            None => None,
        }
    }

    /// Returns the number of the member named `key`.
    pub fn get_number(&self, key: &str) -> (number: Option<u64>)
        ensures
            number == number_in(member(self@, key@)),
    {
        match self.get(key) {
            Some(value) => value.as_number(),
            None => None,
        }
    }

    /// Whether this is the object without members.
    pub fn is_empty_object(&self) -> (empty: bool)
        ensures
            empty == (self@ == JsonValue::Object(Seq::empty())),
    {
        match self {
            Json::Object(members) => {
                proof {
                    lemma_object(*members);
                    if members@.len() == 0 {
                        assert(members_of(members@) =~= Seq::empty());
                    } else {
                        assert(members_of(members@).len() > 0);
                    }
                }
                members.len() == 0
            },
            _ => false,
        }
    }

    /// Returns an equal value.
    pub fn copy(&self) -> (copied: Json)
        ensures
            copied@ == self@,
        decreases self,
    {
        match self {
            Json::Null => Json::Null,
            Json::Bool(flag) => Json::Bool(*flag),
            Json::Number(Number::Unsigned(value)) => Json::Number(Number::Unsigned(*value)),
            Json::Number(Number::Negative(value)) => Json::Number(Number::Negative(*value)),
            Json::Number(Number::Decimal(text)) => Json::Number(Number::Decimal(text.clone())),
            Json::Text(text) => Json::Text(text.clone()),
            Json::Array(items) => {
                let mut output: Vec<Json> = Vec::new();
                let mut index: usize = 0;
                while index < items.len()
                    invariant
                        index <= items.len(),
                        *self == Json::Array(*items),
                        values_of(output@) == values_of(items@).take(index as int),
                    decreases items.len() - index,
                {
                    assert(decreases_to!(*self => self->Array_0));
                    assert(decreases_to!(*items => items@));
                    assert(decreases_to!(items@ => items@[index as int]));
                    let ghost before = output@;
                    output.push(items[index].copy());
                    proof {
                        assert(values_of(output@) =~= values_of(before).push(output@.last()@));
                        assert(values_of(items@).take(index + 1) =~= values_of(items@).take(index as int).push(
                            items@[index as int]@,
                        ));
                    }
                    index += 1;
                }
                proof {
                    lemma_array(*items);
                    lemma_array(output);
                    assert(values_of(items@).take(items@.len() as int) =~= values_of(items@));
                }
                Json::Array(output)
            },
            Json::Object(members) => {
                let mut output: Vec<(String, Json)> = Vec::new();
                let mut index: usize = 0;
                while index < members.len()
                    invariant
                        index <= members.len(),
                        *self == Json::Object(*members),
                        members_of(output@) == members_of(members@).take(index as int),
                    decreases members.len() - index,
                {
                    assert(decreases_to!(*self => self->Object_0));
                    assert(decreases_to!(*members => members@));
                    assert(decreases_to!(members@ => members@[index as int]));
                    assert(decreases_to!(members@[index as int] => members@[index as int].1));
                    let ghost before = output@;
                    output.push((members[index].0.clone(), members[index].1.copy()));
                    proof {
                        assert(members_of(output@) =~= members_of(before).push((output@.last().0@, output@.last().1@)));
                        assert(members_of(members@).take(index + 1) =~= members_of(members@).take(index as int).push(
                            (members@[index as int].0@, members@[index as int].1@),
                        ));
                    }
                    index += 1;
                }
                proof {
                    lemma_object(*members);
                    lemma_object(output);
                    assert(members_of(members@).take(members@.len() as int) =~= members_of(members@));
                }
                Json::Object(output)
            },
        }
    }
}

/// The members after `key` was given `value`: in the place of the first member
/// of that name, or behind the others.
pub open spec fn with_member(members: Seq<(Seq<char>, JsonValue)>, key: Seq<char>, value: JsonValue) -> Seq<(Seq<char>, JsonValue)>
    decreases members.len(),
{
    if members.len() == 0 {
        seq![(key, value)]
    } else if members[0].0 == key {
        seq![(key, value)] + members.drop_first()
    } else {
        seq![members[0]] + with_member(members.drop_first(), key, value)
    }
}

/// The members without the first one named `key`.
pub open spec fn without_member(members: Seq<(Seq<char>, JsonValue)>, key: Seq<char>) -> Seq<(Seq<char>, JsonValue)>
    decreases members.len(),
{
    if members.len() == 0 {
        Seq::empty()
    } else if members[0].0 == key {
        members.drop_first()
    } else {
        seq![members[0]] + without_member(members.drop_first(), key)
    }
}

/// Gives the member `key` the value `value` and returns what it had.
pub fn put_member(members: &mut Vec<(String, Json)>, key: String, value: Json) -> (previous: Option<Json>)
    ensures
        members_of(final(members)@) == with_member(members_of(old(members)@), key@, value@),
        match previous {
            Some(previous) => lookup(members_of(old(members)@), key@) == Some(previous@),
            None => lookup(members_of(old(members)@), key@) is None,
        },
{
    let ghost before = members@;
    let ghost name = key@;
    let ghost held = value@;
    match find_member(members, key.as_str()) {
        Some(index) => {
            let removed = members.remove(index);
            members.insert(index, (key, value));
            proof {
                lemma_put(members_of(before), index as int, name, held);
                assert(members_of(members@) =~= members_of(before).update(index as int, (name, held)));
            }
            Some(removed.1)
        },
        None => {
            members.push((key, value));
            proof {
                lemma_append(members_of(before), name, held);
                assert(members_of(members@) =~= members_of(before).push((name, held)));
            }
            None
        },
    }
}

/// Takes out the first member named `key`.
pub fn take_member(members: &mut Vec<(String, Json)>, key: &str) -> (taken: Option<Json>)
    ensures
        members_of(final(members)@) == without_member(members_of(old(members)@), key@),
        match taken {
            Some(taken) => lookup(members_of(old(members)@), key@) == Some(taken@),
            None => lookup(members_of(old(members)@), key@) is None,
        },
{
    let ghost before = members@;
    match find_member(members, key) {
        Some(index) => {
            let removed = members.remove(index);
            proof {
                lemma_take(members_of(before), index as int, key@);
                assert(members_of(members@) =~= members_of(before).remove(index as int));
            }
            Some(removed.1)
        },
        None => {
            proof {
                lemma_take_none(members_of(before), key@);
            }
            None
        },
    }
}

/// Giving a value to a member that is there changes it in its place.
pub proof fn lemma_put(members: Seq<(Seq<char>, JsonValue)>, index: int, key: Seq<char>, value: JsonValue)
    requires
        0 <= index < members.len(),
        members[index].0 == key,
        forall|i: int| 0 <= i < index ==> (#[trigger] members[i]).0 != key,
    ensures
        with_member(members, key, value) == members.update(index, (key, value)),
    decreases members.len(),
{
    if index == 0 {
        assert(seq![(key, value)] + members.drop_first() =~= members.update(0, (key, value)));
    } else {
        assert forall|i: int| 0 <= i < index - 1 implies (#[trigger] members.drop_first()[i]).0 != key by {
            assert(members.drop_first()[i] == members[i + 1]);
        }
        lemma_put(members.drop_first(), index - 1, key, value);
        assert(members[0].0 != key);
        assert(seq![members[0]] + members.drop_first().update(index - 1, (key, value)) =~= members.update(
            index,
            (key, value),
        ));
    }
}

proof fn lemma_append(members: Seq<(Seq<char>, JsonValue)>, key: Seq<char>, value: JsonValue)
    requires
        lookup(members, key) is None,
    ensures
        with_member(members, key, value) == members.push((key, value)),
    decreases members.len(),
{
    if members.len() == 0 {
        assert(members.push((key, value)) =~= seq![(key, value)]);
    } else {
        lemma_append(members.drop_first(), key, value);
        assert(seq![members[0]] + members.drop_first().push((key, value)) =~= members.push((key, value)));
    }
}

proof fn lemma_take(members: Seq<(Seq<char>, JsonValue)>, index: int, key: Seq<char>)
    requires
        0 <= index < members.len(),
        members[index].0 == key,
        forall|i: int| 0 <= i < index ==> (#[trigger] members[i]).0 != key,
    ensures
        without_member(members, key) == members.remove(index),
    decreases members.len(),
{
    if index == 0 {
        assert(members.drop_first() =~= members.remove(0));
    } else {
        assert forall|i: int| 0 <= i < index - 1 implies (#[trigger] members.drop_first()[i]).0 != key by {
            assert(members.drop_first()[i] == members[i + 1]);
        }
        lemma_take(members.drop_first(), index - 1, key);
        assert(members[0].0 != key);
        assert(seq![members[0]] + members.drop_first().remove(index - 1) =~= members.remove(index));
    }
}

/// Taking a member out leaves those of other names as they are.
pub proof fn lemma_take_others(members: Seq<(Seq<char>, JsonValue)>, key: Seq<char>, other: Seq<char>)
    requires
        key != other,
    ensures
        lookup(without_member(members, key), other) == lookup(members, other),
    decreases members.len(),
{
    if members.len() > 0 && members[0].0 != key {
        lemma_take_others(members.drop_first(), key, other);
        let rest = without_member(members.drop_first(), key);
        assert((seq![members[0]] + rest).drop_first() =~= rest);
    }
}

proof fn lemma_take_none(members: Seq<(Seq<char>, JsonValue)>, key: Seq<char>)
    requires
        lookup(members, key) is None,
    ensures
        without_member(members, key) == members,
    decreases members.len(),
{
    if members.len() > 0 {
        lemma_take_none(members.drop_first(), key);
        assert(seq![members[0]] + members.drop_first() =~= members);
    } else {
        assert(members =~= Seq::empty());
    }
}

/// Looking a name up finds the first member that has it, and nothing exactly where no member
/// has it.
pub proof fn law_lookup_finds_the_first(members: Seq<(Seq<char>, JsonValue)>, key: Seq<char>)
    ensures
        lookup(members, key) matches Some(value) ==> exists|index: int|
            0 <= index < members.len() && #[trigger] members[index] == (key, value) && forall|i: int|
                0 <= i < index ==> (#[trigger] members[i]).0 != key,
        lookup(members, key) is None ==> forall|i: int| 0 <= i < members.len() ==> (#[trigger] members[i]).0 != key,
    decreases members.len(),
{
    if members.len() > 0 {
        if members[0].0 == key {
            assert(members[0] == (key, members[0].1));
        } else {
            let rest = members.drop_first();
            law_lookup_finds_the_first(rest, key);
            assert forall|i: int| 0 < i < members.len() implies #[trigger] members[i] == rest[i - 1] by {}
            if let Some(value) = lookup(rest, key) {
                let index = choose|index: int|
                    0 <= index < rest.len() && #[trigger] rest[index] == (key, value) && forall|i: int|
                        0 <= i < index ==> (#[trigger] rest[i]).0 != key;
                assert(members[index + 1] == (key, value));
                assert forall|i: int| 0 <= i < index + 1 implies (#[trigger] members[i]).0 != key by {
                    if i > 0 {
                        assert(rest[i - 1].0 != key);
                    }
                }
            }
        }
    }
}

/// Giving a member a value changes what is found under that name, and under no other; the
/// other members keep their places.
pub proof fn law_put_member_changes_one(
    members: Seq<(Seq<char>, JsonValue)>,
    key: Seq<char>,
    value: JsonValue,
    other: Seq<char>,
)
    ensures
        lookup(with_member(members, key, value), key) == Some(value),
        other != key ==> lookup(with_member(members, key, value), other) == lookup(members, other),
        with_member(members, key, value).len() == members.len() + if lookup(members, key) is None {
            1int
        } else {
            0
        },
        forall|i: int|
            0 <= i < members.len() && members[i].0 != key ==> #[trigger] with_member(members, key, value)[i] == members[i],
    decreases members.len(),
{
    reveal_with_fuel(lookup, 2);
    if members.len() > 0 {
        let rest = members.drop_first();
        if members[0].0 == key {
            assert((seq![(key, value)] + rest).drop_first() =~= rest);
        } else {
            law_put_member_changes_one(rest, key, value, other);
            let after = with_member(rest, key, value);
            assert((seq![members[0]] + after).drop_first() =~= after);
            assert forall|i: int| 0 <= i < members.len() && members[i].0 != key implies #[trigger] with_member(
                members,
                key,
                value,
            )[i] == members[i] by {
                if i > 0 {
                    assert(rest[i - 1] == members[i]);
                    assert(after[i - 1] == rest[i - 1]);
                }
            }
        }
    }
}

/// Taking a member out takes one member out, the first of its name, and leaves those of
/// other names as they are.
pub proof fn law_take_member_removes_one(members: Seq<(Seq<char>, JsonValue)>, key: Seq<char>, other: Seq<char>)
    ensures
        other != key ==> lookup(without_member(members, key), other) == lookup(members, other),
        without_member(members, key).len() == members.len() - if lookup(members, key) is None {
            0int
        } else {
            1
        },
        lookup(members, key) is None ==> without_member(members, key) == members,
{
    if other != key {
        lemma_take_others(members, key, other);
    }
    law_lookup_finds_the_first(members, key);
    if let Some(value) = lookup(members, key) {
        let index = choose|index: int|
            0 <= index < members.len() && #[trigger] members[index] == (key, value) && forall|i: int|
                0 <= i < index ==> (#[trigger] members[i]).0 != key;
        lemma_take(members, index, key);
    } else {
        lemma_take_none(members, key);
    }
}

/// A JSON value of serde_json.
#[verifier::external_type_specification]
#[verifier::external_body]
pub struct ExternalValue(serde_json::Value);

/// What a value of serde_json holds.
pub uninterp spec fn held(value: serde_json::Value) -> JsonValue;

/// What several values of serde_json hold.
pub open spec fn all_held(items: Seq<serde_json::Value>) -> Seq<JsonValue> {
    items.map_values(|item: serde_json::Value| held(item))
}

/// What the members of an object that is built hold.
pub open spec fn members_held(members: Seq<(String, serde_json::Value)>) -> Seq<(Seq<char>, JsonValue)> {
    members.map_values(|member: (String, serde_json::Value)| (member.0@, held(member.1)))
}

/// The members of an object into which the first `end` members are put one after the
/// other: of several members of one name the last gives the value, the first the place.
pub open spec fn gathered(members: Seq<(Seq<char>, JsonValue)>, end: nat) -> Seq<(Seq<char>, JsonValue)>
    decreases end,
{
    if end == 0 {
        Seq::empty()
    } else {
        with_member(gathered(members, (end - 1) as nat), members[end - 1].0, members[end - 1].1)
    }
}

/// Makes the variant `Null` of serde_json's `Value`.
#[verifier::external_body]
fn external_null() -> (value: serde_json::Value)
    ensures
        held(value) == JsonValue::Null,
{
    serde_json::Value::Null
}

/// Makes a boolean with `from` of serde_json's `Value`.
#[verifier::external_body]
fn external_bool(flag: bool) -> (value: serde_json::Value)
    ensures
        held(value) == JsonValue::Bool(flag),
{
    serde_json::Value::from(flag)
}

/// Makes a number with `from` of serde_json's `Value`, which keeps the integer.
#[verifier::external_body]
fn external_unsigned(number: u64) -> (value: serde_json::Value)
    ensures
        held(value) == JsonValue::Number(NumberView::Unsigned(number)),
{
    serde_json::Value::from(number)
}

/// Makes a number with `from` of serde_json's `Value`, which keeps the integer.
#[verifier::external_body]
fn external_negative(number: i64) -> (value: serde_json::Value)
    requires
        number < 0,
    ensures
        held(value) == JsonValue::Number(NumberView::Negative(number)),
{
    serde_json::Value::from(number)
}

/// The value that the text of a number denotes; null where it is no number.
pub uninterp spec fn denoted_number(text: Seq<char>) -> JsonValue;

/// Makes a number of its text with `parse` of serde_json's `Number`, and null where that
/// refuses the text. What comes back depends on the text alone.
#[verifier::external_body]
fn external_decimal(text: &str) -> (value: serde_json::Value)
    ensures
        held(value) == denoted_number(text@),
{
    text.parse::<serde_json::Number>().map(serde_json::Value::Number).unwrap_or_default()
}

/// Makes a text with `from` of serde_json's `Value`, which keeps its characters.
#[verifier::external_body]
fn external_text(text: &str) -> (value: serde_json::Value)
    ensures
        held(value) == JsonValue::Text(text@),
{
    serde_json::Value::from(text)
}

/// Makes an array with `from` of serde_json's `Value`, which keeps the items in their
/// order.
#[verifier::external_body]
fn external_array(items: Vec<serde_json::Value>) -> (value: serde_json::Value)
    ensures
        held(value) == JsonValue::Array(all_held(items@)),
{
    serde_json::Value::from(items)
}

/// Makes an object with `from_iter` of serde_json's `Value`, which puts the members into
/// an object that keeps their order.
#[verifier::external_body]
fn external_object(members: Vec<(String, serde_json::Value)>) -> (value: serde_json::Value)
    ensures
        held(value) == JsonValue::Object(gathered(members_held(members@), members@.len())),
{
    serde_json::Value::from_iter(members)
}

/// The compact JSON text of what a value of serde_json holds.
pub uninterp spec fn written_json(value: JsonValue) -> Seq<char>;

/// Writes a value with `to_string` of serde_json's `Value`. What comes back depends on
/// what the value holds alone.
#[verifier::external_body]
fn write_external(value: &serde_json::Value) -> (text: String)
    ensures
        text@ == written_json(held(*value)),
{
    value.to_string()
}

/// The JSON text of what a value of serde_json holds, on several indented lines.
pub uninterp spec fn written_indented_json(value: JsonValue) -> Seq<char>;

/// Writes a value with serde_json's `to_string_pretty`, which does not fail on a `Value`.
/// What comes back depends on what the value holds alone.
#[verifier::external_body]
fn write_external_indented(value: &serde_json::Value) -> (text: String)
    ensures
        text@ == written_indented_json(held(*value)),
{
    serde_json::to_string_pretty(value).unwrap_or_default()
}

/// What two values of serde_json hold is equal by its own comparison, in which the order
/// of an object's members does not matter.
pub uninterp spec fn equal_json(left: JsonValue, right: JsonValue) -> bool;

/// Compares two values with `==` of serde_json's `Value`. The verdict depends on what they
/// hold alone, and a value is equal to one that holds the same.
#[verifier::external_body]
fn compare_external(left: &serde_json::Value, right: &serde_json::Value) -> (equal: bool)
    ensures
        equal == equal_json(held(*left), held(*right)),
        held(*left) == held(*right) ==> equal,
{
    left == right
}

/// What is kept of a number: an integer keeps its value, and another number that of its
/// text.
pub open spec fn kept_number(number: NumberView) -> JsonValue {
    match number {
        NumberView::Unsigned(_) => JsonValue::Number(number),
        NumberView::Negative(value) => if value < 0 {
            JsonValue::Number(number)
        } else {
            JsonValue::Number(NumberView::Unsigned(value as u64))
        },
        NumberView::Decimal(text) => denoted_number(text),
    }
}

/// What is kept of a value in its text: numbers by what they amount to, and one member of
/// each name.
pub open spec fn kept(value: JsonValue) -> JsonValue
    decreases value, 0nat,
{
    match value {
        JsonValue::Number(number) => kept_number(number),
        JsonValue::Array(items) => JsonValue::Array(
            Seq::new(
                items.len(),
                |index: int|
                    if 0 <= index < items.len() {
                        kept(items[index])
                    } else {
                        JsonValue::Null
                    },
            ),
        ),
        JsonValue::Object(members) => JsonValue::Object(kept_members(members, members.len())),
        _ => value,
    }
}

/// The first `end` members, with what is kept of their values, put into an object one
/// after the other.
pub open spec fn kept_members(members: Seq<(Seq<char>, JsonValue)>, end: nat) -> Seq<(Seq<char>, JsonValue)>
    decreases members, end,
{
    if end == 0 || end > members.len() {
        Seq::empty()
    } else {
        with_member(kept_members(members, (end - 1) as nat), members[end - 1].0, kept(members[end - 1].1))
    }
}

/// The compact JSON text of a value.
pub open spec fn json_text(value: JsonValue) -> Seq<char> {
    written_json(kept(value))
}

/// The JSON text of a value, on several indented lines.
pub open spec fn indented_json_text(value: JsonValue) -> Seq<char> {
    written_indented_json(kept(value))
}

proof fn lemma_gathered(built: Seq<(Seq<char>, JsonValue)>, members: Seq<(Seq<char>, JsonValue)>, end: nat)
    requires
        end <= members.len() == built.len(),
        forall|i: int| 0 <= i < end ==> (#[trigger] built[i]) == (members[i].0, kept(members[i].1)),
    ensures
        gathered(built, end) == kept_members(members, end),
    decreases end,
{
    if end > 0 {
        lemma_gathered(built, members, (end - 1) as nat);
    }
}

fn external_number(number: &Number) -> (value: serde_json::Value)
    ensures
        held(value) == kept_number(number@),
{
    match number {
        Number::Unsigned(value) => external_unsigned(*value),
        Number::Negative(value) => if *value < 0 {
            external_negative(*value)
        } else {
            external_unsigned(*value as u64)
        },
        Number::Decimal(text) => external_decimal(text.as_str()),
    }
}

/// Builds the value of serde_json that holds what is kept of a value.
fn to_external(value: &Json) -> (external: serde_json::Value)
    ensures
        held(external) == kept(value@),
    decreases value,
{
    match value {
        Json::Null => external_null(),
        Json::Bool(flag) => external_bool(*flag),
        Json::Number(number) => external_number(number),
        Json::Text(text) => external_text(text.as_str()),
        Json::Array(items) => {
            let mut output: Vec<serde_json::Value> = Vec::new();
            let mut index: usize = 0;
            while index < items.len()
                invariant
                    index <= items.len(),
                    *value == Json::Array(*items),
                    output@.len() == index,
                    forall|i: int| 0 <= i < index ==> held(#[trigger] output@[i]) == kept(items@[i]@),
                decreases items.len() - index,
            {
                assert(decreases_to!(*value => value->Array_0));
                assert(decreases_to!(*items => items@));
                assert(decreases_to!(items@ => items@[index as int]));
                output.push(to_external(&items[index]));
                index += 1;
            }
            proof {
                lemma_array(*items);
                assert(all_held(output@) =~= kept(value@)->Array_0);
            }
            external_array(output)
        },
        Json::Object(members) => {
            let mut output: Vec<(String, serde_json::Value)> = Vec::new();
            let mut index: usize = 0;
            while index < members.len()
                invariant
                    index <= members.len(),
                    *value == Json::Object(*members),
                    output@.len() == index,
                    forall|i: int|
                        0 <= i < index ==> (#[trigger] output@[i]).0@ == members@[i].0@ && held(output@[i].1) == kept(
                            members@[i].1@,
                        ),
                decreases members.len() - index,
            {
                assert(decreases_to!(*value => value->Object_0));
                assert(decreases_to!(*members => members@));
                assert(decreases_to!(members@ => members@[index as int]));
                assert(decreases_to!(members@[index as int] => members@[index as int].1));
                output.push((members[index].0.clone(), to_external(&members[index].1)));
                index += 1;
            }
            proof {
                lemma_object(*members);
                lemma_gathered(members_held(output@), members_of(members@), members@.len());
            }
            external_object(output)
        },
    }
}

/// Whether two values are equal as JSON.
pub(crate) fn same_json(left: &Json, right: &Json) -> (same: bool)
    ensures
        same == equal_json(kept(left@), kept(right@)),
        left@ == right@ ==> same,
{
    compare_external(&to_external(left), &to_external(right))
}

/// Writes a value as compact JSON text.
pub(crate) fn write_json(value: &Json) -> (text: String)
    ensures
        text@ == json_text(value@),
{
    write_external(&to_external(value))
}

/// Writes a value as JSON text on several indented lines.
pub(crate) fn write_indented_json(value: &Json) -> (text: String)
    ensures
        text@ == indented_json_text(value@),
{
    write_external_indented(&to_external(value))
}

/// What is kept of a value: texts, flags and nothing as they are, whole numbers by what
/// they are worth, and every item of an array in its place.
pub proof fn law_kept_values(value: JsonValue)
    ensures
        value is Null || value is Bool || value is Text ==> kept(value) == value,
        value matches JsonValue::Number(NumberView::Unsigned(_)) ==> kept(value) == value,
        value matches JsonValue::Number(NumberView::Negative(number)) ==> match kept(value) {
            JsonValue::Number(NumberView::Negative(other)) => other == number && number < 0,
            JsonValue::Number(NumberView::Unsigned(other)) => other == number && number >= 0,
            _ => false,
        },
        value matches JsonValue::Array(items) ==> kept(value) is Array && kept(value)->Array_0.len() == items.len()
            && forall|i: int| 0 <= i < items.len() ==> #[trigger] kept(value)->Array_0[i] == kept(items[i]),
        value is Object ==> kept(value) is Object,
{
}

/// Of the members of an object the last of each name counts, in the place of the first.
pub proof fn law_kept_members(members: Seq<(Seq<char>, JsonValue)>, end: nat, name: Seq<char>)
    requires
        0 < end <= members.len(),
    ensures
        ({
            let before = kept_members(members, (end - 1) as nat);
            let after = kept_members(members, end);
            let (last, value) = members[end - 1];
            &&& lookup(after, last) == Some(kept(value))
            &&& name != last ==> lookup(after, name) == lookup(before, name)
            &&& after.len() == before.len() + if lookup(before, last) is None {
                1int
            } else {
                0
            }
        }),
        kept_members(members, 0).len() == 0,
        kept(JsonValue::Object(members)) == JsonValue::Object(kept_members(members, members.len())),
{
    let before = kept_members(members, (end - 1) as nat);
    let (last, value) = members[end - 1];
    law_put_member_changes_one(before, last, kept(value), name);
}

} // verus!

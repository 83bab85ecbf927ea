//! JSON values.

use vstd::prelude::*;

verus! {

/// A JSON value without fractional or negative numbers. The fields of an object are in the order
/// in which they were added.
#[derive(Debug, PartialEq, Eq)]
pub enum JsonValue {
    Null,
    Bool(bool),
    Number(u64),
    Text(String),
    Array(Vec<JsonValue>),
    Object(Vec<(String, JsonValue)>),
}

/// The mathematical value of a [`JsonValue`].
pub enum JsonView {
    Null,
    Bool(bool),
    Number(u64),
    Text(Seq<char>),
    Array(Seq<JsonView>),
    Object(Seq<(Seq<char>, JsonView)>),
}

/// The value of `json`, with those of its parts.
pub open spec fn json_view(json: JsonValue) -> JsonView
    decreases json,
{
    match json {
        JsonValue::Null => JsonView::Null,
        JsonValue::Bool(value) => JsonView::Bool(value),
        JsonValue::Number(value) => JsonView::Number(value),
        JsonValue::Text(value) => JsonView::Text(value@),
        JsonValue::Array(values) => JsonView::Array(
            Seq::new(
                values@.len(),
                |i: int|
                    if 0 <= i < values@.len() {
                        json_view(values@[i])
                    } else {
                        JsonView::Null
                    },
            ),
        ),
        JsonValue::Object(fields) => JsonView::Object(
            Seq::new(
                fields@.len(),
                |i: int|
                    if 0 <= i < fields@.len() {
                        (fields@[i].0@, json_view(fields@[i].1))
                    } else {
                        (Seq::empty(), JsonView::Null)
                    },
            ),
        ),
    }
}

impl View for JsonValue {
    type V = JsonView;

    open spec fn view(&self) -> JsonView {
        json_view(*self)
    }
}

/// The values of a list.
pub open spec fn value_views(values: Seq<JsonValue>) -> Seq<JsonView> {
    values.map_values(|value: JsonValue| value@)
}

/// The values of a list of fields.
pub open spec fn field_views(fields: Seq<(String, JsonValue)>) -> Seq<(Seq<char>, JsonView)> {
    fields.map_values(|field: (String, JsonValue)| (field.0@, field.1@))
}

/// The value of the field `key` of an object, if the object has that field.
pub open spec fn field_of(json: JsonView, key: Seq<char>) -> Option<JsonView> {
    match json {
        JsonView::Object(fields) => last_field(fields, key),
        _ => None,
    }
}

/// The value of the last field named `key`.
pub open spec fn last_field(fields: Seq<(Seq<char>, JsonView)>, key: Seq<char>) -> Option<JsonView>
    decreases fields.len(),
{
    if fields.len() == 0 {
        None
    } else if fields.last().0 == key {
        Some(fields.last().1)
    } else {
        last_field(fields.drop_last(), key)
    }
}

/// Whether no two fields of an object have the same name.
pub open spec fn distinct_fields(fields: Seq<(Seq<char>, JsonView)>) -> bool {
    forall|i: int, j: int|
        0 <= i < j < fields.len() ==> (#[trigger] fields[i]).0 != (#[trigger] fields[j]).0
}

/// An array of `values`.
pub fn json_array(values: Vec<JsonValue>) -> (json: JsonValue)
    ensures
        json@ == JsonView::Array(value_views(values@)),
        json matches JsonValue::Array(held) && held@ == values@,
{
    let json = JsonValue::Array(values);
    assert(json@->Array_0 =~= value_views(values@));
    json
}

/// An object with `fields`.
pub fn json_object(fields: Vec<(String, JsonValue)>) -> (json: JsonValue)
    ensures
        json@ == JsonView::Object(field_views(fields@)),
        json matches JsonValue::Object(held) && held@ == fields@,
{
    let json = JsonValue::Object(fields);
    assert(json@->Object_0 =~= field_views(fields@));
    json
}

/// Adds a field behind `fields`.
pub fn add_field(fields: &mut Vec<(String, JsonValue)>, key: &str, value: JsonValue)
    ensures
        field_views(final(fields)@) == field_views(old(fields)@).push((key@, value@)),
        final(fields)@.len() == old(fields)@.len() + 1,
        final(fields)@.drop_last() == old(fields)@,
        final(fields)@.last().0@ == key@,
        final(fields)@.last().1 == value,
{
    fields.push((key.to_owned(), value));
    assert(field_views(fields@) =~= field_views(old(fields)@).push((key@, value@)));
}

/// The value of a JSON value is of its kind and holds what it holds, in the same order.
pub proof fn lemma_json_values(json: JsonValue)
    ensures
        match json {
            JsonValue::Null => json@ == JsonView::Null,
            JsonValue::Bool(value) => json@ == JsonView::Bool(value),
            JsonValue::Number(value) => json@ == JsonView::Number(value),
            JsonValue::Text(value) => json@ == JsonView::Text(value@),
            JsonValue::Array(values) => {
                &&& json@ matches JsonView::Array(items)
                &&& items.len() == values@.len()
                &&& forall|i: int| 0 <= i < items.len() ==> #[trigger] items[i] == values@[i]@
            },
            JsonValue::Object(fields) => {
                &&& json@ matches JsonView::Object(items)
                &&& items.len() == fields@.len()
                &&& forall|i: int|
                    0 <= i < items.len() ==> #[trigger] items[i] == (fields@[i].0@, fields@[i].1@)
            },
        },
{
}

/// A field of an object is found under its name where no later field has the same name, and
/// nothing is found under a name that no field has.
pub proof fn lemma_field_of(fields: Seq<(Seq<char>, JsonView)>, key: Seq<char>)
    ensures
        forall|i: int|
            0 <= i < fields.len() && (#[trigger] fields[i]).0 == key && (forall|j: int|
                i < j < fields.len() ==> (#[trigger] fields[j]).0 != key) ==> field_of(
                JsonView::Object(fields),
                key,
            ) == Some(fields[i].1),
        (forall|i: int| 0 <= i < fields.len() ==> (#[trigger] fields[i]).0 != key) ==> field_of(
            JsonView::Object(fields),
            key,
        ) is None,
    decreases fields.len(),
{
    if fields.len() > 0 {
        let rest = fields.drop_last();
        let last = fields.len() - 1;
        lemma_field_of(rest, key);
        assert(fields[last] == fields.last());
        if fields.last().0 != key {
            assert forall|i: int|
                0 <= i < fields.len() && (#[trigger] fields[i]).0 == key && (forall|j: int|
                    i < j < fields.len() ==> (#[trigger] fields[j]).0 != key) implies field_of(
                JsonView::Object(fields),
                key,
            ) == Some(fields[i].1) by {
                assert(rest[i] == fields[i]);
                assert forall|j: int| i < j < rest.len() implies (#[trigger] rest[j]).0 != key by {
                    assert(rest[j] == fields[j]);
                }
            }
            if forall|i: int| 0 <= i < fields.len() ==> (#[trigger] fields[i]).0 != key {
                assert forall|i: int| 0 <= i < rest.len() implies (#[trigger] rest[i]).0 != key by {
                    assert(rest[i] == fields[i]);
                }
            }
        }
    }
}

} // verus!

//! Source references in JSON values and the files they stand for.

use vstd::prelude::*;
use vstd::string::*;

use crate::json::{lemma_array, lemma_object, member, members_of, text_in, values_of, Json, JsonValue};
use crate::table::Table;
use crate::text::same_text;

verus! {

/// The most bytes of a source that a schema does not bound.
pub const MAX_SOURCE_BYTES: u64 = 100 * 1024 * 1024;

/// A schema describes a source reference.
pub open spec fn is_source_schema(schema: JsonValue) -> bool {
    text_in(member(schema, "format"@)) == Some("source"@)
}

/// The schema of the property `name`: the declared one, or the schema of all
/// further properties.
pub open spec fn property_schema(schema: JsonValue, name: Seq<char>) -> Option<JsonValue> {
    match declared_schema(schema, name) {
        Some(child) => Some(child),
        None => match member(schema, "additionalProperties"@) {
            Some(JsonValue::Object(members)) => Some(JsonValue::Object(members)),
            _ => None,
        },
    }
}

/// The declared schema of the property `name`.
pub open spec fn declared_schema(schema: JsonValue, name: Seq<char>) -> Option<JsonValue> {
    match member(schema, "properties"@) {
        Some(properties) => member(properties, name),
        None => None,
    }
}

/// `value`, read by `schema`, refers to the source `id`.
pub open spec fn refers_to(schema: JsonValue, value: JsonValue, id: Seq<char>) -> bool
    decreases value,
{
    if is_source_schema(schema) {
        value == JsonValue::Text(id)
    } else {
        match value {
            JsonValue::Object(members) => exists|index: int|
                0 <= index < members.len() && (property_schema(schema, (#[trigger] members[index]).0) matches Some(child)
                    && refers_to(child, members[index].1, id)),
            JsonValue::Array(items) => member(schema, "items"@) matches Some(child) && exists|index: int|
                0 <= index < items.len() && refers_to(child, #[trigger] items[index], id),
            _ => false,
        }
    }
}

/// Whether a schema describes a source reference.
pub fn source_schema(schema: &Json) -> (source: bool)
    ensures
        source == is_source_schema(schema@),
{
    match schema.get_text("format") {
        Some(format) => same_text(format, "source"),
        None => false,
    }
}

/// Returns the declared schema of the property `name`.
pub fn find_declared<'a>(schema: &'a Json, name: &str) -> (found: Option<&'a Json>)
    ensures
        match found {
            Some(child) => declared_schema(schema@, name@) == Some(child@),
            None => declared_schema(schema@, name@) is None,
        },
{
    match schema.get("properties") {
        Some(properties) => properties.get(name),
        None => None,
    }
}

/// Returns the schema of the property `name`.
pub fn find_property<'a>(schema: &'a Json, name: &str) -> (found: Option<&'a Json>)
    ensures
        match found {
            Some(child) => property_schema(schema@, name@) == Some(child@),
            None => property_schema(schema@, name@) is None,
        },
{
    match find_declared(schema, name) {
        Some(child) => Some(child),
        None => match schema.get("additionalProperties") {
            Some(child) => match child {
                Json::Object(_) => Some(child),
                _ => None,
            },
            None => None,
        },
    }
}

/// Adds every source to which `value`, read by `schema`, refers to `ids`.
pub fn collect_sources(schema: &Json, value: &Json, ids: &mut Table<()>)
    requires
        old(ids).wf(),
    ensures
        final(ids).wf(),
        forall|id: Seq<char>| #[trigger]
            final(ids)@.dom().contains(id) <==> old(ids)@.dom().contains(id) || refers_to(schema@, value@, id),
    decreases value,
{
    if source_schema(schema) {
        if let Some(id) = value.as_text() {
            ids.insert(id.to_owned(), ());
        }
        return;
    }
    match value {
        Json::Object(members) => {
            proof {
                lemma_object(*members);
            }
            let ghost listed = members_of(members@);
            let mut index: usize = 0;
            while index < members.len()
                invariant
                    index <= members.len(),
                    *value == Json::Object(*members),
                    value@ == JsonValue::Object(listed),
                    listed == members_of(members@),
                    !is_source_schema(schema@),
                    ids.wf(),
                    forall|id: Seq<char>| #[trigger]
                        ids@.dom().contains(id) <==> old(ids)@.dom().contains(id) || exists|i: int|
                            0 <= i < index && member_refers(schema@, listed, i, id),
                decreases members.len() - index,
            {
                assert(decreases_to!(*value => value->Object_0));
                assert(decreases_to!(*members => members@));
                assert(decreases_to!(members@ => members@[index as int]));
                assert(decreases_to!(members@[index as int] => members@[index as int].1));
                assert(listed[index as int] == (members@[index as int].0@, members@[index as int].1@));
                let ghost before = ids@;
                if let Some(child) = find_property(schema, members[index].0.as_str()) {
                    collect_sources(child, &members[index].1, ids);
                }
                assert forall|id: Seq<char>| #[trigger] ids@.dom().contains(id) <==> old(ids)@.dom().contains(id)
                    || exists|i: int| 0 <= i < index + 1 && member_refers(schema@, listed, i, id) by {
                    assert(ids@.dom().contains(id) <==> before.dom().contains(id) || member_refers(
                        schema@,
                        listed,
                        index as int,
                        id,
                    ));
                    assert(before.dom().contains(id) <==> old(ids)@.dom().contains(id) || exists|i: int|
                        0 <= i < index && member_refers(schema@, listed, i, id));
                }
                index += 1;
            }
            assert forall|id: Seq<char>| (exists|i: int|
                0 <= i < listed.len() && member_refers(schema@, listed, i, id)) <==> #[trigger] refers_to(
                schema@,
                value@,
                id,
            ) by {
                if exists|i: int| 0 <= i < listed.len() && member_refers(schema@, listed, i, id) {
                    let i = choose|i: int| 0 <= i < listed.len() && member_refers(schema@, listed, i, id);
                    assert(property_schema(schema@, listed[i].0) is Some);
                }
                if refers_to(schema@, value@, id) {
                    let i = choose|i: int|
                        0 <= i < listed.len() && (property_schema(schema@, (#[trigger] listed[i]).0) matches Some(child)
                            && refers_to(child, listed[i].1, id));
                    assert(member_refers(schema@, listed, i, id));
                }
            }
            assert forall|id: Seq<char>| #[trigger] ids@.dom().contains(id) <==> old(ids)@.dom().contains(id)
                || refers_to(schema@, value@, id) by {
                assert(index == listed.len());
                assert(ids@.dom().contains(id) <==> old(ids)@.dom().contains(id) || exists|i: int|
                    0 <= i < listed.len() && member_refers(schema@, listed, i, id));
            }
        },
        Json::Array(items) => {
            proof {
                lemma_array(*items);
            }
            let ghost listed = values_of(items@);
            let child = match schema.get("items") {
                Some(child) => child,
                None => return,
            };
            let mut index: usize = 0;
            while index < items.len()
                invariant
                    index <= items.len(),
                    *value == Json::Array(*items),
                    listed == values_of(items@),
                    ids.wf(),
                    forall|id: Seq<char>| #[trigger]
                        ids@.dom().contains(id) <==> old(ids)@.dom().contains(id) || exists|i: int|
                            0 <= i < index && refers_to(child@, #[trigger] listed[i], id),
                decreases items.len() - index,
            {
                assert(decreases_to!(*value => value->Array_0));
                assert(decreases_to!(*items => items@));
                assert(decreases_to!(items@ => items@[index as int]));
                assert(listed[index as int] == items@[index as int]@);
                let ghost before = ids@;
                collect_sources(child, &items[index], ids);
                assert forall|id: Seq<char>| #[trigger] ids@.dom().contains(id) <==> old(ids)@.dom().contains(id)
                    || exists|i: int| 0 <= i < index + 1 && refers_to(child@, #[trigger] listed[i], id) by {
                    assert(ids@.dom().contains(id) <==> before.dom().contains(id) || refers_to(
                        child@,
                        listed[index as int],
                        id,
                    ));
                    assert(before.dom().contains(id) <==> old(ids)@.dom().contains(id) || exists|i: int|
                        0 <= i < index && refers_to(child@, #[trigger] listed[i], id));
                }
                index += 1;
            }
            assert forall|id: Seq<char>| #[trigger] ids@.dom().contains(id) <==> old(ids)@.dom().contains(id)
                || refers_to(schema@, value@, id) by {
                assert(index == listed.len());
                assert(value@ == JsonValue::Array(listed));
                assert(member(schema@, "items"@) == Some(child@));
                if refers_to(schema@, value@, id) {
                    let i = choose|i: int| 0 <= i < listed.len() && refers_to(child@, #[trigger] listed[i], id);
                    assert(refers_to(child@, listed[i], id));
                }
                if exists|i: int| 0 <= i < listed.len() && refers_to(child@, #[trigger] listed[i], id) {
                    assert(!is_source_schema(schema@));
                    let i = choose|i: int| 0 <= i < listed.len() && refers_to(child@, #[trigger] listed[i], id);
                    assert(refers_to(child@, value@->Array_0[i], id));
                    assert(member(schema@, "items"@)->Some_0 == child@);
                    assert(value@->Array_0 == listed);
                    assert(value@ is Array);
                    assert(refers_to(schema@, value@, id));
                }
            }
        },
        _ => {},
    }
}

/// The member at `index` refers to the source `id`.
spec fn member_refers(schema: JsonValue, members: Seq<(Seq<char>, JsonValue)>, index: int, id: Seq<char>) -> bool {
    property_schema(schema, members[index].0) matches Some(child) && refers_to(child, members[index].1, id)
}

/// A schema is that of a source where its format says so.
pub proof fn law_source_schemas(schema: JsonValue)
    ensures
        is_source_schema(schema) <==> member(schema, "format"@) == Some(JsonValue::Text("source"@)),
{
}

/// A property has the schema that is declared for it, and otherwise that of further properties,
/// where there is one.
pub proof fn law_schemas_of_properties(schema: JsonValue, name: Seq<char>)
    ensures
        declared_schema(schema, name) == match member(schema, "properties"@) {
            Some(properties) => member(properties, name),
            None => None,
        },
        declared_schema(schema, name) is Some ==> property_schema(schema, name) == declared_schema(schema, name),
        declared_schema(schema, name) is None ==> (property_schema(schema, name) matches Some(child) ==> child is Object
            && member(schema, "additionalProperties"@) == Some(child)),
        declared_schema(schema, name) is None ==> (member(schema, "additionalProperties"@) matches Some(child) && child is Object
            ==> property_schema(schema, name) is Some),
{
}

/// A value refers to a source where its id stands as a text where the schema has a source; in
/// objects and arrays, where one of their members or items does.
pub proof fn law_references_to_sources(schema: JsonValue, value: JsonValue, id: Seq<char>)
    ensures
        is_source_schema(schema) ==> (refers_to(schema, value, id) <==> value == JsonValue::Text(id)),
        !is_source_schema(schema) ==> (value matches JsonValue::Object(members) ==> (refers_to(schema, value, id) <==> exists|
            i: int,
        |
            0 <= i < members.len() && (property_schema(schema, (#[trigger] members[i]).0) matches Some(child) && refers_to(
                child,
                members[i].1,
                id,
            )))),
        !is_source_schema(schema) ==> (value matches JsonValue::Array(items) ==> (refers_to(schema, value, id) <==> (member(
            schema,
            "items"@,
        ) matches Some(child) && exists|i: int| 0 <= i < items.len() && refers_to(child, #[trigger] items[i], id)))),
        !is_source_schema(schema) && !(value is Object) && !(value is Array) ==> !refers_to(schema, value, id),
{
}

} // verus!

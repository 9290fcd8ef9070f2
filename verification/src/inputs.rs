//! Inputs of a local run: arguments, fixtures, sources and tokens.

use vstd::prelude::*;
use vstd::string::*;

use crate::component::Finding;
use crate::json::{
    find_member, json_text, law_put_member_changes_one, lemma_array, lemma_object, lemma_put,
    lookup, member, members_of, number_in, put_member, take_member, text_in, values_of, with_member, without_member,
    write_json, Json, JsonValue, NumberView,
};
use crate::manifest::{Action, Manifest};
use crate::request::lists_text;
use crate::sources::{declared_schema, find_declared, is_source_schema, source_schema, MAX_SOURCE_BYTES};
use crate::table::Table;
use crate::text::{
    byte_count, byte_len, capital, chars_of, cut, cut_text, decimal, joined, lemma_cut, lemma_cut_at, push_char,
    push_text, same_text, to_capital, write_decimal,
};
use crate::tool::Error;

verus! {

/// The longest item of a fixture, in bytes.
pub const MAX_FIXTURE_ITEM: usize = 1024 * 1024;

/// The longest token, in bytes.
pub const MAX_TOKEN_BYTES: usize = 16_384;

/// A local file that stands for a source.
pub struct LocalSource {
    pub filename: String,
    pub media_type: String,
    pub bytes: Vec<u8>,
}

/// What a local source is.
pub ghost struct LocalSourceView {
    pub filename: Seq<char>,
    pub media_type: Seq<char>,
    pub bytes: Seq<u8>,
}

impl View for LocalSource {
    type V = LocalSourceView;

    open spec fn view(&self) -> LocalSourceView {
        LocalSourceView { filename: self.filename@, media_type: self.media_type@, bytes: self.bytes@ }
    }
}

/// The members of an object of arguments.
pub type Arguments = Vec<(String, Json)>;

/// Returns the textual argument `name`, which is required.
pub fn text<'a>(arguments: &'a Arguments, name: &str) -> (value: Result<&'a str, Error>)
    ensures
        match text_in(lookup(members_of(arguments@), name@)) {
            Some(found) => value matches Ok(value) && value@ == found,
            None => value matches Err(Error::Usage(message)) && message@ == name@ + " is required"@,
        },
{
    if let Some(index) = find_member(arguments, name) {
        if let Some(value) = arguments[index].1.as_text() {
            return Ok(value);
        }
    }
    Err(Error::Usage(joined(name, " is required")))
}

/// The name and the path of an argument written `NAME=PATH`.
pub open spec fn file_entry(entry: JsonValue) -> Option<(Seq<char>, Seq<char>)> {
    match entry {
        JsonValue::Text(entry) => match cut(entry, '=') {
            Some((name, path)) => if name.len() > 0 && path.len() > 0 {
                Some((name, path))
            } else {
                None
            },
            None => None,
        },
        _ => None,
    }
}

/// The paths by name of a list of `NAME=PATH` arguments behind `files`, or the
/// words for what is wrong with it.
pub open spec fn file_entries(
    entries: Seq<JsonValue>,
    files: Map<Seq<char>, Seq<char>>,
    argument: Seq<char>,
) -> Result<Map<Seq<char>, Seq<char>>, Seq<char>>
    decreases entries.len(),
{
    if entries.len() == 0 {
        Ok(files)
    } else {
        match file_entry(entries[0]) {
            None => Err(argument + " must be NAME=PATH"@),
            Some((name, path)) => if files.dom().contains(name) {
                Err("duplicate "@ + argument + " key "@ + name)
            } else {
                file_entries(entries.drop_first(), files.insert(name, path), argument)
            },
        }
    }
}

/// The texts of a table of strings.
pub open spec fn strings(table: Table<String>) -> Map<Seq<char>, Seq<char>> {
    table@.map_values(|value: String| value@)
}

/// Reads the argument `name`, a list of `NAME=PATH` with distinct names.
pub fn file_map(arguments: &Arguments, name: &str) -> (files: Result<Table<String>, Error>)
    ensures
        match lookup(members_of(arguments@), name@) {
            None => files matches Ok(files) && files.wf() && strings(files) == Map::<Seq<char>, Seq<char>>::empty(),
            Some(JsonValue::Array(entries)) => match file_entries(entries, Map::empty(), name@) {
                Ok(expected) => files matches Ok(files) && files.wf() && strings(files) == expected,
                Err(words) => files matches Err(Error::Usage(message)) && message@ == words,
            },
            Some(_) => files matches Err(Error::Usage(message)) && message@ == name@ + " must be an array"@,
        },
{
    let mut files: Table<String> = Table::new();
    assert(strings(files) =~= Map::empty());
    let index = match find_member(arguments, name) {
        Some(index) => index,
        None => return Ok(files),
    };
    let entries = match &arguments[index].1 {
        Json::Array(entries) => entries,
        _ => return Err(Error::Usage(joined(name, " must be an array"))),
    };
    proof {
        lemma_array(*entries);
    }
    let ghost all = values_of(entries@);
    let mut place: usize = 0;
    assert(all.skip(0) =~= all);
    while place < entries.len()
        invariant
            place <= entries.len(),
            all == values_of(entries@),
            files.wf(),
            lookup(members_of(arguments@), name@) == Some(JsonValue::Array(all)),
            file_entries(all, Map::empty(), name@) == file_entries(all.skip(place as int), strings(files), name@),
        decreases entries.len() - place,
    {
        assert(all.skip(place as int)[0] == entries@[place as int]@);
        assert(all.skip(place as int).drop_first() =~= all.skip(place + 1));
        let parts = match entries[place].as_text() {
            Some(entry) => cut_text(entry, '='),
            None => None,
        };
        match parts {
            None => return Err(Error::Usage(joined(name, " must be NAME=PATH"))),
            Some((key, path)) => {
                if key.as_str().is_empty() || path.as_str().is_empty() {
                    return Err(Error::Usage(joined(name, " must be NAME=PATH")));
                }
                if files.contains(key.as_str()) {
                    let mut words = joined("duplicate ", name);
                    push_text(&mut words, " key ");
                    push_text(&mut words, key.as_str());
                    return Err(Error::Usage(words));
                }
                let ghost before = files;
                let ghost held = (key@, path@);
                files.insert(key, path);
                assert(strings(files) =~= strings(before).insert(held.0, held.1));
            },
        }
        place += 1;
    }
    Ok(files)
}

/// A schema admits a source: within its bound, and of a listed media type.
pub open spec fn admits_source(schema: JsonValue, source: LocalSourceView) -> bool {
    &&& source.bytes.len() <= match number_in(member(schema, "maxBytes"@)) {
        Some(maximum) => maximum,
        None => MAX_SOURCE_BYTES,
    }
    &&& member(schema, "mediaTypes"@) matches Some(JsonValue::Array(types)) ==> types.contains(
        JsonValue::Text(source.media_type),
    )
}

/// Whether a schema admits a source.
pub fn source_allowed(schema: &Json, source: &LocalSource) -> (allowed: bool)
    ensures
        allowed == admits_source(schema@, source@),
{
    let maximum: u64 = match schema.get_number("maxBytes") {
        Some(maximum) => maximum,
        None => MAX_SOURCE_BYTES,
    };
    if source.bytes.len() as u64 > maximum {
        return false;
    }
    if let Some(types) = schema.get("mediaTypes") {
        if let Json::Array(types) = types {
            proof {
                lemma_array(*types);
            }
            return lists_text(types, source.media_type.as_str());
        }
    }
    true
}

/// A member of a value is smaller than the value.
pub proof fn lemma_member_smaller(value: JsonValue, key: Seq<char>)
    ensures
        member(value, key) matches Some(child) ==> decreases_to!(value => child),
{
    if let JsonValue::Object(members) = value {
        lemma_lookup_index(members, key);
        if lookup(members, key) is Some {
            let index = choose|index: int| 0 <= index < members.len() && lookup(members, key) == Some((#[trigger] members[index]).1);
            assert(decreases_to!(value => value->Object_0));
            assert(decreases_to!(members => members[index]));
            assert(decreases_to!(members[index] => members[index].1));
        }
    }
}

proof fn lemma_lookup_index(members: Seq<(Seq<char>, JsonValue)>, key: Seq<char>)
    ensures
        lookup(members, key) is Some ==> exists|index: int|
            0 <= index < members.len() && lookup(members, key) == Some((#[trigger] members[index]).1),
    decreases members.len(),
{
    if members.len() > 0 && members[0].0 != key {
        lemma_lookup_index(members.drop_first(), key);
        if lookup(members.drop_first(), key) is Some {
            let index = choose|index: int|
                0 <= index < members.drop_first().len() && lookup(members.drop_first(), key) == Some(
                    (#[trigger] members.drop_first()[index]).1,
                );
            assert(members[index + 1] == members.drop_first()[index]);
        }
    }
}

/// Why a value's sources are refused.
#[derive(Clone, Copy, Debug, PartialEq, Eq, Structural)]
pub enum SourceFault {
    /// A reference is no text.
    NotText,
    /// A reference names no supplied source.
    NotSupplied,
    /// A reference to no source.
    Missing,
    /// A source is too large or of the wrong media type.
    Refused,
}

impl SourceFault {
    /// The words for this fault.
    pub open spec fn text_spec(self) -> Seq<char> {
        match self {
            SourceFault::NotText => "source reference must be a string"@,
            SourceFault::NotSupplied => "source reference was not explicitly supplied"@,
            SourceFault::Missing => "source must be supplied explicitly"@,
            SourceFault::Refused => "source does not satisfy its schema constraints"@,
        }
    }

    /// Returns the words for this fault.
    pub fn text(&self) -> (text: &'static str)
        ensures
            text@ == self.text_spec(),
    {
        match self {
            SourceFault::NotText => "source reference must be a string",
            SourceFault::NotSupplied => "source reference was not explicitly supplied",
            SourceFault::Missing => "source must be supplied explicitly",
            SourceFault::Refused => "source does not satisfy its schema constraints",
        }
    }
}

/// Why the sources to which `value`, read by `schema`, refers are refused, if they
/// are. Null refers to nothing.
pub open spec fn sources_fault(
    schema: JsonValue,
    value: JsonValue,
    sources: Map<Seq<char>, LocalSourceView>,
) -> Option<SourceFault>
    decreases schema, 1nat,
{
    if value is Null {
        None
    } else if is_source_schema(schema) && !(value is Text && sources.dom().contains(value->Text_0)) {
        Some(SourceFault::Missing)
    } else if is_source_schema(schema) && !admits_source(schema, sources[value->Text_0]) {
        Some(SourceFault::Refused)
    } else {
        proof {
            lemma_member_smaller(schema, "properties"@);
            lemma_member_smaller(schema, "items"@);
        }
        let inner = match (member(schema, "properties"@), value) {
            (Some(JsonValue::Object(properties)), JsonValue::Object(members)) => properties_fault(
                properties,
                members,
                sources,
            ),
            _ => None,
        };
        match inner {
            Some(fault) => Some(fault),
            None => match (member(schema, "items"@), value) {
                (Some(child), JsonValue::Array(items)) => elements_fault(child, items, sources),
                _ => None,
            },
        }
    }
}

/// The first fault among the declared properties of an object.
pub open spec fn properties_fault(
    properties: Seq<(Seq<char>, JsonValue)>,
    members: Seq<(Seq<char>, JsonValue)>,
    sources: Map<Seq<char>, LocalSourceView>,
) -> Option<SourceFault>
    decreases properties, 0nat,
{
    if properties.len() == 0 {
        None
    } else {
        match properties_fault(properties.drop_last(), members, sources) {
            Some(fault) => Some(fault),
            None => match lookup(members, properties.last().0) {
                Some(value) => sources_fault(properties.last().1, value, sources),
                None => None,
            },
        }
    }
}

/// The first fault among the items of an array.
pub open spec fn elements_fault(
    schema: JsonValue,
    items: Seq<JsonValue>,
    sources: Map<Seq<char>, LocalSourceView>,
) -> Option<SourceFault>
    decreases schema, 2nat + items.len(),
{
    if items.len() == 0 {
        None
    } else {
        match elements_fault(schema, items.drop_last(), sources) {
            Some(fault) => Some(fault),
            None => sources_fault(schema, items.last(), sources),
        }
    }
}

/// The sources of a table by id.
pub open spec fn source_views(table: Table<LocalSource>) -> Map<Seq<char>, LocalSourceView> {
    table@.map_values(|source: LocalSource| source@)
}

proof fn lemma_properties_fault(
    properties: Seq<(Seq<char>, JsonValue)>,
    members: Seq<(Seq<char>, JsonValue)>,
    sources: Map<Seq<char>, LocalSourceView>,
    count: int,
)
    requires
        0 <= count <= properties.len(),
        properties_fault(properties.take(count), members, sources) is Some,
    ensures
        properties_fault(properties, members, sources) == properties_fault(properties.take(count), members, sources),
    decreases properties.len() - count,
{
    if count == properties.len() {
        assert(properties.take(count) =~= properties);
    } else {
        assert(properties.take(count + 1).drop_last() =~= properties.take(count));
        lemma_properties_fault(properties, members, sources, count + 1);
    }
}

proof fn lemma_elements_fault(
    schema: JsonValue,
    items: Seq<JsonValue>,
    sources: Map<Seq<char>, LocalSourceView>,
    count: int,
)
    requires
        0 <= count <= items.len(),
        elements_fault(schema, items.take(count), sources) is Some,
    ensures
        elements_fault(schema, items, sources) == elements_fault(schema, items.take(count), sources),
    decreases items.len() - count,
{
    if count == items.len() {
        assert(items.take(count) =~= items);
    } else {
        assert(items.take(count + 1).drop_last() =~= items.take(count));
        lemma_elements_fault(schema, items, sources, count + 1);
    }
}

/// Checks every source to which `value`, read by `schema`, refers.
pub fn check_sources(schema: &Json, value: &Json, sources: &Table<LocalSource>) -> (checked: Result<(), SourceFault>)
    requires
        sources.wf(),
    ensures
        match checked {
            Ok(_) => sources_fault(schema@, value@, source_views(*sources)) is None,
            Err(fault) => sources_fault(schema@, value@, source_views(*sources)) == Some(fault),
        },
    decreases schema, 1nat,
{
    let ghost known = source_views(*sources);
    if let Json::Null = value {
        return Ok(());
    }
    if source_schema(schema) {
        let source = match value.as_text() {
            Some(id) => sources.get(id),
            None => None,
        };
        match source {
            None => return Err(SourceFault::Missing),
            Some(source) => {
                if !source_allowed(schema, source) {
                    return Err(SourceFault::Refused);
                }
            },
        }
    }
    match value {
        Json::Object(members) => {
            proof {
                lemma_object(*members);
            }
            if let Some(properties) = schema.get("properties") {
                if let Json::Object(declared) = properties {
                    proof {
                        lemma_object(*declared);
                    }
                    let ghost all = members_of(declared@);
                    let ghost held = members_of(members@);
                    let mut index: usize = 0;
                    assert(all.take(0) =~= Seq::empty());
                    while index < declared.len()
                        invariant
                            index <= declared.len(),
                            sources.wf(),
                            known == source_views(*sources),
                            all == members_of(declared@),
                            held == members_of(members@),
                            *properties == Json::Object(*declared),
                            decreases_to!(*schema => *properties),
                            properties_fault(all.take(index as int), held, known) is None,
                            sources_fault(schema@, value@, known) == properties_fault(all, held, known),
                        decreases declared.len() - index,
                    {
                        assert(decreases_to!(*properties => properties->Object_0));
                        assert(decreases_to!(*declared => declared@));
                        assert(decreases_to!(declared@ => declared@[index as int]));
                        assert(decreases_to!(declared@[index as int] => declared@[index as int].1));
                        proof {
                            assert(all.take(index + 1).drop_last() =~= all.take(index as int));
                            assert(all.take(index + 1).last() == (
                                declared@[index as int].0@,
                                declared@[index as int].1@,
                            ));
                        }
                        if let Some(at) = find_member(members, declared[index].0.as_str()) {
                            match check_sources(&declared[index].1, &members[at].1, sources) {
                                Ok(_) => {},
                                Err(fault) => {
                                    proof {
                                        lemma_properties_fault(all, held, known, index + 1);
                                    }
                                    return Err(fault);
                                },
                            }
                        }
                        index += 1;
                    }
                    assert(all.take(all.len() as int) =~= all);
                }
            }
            Ok(())
        },
        Json::Array(items) => {
            proof {
                lemma_array(*items);
            }
            if let Some(child) = schema.get("items") {
                let ghost all = values_of(items@);
                let mut index: usize = 0;
                assert(all.take(0) =~= Seq::empty());
                while index < items.len()
                    invariant
                        index <= items.len(),
                        sources.wf(),
                        known == source_views(*sources),
                        all == values_of(items@),
                        decreases_to!(*schema => *child),
                        elements_fault(child@, all.take(index as int), known) is None,
                        sources_fault(schema@, value@, known) == elements_fault(child@, all, known),
                    decreases items.len() - index,
                {
                    proof {
                        assert(all.take(index + 1).drop_last() =~= all.take(index as int));
                        assert(all.take(index + 1).last() == items@[index as int]@);
                    }
                    match check_sources(child, &items[index], sources) {
                        Ok(_) => {},
                        Err(fault) => {
                            proof {
                                lemma_elements_fault(child@, all, known, index + 1);
                            }
                            return Err(fault);
                        },
                    }
                    index += 1;
                }
                assert(all.take(all.len() as int) =~= all);
            }
            Ok(())
        },
        _ => Ok(()),
    }
}

/// Checks the sources of a value against the schema that describes it, if one does.
pub fn validate_sources(schema: Option<&Json>, value: &Json, sources: &Table<LocalSource>) -> (checked: Result<(), Error>)
    requires
        sources.wf(),
    ensures
        match schema {
            None => checked is Ok,
            Some(schema) => match sources_fault(schema@, value@, source_views(*sources)) {
                None => checked is Ok,
                Some(fault) => checked matches Err(Error::Invalid(message)) && message@ == fault.text_spec(),
            },
        },
{
    match schema {
        None => Ok(()),
        Some(schema) => match check_sources(schema, value, sources) {
            Ok(_) => Ok(()),
            Err(fault) => Err(Error::Invalid(fault.text().to_owned())),
        },
    }
}

/// The id for which a reference stands: that of the supplied name, or the
/// reference itself where it is a supplied id.
pub open spec fn resolved(ids: Map<Seq<char>, Seq<char>>, reference: Seq<char>) -> Option<Seq<char>> {
    if ids.dom().contains(reference) {
        Some(ids[reference])
    } else if exists|name: Seq<char>| #[trigger] ids.dom().contains(name) && ids[name] == reference {
        Some(reference)
    } else {
        None
    }
}

/// `value`, read by `schema`, with the id of a supplied source in the place of
/// every reference to one.
pub open spec fn rewritten(schema: JsonValue, value: JsonValue, ids: Map<Seq<char>, Seq<char>>) -> Result<
    JsonValue,
    SourceFault,
>
    decreases schema, 1nat,
{
    if value is Null {
        Ok(value)
    } else if is_source_schema(schema) {
        match value {
            JsonValue::Text(reference) => match resolved(ids, reference) {
                Some(id) => Ok(JsonValue::Text(id)),
                None => Err(SourceFault::NotSupplied),
            },
            _ => Err(SourceFault::NotText),
        }
    } else {
        proof {
            lemma_member_smaller(schema, "properties"@);
            lemma_member_smaller(schema, "items"@);
        }
        match value {
            JsonValue::Object(members) => match member(schema, "properties"@) {
                Some(JsonValue::Object(properties)) => match rewritten_members(properties, members, ids) {
                    Ok(members) => Ok(JsonValue::Object(members)),
                    Err(fault) => Err(fault),
                },
                _ => Ok(value),
            },
            JsonValue::Array(items) => match member(schema, "items"@) {
                Some(child) => match rewritten_items(child, items, ids) {
                    Ok(items) => Ok(JsonValue::Array(items)),
                    Err(fault) => Err(fault),
                },
                None => Ok(value),
            },
            _ => Ok(value),
        }
    }
}

/// The members of an object with its declared properties rewritten.
pub open spec fn rewritten_members(
    properties: Seq<(Seq<char>, JsonValue)>,
    members: Seq<(Seq<char>, JsonValue)>,
    ids: Map<Seq<char>, Seq<char>>,
) -> Result<Seq<(Seq<char>, JsonValue)>, SourceFault>
    decreases properties, 0nat,
{
    if properties.len() == 0 {
        Ok(members)
    } else {
        match rewritten_members(properties.drop_last(), members, ids) {
            Err(fault) => Err(fault),
            Ok(before) => match lookup(before, properties.last().0) {
                None => Ok(before),
                Some(value) => match rewritten(properties.last().1, value, ids) {
                    Err(fault) => Err(fault),
                    Ok(value) => Ok(with_member(before, properties.last().0, value)),
                },
            },
        }
    }
}

/// The items of an array rewritten.
pub open spec fn rewritten_items(schema: JsonValue, items: Seq<JsonValue>, ids: Map<Seq<char>, Seq<char>>) -> Result<
    Seq<JsonValue>,
    SourceFault,
>
    decreases schema, 2nat + items.len(),
{
    if items.len() == 0 {
        Ok(Seq::empty())
    } else {
        match rewritten_items(schema, items.drop_last(), ids) {
            Err(fault) => Err(fault),
            Ok(before) => match rewritten(schema, items.last(), ids) {
                Err(fault) => Err(fault),
                Ok(value) => Ok(before.push(value)),
            },
        }
    }
}

proof fn lemma_rewritten_members(
    properties: Seq<(Seq<char>, JsonValue)>,
    members: Seq<(Seq<char>, JsonValue)>,
    ids: Map<Seq<char>, Seq<char>>,
    count: int,
)
    requires
        0 <= count <= properties.len(),
        rewritten_members(properties.take(count), members, ids) is Err,
    ensures
        rewritten_members(properties, members, ids) == rewritten_members(properties.take(count), members, ids),
    decreases properties.len() - count,
{
    if count == properties.len() {
        assert(properties.take(count) =~= properties);
    } else {
        assert(properties.take(count + 1).drop_last() =~= properties.take(count));
        lemma_rewritten_members(properties, members, ids, count + 1);
    }
}

proof fn lemma_rewritten_items(
    schema: JsonValue,
    items: Seq<JsonValue>,
    ids: Map<Seq<char>, Seq<char>>,
    count: int,
)
    requires
        0 <= count <= items.len(),
        rewritten_items(schema, items.take(count), ids) is Err,
    ensures
        rewritten_items(schema, items, ids) == rewritten_items(schema, items.take(count), ids),
    decreases items.len() - count,
{
    if count == items.len() {
        assert(items.take(count) =~= items);
    } else {
        assert(items.take(count + 1).drop_last() =~= items.take(count));
        lemma_rewritten_items(schema, items, ids, count + 1);
    }
}

fn resolve(ids: &Table<String>, reference: &str) -> (id: Option<String>)
    requires
        ids.wf(),
    ensures
        match id {
            Some(id) => resolved(strings(*ids), reference@) == Some(id@),
            None => resolved(strings(*ids), reference@) is None,
        },
{
    if let Some(id) = ids.get(reference) {
        return Some(id.clone());
    }
    let ghost known = strings(*ids);
    let mut index: usize = 0;
    while index < ids.entries.len()
        invariant
            index <= ids.entries.len(),
            ids.wf(),
            known == strings(*ids),
            !known.dom().contains(reference@),
            forall|i: int| 0 <= i < index ==> (#[trigger] ids.entries@[i]).1@ != reference@,
        decreases ids.entries.len() - index,
    {
        if same_text(ids.entries[index].1.as_str(), reference) {
            proof {
                ids.lemma_entry(index as int);
                let name = ids.entries@[index as int].0@;
                assert(known.dom().contains(name) && known[name] == reference@);
            }
            return Some(reference.to_owned());
        }
        index += 1;
    }
    proof {
        assert forall|name: Seq<char>| #[trigger] known.dom().contains(name) implies known[name] != reference@ by {
            let at = ids.names().index_of(name);
            assert(ids.names()[at] == name);
            ids.lemma_entry(at);
            assert(ids.entries@[at].1@ != reference@);
        }
    }
    None
}

/// Puts the ids of supplied sources in the place of references to them.
pub fn rewrite_sources(schema: &Json, value: Json, ids: &Table<String>) -> (output: Result<Json, SourceFault>)
    requires
        ids.wf(),
    ensures
        match output {
            Ok(output) => rewritten(schema@, value@, strings(*ids)) == Ok::<JsonValue, SourceFault>(output@),
            Err(fault) => rewritten(schema@, value@, strings(*ids)) == Err::<JsonValue, SourceFault>(fault),
        },
    decreases schema,
{
    let ghost known = strings(*ids);
    if let Json::Null = value {
        return Ok(value);
    }
    if source_schema(schema) {
        return match value {
            Json::Text(reference) => match resolve(ids, reference.as_str()) {
                Some(id) => Ok(Json::Text(id)),
                None => Err(SourceFault::NotSupplied),
            },
            _ => Err(SourceFault::NotText),
        };
    }
    match value {
        Json::Object(members) => {
            let mut output = members;
            let ghost held = members_of(output@);
            proof {
                lemma_object(members);
            }
            if let Some(properties) = schema.get("properties") {
                if let Json::Object(declared) = properties {
                    proof {
                        lemma_object(*declared);
                    }
                    let ghost all = members_of(declared@);
                    let mut index: usize = 0;
                    assert(all.take(0) =~= Seq::empty());
                    while index < declared.len()
                        invariant
                            index <= declared.len(),
                            ids.wf(),
                            known == strings(*ids),
                            all == members_of(declared@),
                            *properties == Json::Object(*declared),
                            decreases_to!(*schema => *properties),
                            rewritten_members(all.take(index as int), held, known) == Ok::<
                                Seq<(Seq<char>, JsonValue)>,
                                SourceFault,
                            >(members_of(output@)),
                            rewritten(schema@, value@, known) == match rewritten_members(all, held, known) {
                                Ok(members) => Ok::<JsonValue, SourceFault>(JsonValue::Object(members)),
                                Err(fault) => Err::<JsonValue, SourceFault>(fault),
                            },
                        decreases declared.len() - index,
                    {
                        assert(decreases_to!(*properties => properties->Object_0));
                        assert(decreases_to!(*declared => declared@));
                        assert(decreases_to!(declared@ => declared@[index as int]));
                        assert(decreases_to!(declared@[index as int] => declared@[index as int].1));
                        proof {
                            assert(all.take(index + 1).drop_last() =~= all.take(index as int));
                            assert(all.take(index + 1).last() == (
                                declared@[index as int].0@,
                                declared@[index as int].1@,
                            ));
                        }
                        if let Some(at) = find_member(&output, declared[index].0.as_str()) {
                            let ghost before = members_of(output@);
                            let (name, current) = output.remove(at);
                            match rewrite_sources(&declared[index].1, current, ids) {
                                Ok(next) => {
                                    let ghost pair = (name@, next@);
                                    output.insert(at, (name, next));
                                    proof {
                                        lemma_put(before, at as int, pair.0, pair.1);
                                        assert(members_of(output@) =~= before.update(at as int, pair));
                                    }
                                },
                                Err(fault) => {
                                    proof {
                                        lemma_rewritten_members(all, held, known, index + 1);
                                    }
                                    return Err(fault);
                                },
                            }
                        }
                        index += 1;
                    }
                    assert(all.take(all.len() as int) =~= all);
                }
            }
            proof {
                lemma_object(output);
            }
            Ok(Json::Object(output))
        },
        Json::Array(items) => {
            proof {
                lemma_array(items);
            }
            let child = match schema.get("items") {
                Some(child) => child,
                None => return Ok(Json::Array(items)),
            };
            let ghost all = values_of(items@);
            let mut output = items;
            let mut index: usize = 0;
            assert(all.take(0) =~= Seq::empty());
            assert(values_of(output@).take(0) =~= Seq::empty());
            while index < output.len()
                invariant
                    index <= output.len(),
                    ids.wf(),
                    known == strings(*ids),
                    all.len() == output@.len(),
                    values_of(output@).skip(index as int) == all.skip(index as int),
                    decreases_to!(*schema => *child),
                    rewritten_items(child@, all.take(index as int), known) == Ok::<Seq<JsonValue>, SourceFault>(
                        values_of(output@).take(index as int),
                    ),
                    rewritten(schema@, value@, known) == match rewritten_items(child@, all, known) {
                        Ok(items) => Ok::<JsonValue, SourceFault>(JsonValue::Array(items)),
                        Err(fault) => Err::<JsonValue, SourceFault>(fault),
                    },
                decreases output.len() - index,
            {
                let ghost before = values_of(output@);
                proof {
                    assert(all.take(index + 1).drop_last() =~= all.take(index as int));
                    assert(before.skip(index as int)[0] == all.skip(index as int)[0]);
                }
                let mut current = Json::Null;
                core::mem::swap(&mut output[index], &mut current);
                match rewrite_sources(child, current, ids) {
                    Ok(next) => {
                        output.set(index, next);
                        proof {
                            let after = values_of(output@);
                            assert(after =~= before.update(index as int, next@));
                            assert(after.take(index + 1) =~= before.take(index as int).push(next@));
                            assert(after.skip(index + 1) =~= before.skip(index as int).skip(1));
                            assert(all.skip(index + 1) =~= all.skip(index as int).skip(1));
                        }
                    },
                    Err(fault) => {
                        proof {
                            lemma_rewritten_items(child@, all, known, index + 1);
                        }
                        return Err(fault);
                    },
                }
                index += 1;
            }
            proof {
                lemma_array(output);
                assert(all.take(all.len() as int) =~= all);
                assert(values_of(output@).take(all.len() as int) =~= values_of(output@));
            }
            Ok(Json::Array(output))
        },
        other => Ok(other),
    }
}

/// Whether the JSON text of a value takes more than `limit` bytes.
pub fn serialized_exceeds(value: &Json, limit: usize) -> (exceeds: bool)
    ensures
        exceeds == (byte_count(json_text(value@)) > limit),
{
    byte_len(write_json(value).as_str()) > limit
}

/// Checks an object of `length` bytes that is given as `name`. `verdict` is what the schema
/// validator says of it, where a schema is declared.
pub fn validate_sized(
    length: usize,
    declared: bool,
    value: &Json,
    limit: usize,
    name: &str,
    verdict: Result<(), Vec<Finding>>,
) -> (checked: Result<(), Error>)
    ensures
        if length > limit {
            checked matches Err(Error::Invalid(message)) && message@ == name@ + " exceeds "@ + decimal(limit as nat)
                + " bytes"@
        } else if declared {
            match verdict {
                Ok(_) => checked is Ok,
                Err(findings) => checked == Err::<(), _>(Error::Validation(findings)),
            }
        } else if value@ != JsonValue::Object(Seq::empty()) {
            checked matches Err(Error::Invalid(message)) && message@ == name@ + " is not declared"@
        } else {
            checked is Ok
        },
{
    if length > limit {
        let mut message = joined(name, " exceeds ");
        push_text(&mut message, write_decimal(limit as u64).as_str());
        push_text(&mut message, " bytes");
        return Err(Error::Invalid(message));
    }
    if declared {
        return match verdict {
            Ok(_) => Ok(()),
            Err(findings) => Err(Error::Validation(findings)),
        };
    }
    if !value.is_empty_object() {
        return Err(Error::Invalid(joined(name, " is not declared")));
    }
    Ok(())
}

/// Checks parameters or a configuration. `verdict` is what the schema validator
/// says of the value, where a schema is declared.
pub fn validate_object(
    declared: bool,
    value: &Json,
    limit: usize,
    name: &str,
    verdict: Result<(), Vec<Finding>>,
) -> (checked: Result<(), Error>)
    ensures
        if byte_count(json_text(value@)) > limit {
            checked matches Err(Error::Invalid(message)) && message@ == name@ + " exceeds "@ + decimal(limit as nat)
                + " bytes"@
        } else if declared {
            match verdict {
                Ok(_) => checked is Ok,
                Err(findings) => checked == Err::<(), _>(Error::Validation(findings)),
            }
        } else if value@ != JsonValue::Object(Seq::empty()) {
            checked matches Err(Error::Invalid(message)) && message@ == name@ + " is not declared"@
        } else {
            checked is Ok
        },
{
    validate_sized(byte_len(write_json(value).as_str()), declared, value, limit, name, verdict)
}

/// The environment variable that holds the token of a connection.
pub open spec fn variable_of(connection: Seq<char>) -> Seq<char> {
    "SLOPER_TOKEN_"@ + connection.map_values(|character: char| variable_character(character))
}

/// A character of a connection's name in the name of its variable.
pub open spec fn variable_character(character: char) -> char {
    if character == '-' {
        '_'
    } else {
        capital(character)
    }
}

/// Returns the environment variable that holds the token of a connection.
pub fn token_variable(connection: &str) -> (variable: String)
    ensures
        variable@ == variable_of(connection@),
{
    let characters = chars_of(connection);
    let mut variable = "SLOPER_TOKEN_".to_owned();
    let ghost start = variable@;
    let ghost all = connection@.map_values(|character: char| variable_character(character));
    let mut index: usize = 0;
    assert(start + all.take(0) =~= start);
    while index < characters.len()
        invariant
            index <= characters.len(),
            characters@ == connection@,
            all == connection@.map_values(|character: char| variable_character(character)),
            variable@ == start + all.take(index as int),
        decreases characters.len() - index,
    {
        let character = characters[index];
        let ghost before = variable@;
        if character == '-' {
            push_char(&mut variable, '_');
        } else {
            push_char(&mut variable, to_capital(character));
        }
        assert(start + all.take(index + 1) =~= before.push(variable_character(character)));
        index += 1;
    }
    assert(all.take(all.len() as int) =~= all);
    variable
}

/// What the environment holds of a variable.
pub enum Variable {
    Present(String),
    Absent,
    NotUnicode,
}

/// Decides on the token of a connection: an absent variable gives none.
pub fn admit_token(variable: &str, held: Variable) -> (token: Result<Option<String>, Error>)
    ensures
        match held {
            Variable::Absent => token == Ok::<Option<String>, Error>(None),
            Variable::NotUnicode => token matches Err(Error::Usage(message)) && message@ == variable@
                + " must be UTF-8"@,
            Variable::Present(value) => if 0 < value@.len() && byte_count(value@) <= MAX_TOKEN_BYTES {
                token == Ok::<_, Error>(Some(value))
            } else {
                token matches Err(Error::Invalid(message)) && message@ == variable@
                    + " must contain between 1 and 16384 bytes"@
            },
        },
{
    match held {
        Variable::Absent => Ok(None),
        Variable::NotUnicode => Err(Error::Usage(joined(variable, " must be UTF-8"))),
        Variable::Present(value) => {
            if !value.as_str().is_empty() && byte_len(value.as_str()) <= MAX_TOKEN_BYTES {
                Ok(Some(value))
            } else {
                Err(Error::Invalid(joined(variable, " must contain between 1 and 16384 bytes")))
            }
        },
    }
}

/// A line of a fixture without its line end.
pub open spec fn line_contents(line: Seq<u8>) -> Seq<u8> {
    let unbroken = if line.len() > 0 && line.last() == 0x0a {
        line.drop_last()
    } else {
        line
    };
    if unbroken.len() > 0 && unbroken.last() == 0x0d {
        unbroken.drop_last()
    } else {
        unbroken
    }
}

/// Takes the line end off a line of a fixture, and checks the length of the item.
///
/// `path` and `position` say where the line stands.
pub fn fixture_line<'a>(line: &'a [u8], path: &str, position: u64) -> (item: Result<&'a [u8], Error>)
    ensures
        if line_contents(line@).len() > MAX_FIXTURE_ITEM {
            item matches Err(Error::Invalid(message)) && message@ == path@ + ":"@ + decimal(position as nat)
                + ": reader item exceeds 1 MiB"@
        } else {
            item matches Ok(item) && item@ == line_contents(line@)
        },
{
    let mut end = line.len();
    if end > 0 && line[end - 1] == 0x0a {
        end -= 1;
        assert(line@.subrange(0, end as int) =~= line@.drop_last());
    } else {
        assert(line@.subrange(0, end as int) =~= line@);
    }
    if end > 0 && line[end - 1] == 0x0d {
        assert(line@.subrange(0, end - 1) =~= line@.subrange(0, end as int).drop_last());
        end -= 1;
    }
    if end > MAX_FIXTURE_ITEM {
        let mut message = joined(path, ":");
        push_text(&mut message, write_decimal(position).as_str());
        push_text(&mut message, ": reader item exceeds 1 MiB");
        return Err(Error::Invalid(message));
    }
    Ok(vstd::slice::slice_subrange(line, 0, end))
}

/// Reads one item of a fixture: a strict JSON object, with the ids of supplied
/// sources in the place of references to them.
///
/// `parsed` is the value of the line, where it is a strict JSON object.
pub fn fixture_item(schema: &Json, parsed: Option<Json>, ids: &Table<String>, path: &str, position: u64) -> (item: Result<
    Json,
    Error,
>)
    requires
        ids.wf(),
    ensures
        match parsed {
            None => item matches Err(Error::Usage(message)) && message@ == path@ + ":"@ + decimal(position as nat)
                + ": expected a JSON object without duplicate keys"@,
            Some(value) => match rewritten(schema@, value@, strings(*ids)) {
                Ok(expected) => item matches Ok(item) && item@ == expected,
                Err(fault) => item matches Err(Error::Invalid(message)) && message@ == fault.text_spec(),
            },
        },
{
    match parsed {
        None => {
            let mut message = joined(path, ":");
            push_text(&mut message, write_decimal(position).as_str());
            push_text(&mut message, ": expected a JSON object without duplicate keys");
            Err(Error::Usage(message))
        },
        Some(value) => match rewrite_sources(schema, value, ids) {
            Ok(item) => Ok(item),
            Err(fault) => Err(Error::Invalid(fault.text().to_owned())),
        },
    }
}

/// Accepts a rewritten item that the schema validator accepted, and whose sources
/// satisfy the schema.
pub fn accept_item(
    schema: &Json,
    item: &Json,
    sources: &Table<LocalSource>,
    verdict: Result<(), Vec<Finding>>,
) -> (accepted: Result<(), Error>)
    requires
        sources.wf(),
    ensures
        match verdict {
            Err(findings) => accepted == Err::<(), _>(Error::Validation(findings)),
            Ok(_) => match sources_fault(schema@, item@, source_views(*sources)) {
                None => accepted is Ok,
                Some(fault) => accepted matches Err(Error::Invalid(message)) && message@ == fault.text_spec(),
            },
        },
{
    match verdict {
        Err(findings) => Err(Error::Validation(findings)),
        Ok(_) => validate_sources(Some(schema), item, sources),
    }
}

/// The parameters with the id of each supplied source under its property, where
/// the action declares that property as a source.
pub open spec fn bound_members(
    parameters: Option<JsonValue>,
    members: Seq<(Seq<char>, JsonValue)>,
    ids: Seq<(Seq<char>, Seq<char>)>,
) -> Seq<(Seq<char>, JsonValue)>
    decreases ids.len(),
{
    if ids.len() == 0 {
        members
    } else {
        let before = bound_members(parameters, members, ids.drop_last());
        let (property, id) = ids.last();
        if declares_source(parameters, property) {
            with_member(before, property, JsonValue::Text(id))
        } else {
            before
        }
    }
}

/// The schema declares `property` as a source.
pub open spec fn declares_source(schema: Option<JsonValue>, property: Seq<char>) -> bool {
    schema matches Some(schema) && (declared_schema(schema, property) matches Some(child) && is_source_schema(child))
}

/// The names and values of a table of strings, in order.
pub open spec fn string_entries(table: Table<String>) -> Seq<(Seq<char>, Seq<char>)> {
    table.entries@.map_values(|entry: (String, String)| (entry.0@, entry.1@))
}

/// Why supplied sources cannot be put into the parameters of a run.
pub ghost enum BindFault {
    /// The parameters are no object.
    NotObject,
    /// A reference in them is refused.
    Source(SourceFault),
}

/// The parameters of a run with the ids of the supplied sources in them.
pub open spec fn bound_parameters(
    schema: Option<JsonValue>,
    parameters: JsonValue,
    ids: Table<String>,
) -> Result<JsonValue, BindFault> {
    if !(parameters is Object) && exists|index: int|
        0 <= index < string_entries(ids).len() && declares_source(schema, (#[trigger] string_entries(ids)[index]).0) {
        Err(BindFault::NotObject)
    } else {
        let bound = match parameters {
            JsonValue::Object(members) => JsonValue::Object(bound_members(schema, members, string_entries(ids))),
            other => other,
        };
        match schema {
            None => Ok(bound),
            Some(schema) => match rewritten(schema, bound, strings(ids)) {
                Ok(value) => Ok(value),
                Err(fault) => Err(BindFault::Source(fault)),
            },
        }
    }
}

fn is_declared_source(schema: Option<&Json>, property: &str) -> (declared: bool)
    ensures
        declared == declares_source(
            match schema {
                Some(schema) => Some(schema@),
                None => None,
            },
            property@,
        ),
{
    match schema {
        Some(schema) => match find_declared(schema, property) {
            Some(child) => source_schema(child),
            None => false,
        },
        None => false,
    }
}

/// Puts the ids of the supplied sources into the parameters of a run: under each
/// property that the action declares as a source, and in the place of every
/// reference to a supplied source.
pub fn bind_parameters(schema: Option<&Json>, parameters: Json, ids: &Table<String>) -> (output: Result<Json, Error>)
    requires
        ids.wf(),
    ensures
        match bound_parameters(
            match schema {
                Some(schema) => Some(schema@),
                None => None,
            },
            parameters@,
            *ids,
        ) {
            Ok(expected) => output matches Ok(output) && output@ == expected,
            Err(BindFault::NotObject) => output matches Err(Error::Usage(message)) && message@
                == "parameters must be an object"@,
            Err(BindFault::Source(fault)) => output matches Err(Error::Invalid(message)) && message@
                == fault.text_spec(),
        },
{
    let ghost described = match schema {
        Some(schema) => Some(schema@),
        None => None,
    };
    let ghost listed = string_entries(*ids);
    let bound = match parameters {
        Json::Object(members) => {
            proof {
                lemma_object(members);
            }
            let ghost held = members_of(members@);
            let mut output = members;
            let mut index: usize = 0;
            assert(listed.take(0) =~= Seq::empty());
            while index < ids.entries.len()
                invariant
                    index <= ids.entries.len(),
                    listed == string_entries(*ids),
                    described == match schema {
                        Some(schema) => Some(schema@),
                        None => None,
                    },
                    members_of(output@) == bound_members(described, held, listed.take(index as int)),
                decreases ids.entries.len() - index,
            {
                let entry = &ids.entries[index];
                proof {
                    assert(listed.take(index + 1).drop_last() =~= listed.take(index as int));
                    assert(listed.take(index + 1).last() == (entry.0@, entry.1@));
                }
                if is_declared_source(schema, entry.0.as_str()) {
                    put_member(&mut output, entry.0.clone(), Json::Text(entry.1.clone()));
                }
                index += 1;
            }
            proof {
                lemma_object(output);
                assert(listed.take(listed.len() as int) =~= listed);
            }
            Json::Object(output)
        },
        other => {
            let mut index: usize = 0;
            while index < ids.entries.len()
                invariant
                    index <= ids.entries.len(),
                    listed == string_entries(*ids),
                    !(other is Object),
                    parameters == other,
                    described == match schema {
                        Some(schema) => Some(schema@),
                        None => None,
                    },
                    forall|i: int| 0 <= i < index ==> !declares_source(described, (#[trigger] listed[i]).0),
                decreases ids.entries.len() - index,
            {
                assert(listed[index as int].0 == ids.entries@[index as int].0@);
                if is_declared_source(schema, ids.entries[index].0.as_str()) {
                    return Err(Error::Usage("parameters must be an object".to_owned()));
                }
                index += 1;
            }
            other
        },
    };
    match schema {
        None => Ok(bound),
        Some(schema) => match rewrite_sources(schema, bound, ids) {
            Ok(value) => Ok(value),
            Err(fault) => Err(Error::Invalid(fault.text().to_owned())),
        },
    }
}

/// Checks that what was read of a file keeps within its limit.
pub fn check_bounded(path: &str, length: usize, limit: u64) -> (checked: Result<(), Error>)
    ensures
        if length <= limit {
            checked == Ok::<(), Error>(())
        } else {
            checked matches Err(Error::Invalid(message)) && message@ == path@ + " exceeds its "@ + decimal(limit as nat)
                + "-byte limit"@
        },
{
    if length as u64 <= limit {
        return Ok(());
    }
    let mut message = joined(path, " exceeds its ");
    push_text(&mut message, write_decimal(limit).as_str());
    push_text(&mut message, "-byte limit");
    Err(Error::Invalid(message))
}

/// Returns the action that the arguments ask for.
pub fn select_action<'a>(arguments: &Arguments, manifest: &'a Manifest) -> (action: Result<&'a Action, Error>)
    requires
        manifest.actions.wf(),
    ensures
        match text_in(lookup(members_of(arguments@), "action"@)) {
            None => action matches Err(Error::Usage(message)) && message@ == "action"@ + " is required"@,
            Some(name) => if manifest.actions@.dom().contains(name) {
                action == Ok::<_, Error>(&manifest.actions@[name])
            } else {
                action matches Err(Error::Invalid(message)) && message@ == "unknown extension action"@
            },
        },
{
    let name = match text(arguments, "action") {
        Ok(name) => name,
        Err(error) => return Err(error),
    };
    match manifest.actions.get(name) {
        Some(action) => Ok(action),
        None => Err(Error::Invalid("unknown extension action".to_owned())),
    }
}

/// Takes a file as a source. `filename` is its name, where that is Unicode, `verdict` what
/// the rules for filenames say of it, and `media_type` what its bytes look like.
pub fn supply_source(
    path: &str,
    bytes: Vec<u8>,
    filename: Option<String>,
    verdict: Result<(), String>,
    media_type: Option<String>,
) -> (source: Result<LocalSource, Error>)
    ensures
        if bytes@.len() > MAX_SOURCE_BYTES {
            source matches Err(Error::Invalid(message)) && message@ == path@ + " exceeds its "@ + decimal(
                MAX_SOURCE_BYTES as nat,
            ) + "-byte limit"@
        } else {
            match filename {
                None => source matches Err(Error::Usage(message)) && message@ == "source filename must be UTF-8"@,
                Some(filename) => match verdict {
                    Err(words) => source == Err::<LocalSource, _>(Error::SourceFilename(words)),
                    Ok(_) => source matches Ok(source) && source.filename == filename && source.bytes == bytes
                        && source.media_type@ == match media_type {
                        Some(media_type) => media_type@,
                        None => "application/octet-stream"@,
                    },
                },
            }
        },
{
    match check_bounded(path, bytes.len(), MAX_SOURCE_BYTES) {
        Ok(_) => {},
        Err(error) => return Err(error),
    }
    let filename = match filename {
        Some(filename) => filename,
        None => return Err(Error::Usage("source filename must be UTF-8".to_owned())),
    };
    match verdict {
        Ok(_) => {},
        Err(words) => return Err(Error::SourceFilename(words)),
    }
    let media_type = match media_type {
        Some(media_type) => media_type,
        None => "application/octet-stream".to_owned(),
    };
    Ok(LocalSource { filename, media_type, bytes })
}

/// Takes an object out of the arguments; one that is not there is empty.
pub fn take_object(arguments: &mut Arguments, name: &str) -> (value: Json)
    ensures
        members_of(final(arguments)@) == without_member(members_of(old(arguments)@), name@),
        value@ == match lookup(members_of(old(arguments)@), name@) {
            Some(found) => found,
            None => JsonValue::Object(Seq::empty()),
        },
{
    match take_member(arguments, name) {
        Some(value) => value,
        None => {
            let empty: Vec<(String, Json)> = Vec::new();
            proof {
                lemma_object(empty);
                assert(members_of(empty@) =~= Seq::empty());
            }
            Json::Object(empty)
        },
    }
}

/// The longest parameters of a run, in bytes.
pub const MAX_PARAMETERS: usize = 8 * 1024 * 1024;

/// The longest configuration of an extension, in bytes.
pub const MAX_CONFIGURATION: usize = 256 * 1024;

/// Checks the parameters of a run, in which the ids of the supplied sources stand.
/// `verdict` is what the schema validator says of them, where a schema is declared.
pub fn accept_parameters(
    schema: Option<&Json>,
    parameters: &Json,
    verdict: Result<(), Vec<Finding>>,
    sources: &Table<LocalSource>,
) -> (accepted: Result<(), Error>)
    requires
        sources.wf(),
    ensures
        if byte_count(json_text(parameters@)) > MAX_PARAMETERS {
            accepted matches Err(Error::Invalid(message)) && message@ == "parameters"@ + " exceeds "@ + decimal(
                MAX_PARAMETERS as nat,
            ) + " bytes"@
        } else {
            match schema {
                None => if parameters@ != JsonValue::Object(Seq::empty()) {
                    accepted matches Err(Error::Invalid(message)) && message@ == "parameters"@ + " is not declared"@
                } else {
                    accepted == Ok::<(), Error>(())
                },
                Some(schema) => match verdict {
                    Err(findings) => accepted == Err::<(), _>(Error::Validation(findings)),
                    Ok(_) => match sources_fault(schema@, parameters@, source_views(*sources)) {
                        None => accepted == Ok::<(), Error>(()),
                        Some(fault) => accepted matches Err(Error::Invalid(message)) && message@ == fault.text_spec(),
                    },
                },
            }
        },
{
    match validate_object(schema.is_some(), parameters, MAX_PARAMETERS, "parameters", verdict) {
        Ok(_) => {},
        Err(error) => return Err(error),
    }
    match validate_sources(schema, parameters, sources) {
        Ok(_) => Ok(()),
        Err(error) => Err(error),
    }
}

/// Checks that a fixture is for a resource that the action reads.
pub fn require_reader(readers: &Table<Vec<Json>>, name: &str) -> (required: Result<(), Error>)
    requires
        readers.wf(),
    ensures
        if readers@.dom().contains(name@) {
            required == Ok::<(), Error>(())
        } else {
            required matches Err(Error::Invalid(message)) && message@ == name@
                + " is not a reader declared by this action"@
        },
{
    if readers.contains(name) {
        Ok(())
    } else {
        Err(Error::Invalid(joined(name, " is not a reader declared by this action")))
    }
}

/// An argument gives a file under a name exactly where it is a text of the name, the first
/// equals sign and the path, neither of them empty.
pub proof fn law_file_arguments(entry: JsonValue, name: Seq<char>, path: Seq<char>)
    ensures
        file_entry(entry) == Some((name, path)) <==> {
            &&& entry == JsonValue::Text(name + seq!['='] + path)
            &&& !name.contains('=')
            &&& name.len() > 0 && path.len() > 0
        },
{
    let whole = name + seq!['='] + path;
    if let JsonValue::Text(text) = entry {
        lemma_cut(text, '=');
        if file_entry(entry) == Some((name, path)) {
            assert(cut(text, '=') == Some((name, path)));
            assert(text =~= whole);
            assert(!name.contains('=')) by {
                if name.contains('=') {
                    let at = choose|at: int| 0 <= at < name.len() && name[at] == '=';
                    assert(text[at] == '=');
                }
            }
        }
        if text == whole && !name.contains('=') && name.len() > 0 && path.len() > 0 {
            assert(text[name.len() as int] == '=');
            assert forall|i: int| 0 <= i < name.len() implies text[i] != '=' by {
                assert(text[i] == name[i]);
            }
            lemma_cut_at(text, '=', name.len() as int);
            assert(text.take(name.len() as int) =~= name);
            assert(text.skip(name.len() as int + 1) =~= path);
        }
    }
}

/// The name under which an argument gives a file.
pub open spec fn given_name(entry: JsonValue) -> Seq<char> {
    match file_entry(entry) {
        Some((name, _)) => name,
        None => Seq::empty(),
    }
}

/// The path of the file that an argument gives.
pub open spec fn given_path(entry: JsonValue) -> Seq<char> {
    match file_entry(entry) {
        Some((_, path)) => path,
        None => Seq::empty(),
    }
}

/// The files that are given are found under their names, each name is given once, and
/// nothing else is found; names that are given once are accepted.
pub proof fn law_files_are_found(entries: Seq<JsonValue>, files: Map<Seq<char>, Seq<char>>, argument: Seq<char>)
    ensures
        file_entries(entries, files, argument) is Ok <==> {
            &&& forall|i: int| 0 <= i < entries.len() ==> file_entry(#[trigger] entries[i]) is Some
            &&& forall|i: int|
                0 <= i < entries.len() ==> !files.dom().contains(given_name(#[trigger] entries[i]))
            &&& forall|i: int, j: int|
                0 <= i < j < entries.len() ==> given_name(#[trigger] entries[i]) != given_name(#[trigger] entries[j])
        },
        file_entries(entries, files, argument) matches Ok(found) ==> {
            &&& forall|i: int|
                0 <= i < entries.len() ==> found.dom().contains(given_name(#[trigger] entries[i]))
                    && found[given_name(entries[i])] == given_path(entries[i])
            &&& forall|name: Seq<char>| #[trigger]
                files.dom().contains(name) ==> found.dom().contains(name) && found[name] == files[name]
            &&& forall|name: Seq<char>| #[trigger]
                found.dom().contains(name) ==> files.dom().contains(name) || gives(entries, name)
        },
    decreases entries.len(),
{
    if entries.len() > 0 {
        let rest = entries.drop_first();
        assert forall|i: int| 0 < i < entries.len() implies #[trigger] entries[i] == rest[i - 1] by {}
        assert forall|i: int| 0 <= i < rest.len() implies #[trigger] rest[i] == entries[i + 1] by {}
        if let Some((name, path)) = file_entry(entries[0]) {
            let more = files.insert(name, path);
            law_files_are_found(rest, more, argument);
            if !files.dom().contains(name) && file_entries(rest, more, argument) is Ok {
                let found = file_entries(rest, more, argument)->Ok_0;
                assert(more.dom().contains(name));
                assert forall|i: int| 0 <= i < entries.len() implies found.dom().contains(
                    given_name(#[trigger] entries[i]),
                ) && found[given_name(entries[i])] == given_path(entries[i]) by {
                    if i > 0 {
                        assert(entries[i] == rest[i - 1]);
                    }
                }
                assert forall|i: int| 0 <= i < entries.len() implies !files.dom().contains(
                    given_name(#[trigger] entries[i]),
                ) by {
                    if i > 0 {
                        assert(!more.dom().contains(given_name(rest[i - 1])));
                    }
                }
                assert forall|i: int, j: int| 0 <= i < j < entries.len() implies given_name(#[trigger] entries[i])
                    != given_name(#[trigger] entries[j]) by {
                    assert(!more.dom().contains(given_name(rest[j - 1])));
                    if i > 0 {
                        assert(entries[i] == rest[i - 1]);
                    }
                }
                assert forall|other: Seq<char>| #[trigger] files.dom().contains(other) implies found.dom().contains(other)
                    && found[other] == files[other] by {
                    assert(more.dom().contains(other));
                }
                assert forall|other: Seq<char>| #[trigger] found.dom().contains(other) implies files.dom().contains(other)
                    || gives(entries, other) by {
                    if other == name {
                        assert(given_name(entries[0]) == other);
                    } else if !more.dom().contains(other) {
                        let i = choose|i: int|
                            0 <= i < rest.len() && file_entry(#[trigger] rest[i]) is Some && given_name(rest[i])
                                == other;
                        assert(entries[i + 1] == rest[i]);
                    }
                }
            }
            if file_entries(entries, files, argument) is Err && (forall|i: int|
                0 <= i < entries.len() ==> file_entry(#[trigger] entries[i]) is Some) && (forall|i: int|
                0 <= i < entries.len() ==> !files.dom().contains(given_name(#[trigger] entries[i]))) && (forall|
                i: int,
                j: int,
            |
                0 <= i < j < entries.len() ==> given_name(#[trigger] entries[i]) != given_name(#[trigger] entries[j])) {
                assert(!files.dom().contains(given_name(entries[0])));
                assert forall|i: int| 0 <= i < rest.len() implies !more.dom().contains(
                    given_name(#[trigger] rest[i]),
                ) by {
                    assert(given_name(entries[0]) != given_name(entries[i + 1]));
                }
                assert forall|i: int| 0 <= i < rest.len() implies file_entry(#[trigger] rest[i]) is Some by {
                    assert(file_entry(entries[i + 1]) is Some);
                }
                assert forall|i: int, j: int| 0 <= i < j < rest.len() implies given_name(#[trigger] rest[i])
                    != given_name(#[trigger] rest[j]) by {
                    assert(given_name(entries[i + 1]) != given_name(entries[j + 1]));
                }
            }
        }
    }
}

/// One of the arguments gives a file under a name.
pub open spec fn gives(entries: Seq<JsonValue>, name: Seq<char>) -> bool {
    exists|i: int| 0 <= i < entries.len() && file_entry(#[trigger] entries[i]) is Some && given_name(entries[i]) == name
}

/// A source is admitted within the size that its schema allows, a hundred mebibytes where it
/// says nothing, and with one of the media types that it lists, where it lists any.
pub proof fn law_admitted_sources(schema: JsonValue, source: LocalSourceView)
    ensures
        admits_source(schema, source) <==> {
            let limit = member(schema, "maxBytes"@);
            let types = member(schema, "mediaTypes"@);
            &&& match limit {
                Some(JsonValue::Number(NumberView::Unsigned(maximum))) => source.bytes.len() <= maximum,
                _ => source.bytes.len() <= 104_857_600,
            }
            &&& types is Some && types->0 is Array ==> exists|i: int|
                0 <= i < types->0->Array_0.len() && #[trigger] types->0->Array_0[i] == JsonValue::Text(source.media_type)
        },
{
}

/// What stands for a source is accepted exactly where it is nothing, or names a supplied
/// source that its schema admits.
pub proof fn law_named_sources(schema: JsonValue, value: JsonValue, sources: Map<Seq<char>, LocalSourceView>)
    requires
        is_source_schema(schema),
    ensures
        sources_fault(schema, value, sources) is None <==> value is Null || (value is Text && sources.dom().contains(
            value->Text_0,
        ) && admits_source(schema, sources[value->Text_0])),
{
}

/// The sources of an object are those of its properties that are there: all are checked.
pub proof fn law_sources_of_properties(
    properties: Seq<(Seq<char>, JsonValue)>,
    members: Seq<(Seq<char>, JsonValue)>,
    sources: Map<Seq<char>, LocalSourceView>,
)
    ensures
        properties_fault(properties, members, sources) is None <==> forall|i: int|
            0 <= i < properties.len() && lookup(members, (#[trigger] properties[i]).0) is Some ==> sources_fault(
                properties[i].1,
                lookup(members, properties[i].0)->0,
                sources,
            ) is None,
    decreases properties.len(),
{
    if properties.len() > 0 {
        let rest = properties.drop_last();
        law_sources_of_properties(rest, members, sources);
        assert forall|i: int| 0 <= i < rest.len() implies #[trigger] rest[i] == properties[i] by {}
        if properties_fault(rest, members, sources) is Some {
            let i = choose|i: int|
                0 <= i < rest.len() && lookup(members, (#[trigger] rest[i]).0) is Some && sources_fault(
                    rest[i].1,
                    lookup(members, rest[i].0)->0,
                    sources,
                ) is Some;
            assert(properties[i] == rest[i]);
        } else {
            assert forall|i: int|
                0 <= i < properties.len() && lookup(members, (#[trigger] properties[i]).0) is Some && i
                    < properties.len() - 1 implies sources_fault(
                properties[i].1,
                lookup(members, properties[i].0)->0,
                sources,
            ) is None by {
                assert(rest[i] == properties[i]);
            }
            assert(properties.last() == properties[properties.len() - 1]);
        }
    }
}

/// The sources of an array are those of its items: all are checked.
pub proof fn law_sources_of_items(schema: JsonValue, items: Seq<JsonValue>, sources: Map<Seq<char>, LocalSourceView>)
    ensures
        elements_fault(schema, items, sources) is None <==> forall|i: int|
            0 <= i < items.len() ==> sources_fault(schema, #[trigger] items[i], sources) is None,
    decreases items.len(),
{
    if items.len() > 0 {
        let rest = items.drop_last();
        law_sources_of_items(schema, rest, sources);
        assert forall|i: int| 0 <= i < rest.len() implies #[trigger] rest[i] == items[i] by {}
        if elements_fault(schema, rest, sources) is Some {
            let i = choose|i: int| 0 <= i < rest.len() && sources_fault(schema, #[trigger] rest[i], sources) is Some;
            assert(items[i] == rest[i]);
        } else {
            assert forall|i: int| 0 <= i < items.len() - 1 implies sources_fault(schema, #[trigger] items[i], sources) is None by {
                assert(rest[i] == items[i]);
            }
            assert(items.last() == items[items.len() - 1]);
        }
    }
}

/// Sources are looked for wherever a schema leads: in the properties of an object and in the
/// items of an array; in a value that its schema says nothing of there are none.
pub proof fn law_sources_are_looked_for(schema: JsonValue, value: JsonValue, sources: Map<Seq<char>, LocalSourceView>)
    requires
        !is_source_schema(schema),
    ensures
        ({
            let properties = member(schema, "properties"@);
            let child = member(schema, "items"@);
            &&& value is Object && properties is Some && properties->0 is Object ==> sources_fault(schema, value, sources)
                == properties_fault(properties->0->Object_0, value->Object_0, sources)
            &&& value is Array && child is Some ==> sources_fault(schema, value, sources) == elements_fault(
                child->0,
                value->Array_0,
                sources,
            )
            &&& !(value is Object) && !(value is Array) ==> sources_fault(schema, value, sources) is None
        }),
{
    lemma_member_smaller(schema, "properties"@);
    lemma_member_smaller(schema, "items"@);
}

/// A reference resolves to the id of the source of that name, or is an id itself; what it
/// resolves to is the id of a supplied source.
pub proof fn law_references_resolve(ids: Map<Seq<char>, Seq<char>>, reference: Seq<char>)
    ensures
        ids.dom().contains(reference) ==> resolved(ids, reference) == Some(ids[reference]),
        resolved(ids, reference) matches Some(id) ==> exists|name: Seq<char>| #[trigger]
            ids.dom().contains(name) && ids[name] == id,
        resolved(ids, reference) is None <==> !ids.dom().contains(reference) && forall|name: Seq<char>| #[trigger]
            ids.dom().contains(name) ==> ids[name] != reference,
{
}

/// Where a source is declared, the name of a supplied one is replaced by its id, nothing
/// stays nothing, and anything else is refused.
pub proof fn law_references_are_rewritten(schema: JsonValue, value: JsonValue, ids: Map<Seq<char>, Seq<char>>)
    requires
        is_source_schema(schema),
    ensures
        value is Null ==> rewritten(schema, value, ids) == Ok::<JsonValue, SourceFault>(value),
        value matches JsonValue::Text(name) ==> {
            &&& resolved(ids, name) is Some ==> rewritten(schema, value, ids) == Ok::<JsonValue, SourceFault>(
                JsonValue::Text(resolved(ids, name)->0),
            )
            &&& resolved(ids, name) is None ==> rewritten(schema, value, ids) == Err::<JsonValue, SourceFault>(
                SourceFault::NotSupplied,
            )
        },
        !(value is Null) && !(value is Text) ==> rewritten(schema, value, ids) == Err::<JsonValue, SourceFault>(
            SourceFault::NotText,
        ),
{
}

/// Every item of an array is rewritten in its place, and the array is refused only for one
/// of its items.
pub proof fn law_items_are_rewritten(schema: JsonValue, items: Seq<JsonValue>, ids: Map<Seq<char>, Seq<char>>)
    ensures
        rewritten_items(schema, items, ids) is Ok <==> forall|i: int|
            0 <= i < items.len() ==> rewritten(schema, #[trigger] items[i], ids) is Ok,
        rewritten_items(schema, items, ids) matches Ok(output) ==> output.len() == items.len() && forall|i: int|
            0 <= i < items.len() ==> rewritten(schema, #[trigger] items[i], ids) == Ok::<JsonValue, SourceFault>(output[i]),
    decreases items.len(),
{
    if items.len() > 0 {
        let rest = items.drop_last();
        law_items_are_rewritten(schema, rest, ids);
        assert forall|i: int| 0 <= i < rest.len() implies #[trigger] rest[i] == items[i] by {}
        assert(items.last() == items[items.len() - 1]);
        if let Ok(before) = rewritten_items(schema, rest, ids) {
            assert forall|i: int| 0 <= i < items.len() - 1 implies rewritten(schema, #[trigger] items[i], ids) == Ok::<
                JsonValue,
                SourceFault,
            >(before[i]) by {
                assert(rest[i] == items[i]);
            }
        } else {
            let i = choose|i: int| 0 <= i < rest.len() && rewritten(schema, #[trigger] rest[i], ids) is Err;
            assert(items[i] == rest[i]);
        }
    }
}

/// A property is declared under a name.
pub open spec fn declares(properties: Seq<(Seq<char>, JsonValue)>, name: Seq<char>) -> bool {
    exists|i: int| 0 <= i < properties.len() && (#[trigger] properties[i]).0 == name
}

/// Every declared property that an object has is rewritten by its own schema; what is not
/// declared stays as it is, and no member comes or goes.
pub proof fn law_members_are_rewritten(
    properties: Seq<(Seq<char>, JsonValue)>,
    members: Seq<(Seq<char>, JsonValue)>,
    ids: Map<Seq<char>, Seq<char>>,
    name: Seq<char>,
)
    requires
        forall|i: int, j: int| 0 <= i < j < properties.len() ==> (#[trigger] properties[i]).0 != (#[trigger] properties[j]).0,
    ensures
        rewritten_members(properties, members, ids) matches Ok(output) ==> {
            &&& output.len() == members.len()
            &&& !declares(properties, name) ==> lookup(output, name) == lookup(members, name)
            &&& lookup(members, name) is None <==> lookup(output, name) is None
            &&& forall|i: int|
                0 <= i < properties.len() && (#[trigger] properties[i]).0 == name && lookup(members, name) is Some
                    ==> rewritten(properties[i].1, lookup(members, name)->0, ids) == Ok::<JsonValue, SourceFault>(
                    lookup(output, name)->0,
                )
        },
        rewritten_members(properties, members, ids) is Err ==> exists|i: int|
            0 <= i < properties.len() && lookup(members, (#[trigger] properties[i]).0) is Some && rewritten(
                properties[i].1,
                lookup(members, properties[i].0)->0,
                ids,
            ) is Err,
    decreases properties.len(),
{
    if properties.len() > 0 {
        let rest = properties.drop_last();
        let (last, schema) = properties.last();
        assert forall|i: int| 0 <= i < rest.len() implies #[trigger] rest[i] == properties[i] by {}
        assert forall|i: int, j: int| 0 <= i < j < rest.len() implies (#[trigger] rest[i]).0 != (#[trigger] rest[j]).0 by {
            assert(properties[i].0 != properties[j].0);
        }
        assert(properties[properties.len() - 1] == (last, schema));
        law_members_are_rewritten(rest, members, ids, name);
        law_members_are_rewritten(rest, members, ids, last);
        assert(!declares(rest, last)) by {
            if declares(rest, last) {
                let i = choose|i: int| 0 <= i < rest.len() && (#[trigger] rest[i]).0 == last;
                assert(properties[i].0 != properties[properties.len() - 1].0);
            }
        }
        if let Ok(before) = rewritten_members(rest, members, ids) {
            assert(lookup(before, last) == lookup(members, last));
            if let Some(value) = lookup(before, last) {
                if let Ok(changed) = rewritten(schema, value, ids) {
                    law_put_member_changes_one(before, last, changed, name);
                }
            }
            if !declares(properties, name) {
                assert(name != last);
                assert(!declares(rest, name)) by {
                    if declares(rest, name) {
                        let i = choose|i: int| 0 <= i < rest.len() && (#[trigger] rest[i]).0 == name;
                        assert(properties[i].0 == name);
                    }
                }
            }
            if let Ok(output) = rewritten_members(properties, members, ids) {
                assert forall|i: int|
                    0 <= i < properties.len() && (#[trigger] properties[i]).0 == name && lookup(members, name) is Some implies rewritten(
                    properties[i].1,
                    lookup(members, name)->0,
                    ids,
                ) == Ok::<JsonValue, SourceFault>(lookup(output, name)->0) by {
                    if i < rest.len() {
                        assert(rest[i].0 == name);
                        assert(name != last);
                    }
                }
            }
        } else {
            let i = choose|i: int|
                0 <= i < rest.len() && lookup(members, (#[trigger] rest[i]).0) is Some && rewritten(
                    rest[i].1,
                    lookup(members, rest[i].0)->0,
                    ids,
                ) is Err;
            assert(properties[i] == rest[i]);
        }
    }
}

/// References are rewritten wherever a schema leads, and a value of which its schema says
/// nothing stays as it is.
pub proof fn law_values_are_rewritten(schema: JsonValue, value: JsonValue, ids: Map<Seq<char>, Seq<char>>)
    requires
        !is_source_schema(schema),
    ensures
        ({
            let properties = member(schema, "properties"@);
            let child = member(schema, "items"@);
            let output = rewritten(schema, value, ids);
            &&& value is Object && properties is Some && properties->0 is Object ==> match rewritten_members(
                properties->0->Object_0,
                value->Object_0,
                ids,
            ) {
                Ok(members) => output == Ok::<JsonValue, SourceFault>(JsonValue::Object(members)),
                Err(fault) => output == Err::<JsonValue, SourceFault>(fault),
            }
            &&& value is Array && child is Some ==> match rewritten_items(child->0, value->Array_0, ids) {
                Ok(items) => output == Ok::<JsonValue, SourceFault>(JsonValue::Array(items)),
                Err(fault) => output == Err::<JsonValue, SourceFault>(fault),
            }
            &&& !(value is Object) && !(value is Array) ==> output == Ok::<JsonValue, SourceFault>(value)
            &&& value is Object && properties is None ==> output == Ok::<JsonValue, SourceFault>(value)
            &&& value is Array && child is None ==> output == Ok::<JsonValue, SourceFault>(value)
        }),
{
    lemma_member_smaller(schema, "properties"@);
    lemma_member_smaller(schema, "items"@);
}

/// The variable of a connection is its name in capital letters behind a prefix, with
/// underscores for hyphens.
pub proof fn law_variables(connection: Seq<char>, index: int)
    requires
        0 <= index < connection.len(),
    ensures
        ({
            let variable = variable_of(connection);
            let prefix = seq!['S', 'L', 'O', 'P', 'E', 'R', '_', 'T', 'O', 'K', 'E', 'N', '_'];
            let written = variable[13 + index];
            &&& variable.len() == 13 + connection.len()
            &&& variable.take(13) == prefix
            &&& connection[index] == '-' ==> written == '_'
            &&& 'a' <= connection[index] <= 'z' ==> written as int - 'A' as int == connection[index] as int - 'a' as int
            &&& connection[index] != '-' && !('a' <= connection[index] <= 'z') ==> written == connection[index]
        }),
{
    reveal_strlit("SLOPER_TOKEN_");
    let prefix = seq!['S', 'L', 'O', 'P', 'E', 'R', '_', 'T', 'O', 'K', 'E', 'N', '_'];
    assert("SLOPER_TOKEN_"@ =~= prefix);
    assert(variable_of(connection).take(13) =~= prefix);
}

/// A line of a fixture is taken without its line feed and the carriage return before it, and
/// with all else.
pub proof fn law_fixture_lines(contents: Seq<u8>)
    requires
        contents.len() > 0 ==> contents.last() != 0x0a && contents.last() != 0x0d,
    ensures
        line_contents(contents) == contents,
        line_contents(contents.push(0x0a)) == contents,
        line_contents(contents.push(0x0d).push(0x0a)) == contents,
{
    assert(contents.push(0x0a).drop_last() =~= contents);
    assert(contents.push(0x0d).push(0x0a).drop_last() =~= contents.push(0x0d));
    assert(contents.push(0x0d).drop_last() =~= contents);
}

/// Every supplied source that the parameters declare is bound to its id, and what is not
/// declared as a source stays.
pub proof fn law_declared_sources_are_bound(
    parameters: Option<JsonValue>,
    members: Seq<(Seq<char>, JsonValue)>,
    ids: Seq<(Seq<char>, Seq<char>)>,
    index: int,
    name: Seq<char>,
)
    requires
        forall|i: int, j: int| 0 <= i < j < ids.len() ==> (#[trigger] ids[i]).0 != (#[trigger] ids[j]).0,
    ensures
        0 <= index < ids.len() && declares_source(parameters, ids[index].0) ==> lookup(
            bound_members(parameters, members, ids),
            ids[index].0,
        ) == Some(JsonValue::Text(ids[index].1)),
        !declares_source(parameters, name) || (forall|i: int| 0 <= i < ids.len() ==> (#[trigger] ids[i]).0 != name)
            ==> lookup(bound_members(parameters, members, ids), name) == lookup(members, name),
    decreases ids.len(),
{
    if ids.len() > 0 {
        let rest = ids.drop_last();
        let (last, id) = ids.last();
        assert forall|i: int| 0 <= i < rest.len() implies #[trigger] rest[i] == ids[i] by {}
        assert forall|i: int, j: int| 0 <= i < j < rest.len() implies (#[trigger] rest[i]).0 != (#[trigger] rest[j]).0 by {
            assert(ids[i].0 != ids[j].0);
        }
        law_declared_sources_are_bound(parameters, members, rest, index, name);
        let before = bound_members(parameters, members, rest);
        assert(ids[ids.len() - 1] == (last, id));
        if declares_source(parameters, last) {
            law_put_member_changes_one(before, last, JsonValue::Text(id), name);
            if 0 <= index < rest.len() {
                assert(ids[index].0 != ids[ids.len() - 1].0);
                law_put_member_changes_one(before, last, JsonValue::Text(id), ids[index].0);
            }
        }
        if forall|i: int| 0 <= i < ids.len() ==> (#[trigger] ids[i]).0 != name {
            assert forall|i: int| 0 <= i < rest.len() implies (#[trigger] rest[i]).0 != name by {
                assert(ids[i].0 != name);
            }
            assert(ids[ids.len() - 1].0 != name);
        }
    }
}

} // verus!

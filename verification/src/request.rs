//! Checking a pinned request against the manifest before it runs.

use vstd::prelude::*;
use vstd::string::*;

use crate::json::{lemma_array, lemma_object, member, members_of, number_in, values_of, Json, JsonValue};
use crate::manifest::{Action, Capability, Manifest};
use crate::sources::{
    collect_sources, find_property, is_source_schema, property_schema, refers_to, source_schema, MAX_SOURCE_BYTES,
};
use crate::table::Table;
use crate::text::{alphanumeric, byte_count, byte_len, chars_of, is_alphanumeric, same_text};

verus! {

/// The longest parameters and the longest batch, in bytes.
pub const MAX_BATCH_BYTES: usize = 8 * 1024 * 1024;

/// The longest configuration, in bytes.
pub const MAX_CONFIGURATION_BYTES: usize = 256 * 1024;

/// The longest cursor, in bytes.
pub const MAX_CURSOR_BYTES: usize = 1024;

/// A source that a request lends to its attempt.
#[derive(Debug)]
pub struct Source {
    pub id: String,
    pub filename: String,
    pub media_type: String,
    pub size: u64,
}

/// Where a writer stopped before.
#[derive(Debug)]
pub struct Cursor {
    pub name: String,
    pub value: String,
}

/// A pinned request to run an action.
#[derive(Debug)]
pub struct Request {
    pub operation: String,
    pub action: String,
    pub parameters: String,
    pub configuration: String,
    pub sources: Vec<Source>,
    pub cursors: Vec<Cursor>,
}

/// What the strict JSON parser, the schema validator and the filename rule say of
/// a request.
#[derive(Debug)]
pub struct Verdicts {
    /// The parameters, where their text is a strict JSON object.
    pub parameters: Option<Json>,
    /// The configuration, where its text is a strict JSON object.
    pub configuration: Option<Json>,
    /// The parameters satisfy the schema that the action declares.
    pub parameters_conform: bool,
    /// The configuration satisfies the schema that the extension declares.
    pub configuration_conforms: bool,
    /// Whether the filename of each source is valid.
    pub filenames: Vec<bool>,
}

/// Why a request is invalid.
#[derive(Clone, Copy, Debug, PartialEq, Eq, Structural)]
pub enum RequestFault {
    TooLarge,
    Operation,
    Parameters,
    Configuration,
    Action,
    ParametersSchema,
    ParametersRefused,
    ConfigurationSchema,
    ConfigurationRefused,
    ReaderState,
    CursorInvalid,
    SourceMetadata,
    SourceSet,
    SourceMissing,
    SourceTooLarge,
    SourceMediaType,
}

impl RequestFault {
    /// The words for this fault.
    pub open spec fn text_spec(self) -> Seq<char> {
        match self {
            RequestFault::TooLarge => "parameters or configuration exceed their byte ceiling"@,
            RequestFault::Operation => "operation identity is invalid"@,
            RequestFault::Parameters => "parameters must be a strict JSON object"@,
            RequestFault::Configuration => "configuration must be a strict JSON object"@,
            RequestFault::Action => "action is not declared"@,
            RequestFault::ParametersSchema => "parameters do not satisfy their schema"@,
            RequestFault::ParametersRefused => "action does not accept parameters"@,
            RequestFault::ConfigurationSchema => "configuration does not satisfy its schema"@,
            RequestFault::ConfigurationRefused => "extension does not accept configuration"@,
            RequestFault::ReaderState => "reader action carries provider state"@,
            RequestFault::CursorInvalid => "writer cursor is invalid or duplicated"@,
            RequestFault::SourceMetadata => "parameter source metadata is invalid or duplicated"@,
            RequestFault::SourceSet => "parameter source metadata differs from the validated parameters"@,
            RequestFault::SourceMissing => "source metadata is missing"@,
            RequestFault::SourceTooLarge => "source exceeds its declared byte bound"@,
            RequestFault::SourceMediaType => "source media type does not satisfy its declaration"@,
        }
    }

    /// Returns the words for this fault.
    pub fn text(&self) -> (text: &'static str)
        ensures
            text@ == self.text_spec(),
    {
        match self {
            RequestFault::TooLarge => "parameters or configuration exceed their byte ceiling",
            RequestFault::Operation => "operation identity is invalid",
            RequestFault::Parameters => "parameters must be a strict JSON object",
            RequestFault::Configuration => "configuration must be a strict JSON object",
            RequestFault::Action => "action is not declared",
            RequestFault::ParametersSchema => "parameters do not satisfy their schema",
            RequestFault::ParametersRefused => "action does not accept parameters",
            RequestFault::ConfigurationSchema => "configuration does not satisfy its schema",
            RequestFault::ConfigurationRefused => "extension does not accept configuration",
            RequestFault::ReaderState => "reader action carries provider state",
            RequestFault::CursorInvalid => "writer cursor is invalid or duplicated",
            RequestFault::SourceMetadata => "parameter source metadata is invalid or duplicated",
            RequestFault::SourceSet => "parameter source metadata differs from the validated parameters",
            RequestFault::SourceMissing => "source metadata is missing",
            RequestFault::SourceTooLarge => "source exceeds its declared byte bound",
            RequestFault::SourceMediaType => "source media type does not satisfy its declaration",
        }
    }
}

/// The first source with this id.
pub open spec fn source_named(sources: Seq<Source>, id: Seq<char>) -> Option<Source>
    decreases sources.len(),
{
    if sources.len() == 0 {
        None
    } else if sources[0].id@ == id {
        Some(sources[0])
    } else {
        source_named(sources.drop_first(), id)
    }
}

/// Some of the media types is this one.
pub open spec fn lists_media_type(types: Seq<JsonValue>, media_type: Seq<char>) -> bool {
    types.contains(JsonValue::Text(media_type))
}

/// Why a source does not satisfy the schema that refers to it, if it does not.
pub open spec fn source_fault(schema: JsonValue, source: Option<Source>) -> Option<RequestFault> {
    match source {
        None => Some(RequestFault::SourceMissing),
        Some(source) => {
            let maximum = match number_in(member(schema, "maxBytes"@)) {
                Some(maximum) => maximum,
                None => MAX_SOURCE_BYTES,
            };
            if source.size > maximum {
                Some(RequestFault::SourceTooLarge)
            } else {
                match member(schema, "mediaTypes"@) {
                    Some(JsonValue::Array(types)) => if lists_media_type(types, source.media_type@) {
                        None
                    } else {
                        Some(RequestFault::SourceMediaType)
                    },
                    _ => None,
                }
            }
        },
    }
}

/// The first fault among the sources to which `value`, read by `schema`, refers.
pub open spec fn metadata_fault(schema: JsonValue, value: JsonValue, sources: Seq<Source>) -> Option<RequestFault>
    decreases value,
{
    if is_source_schema(schema) {
        match value {
            JsonValue::Text(id) => source_fault(schema, source_named(sources, id)),
            _ => None,
        }
    } else {
        match value {
            JsonValue::Object(members) => members_fault(schema, members, sources),
            JsonValue::Array(items) => match member(schema, "items"@) {
                Some(child) => items_fault(child, items, sources),
                None => None,
            },
            _ => None,
        }
    }
}

/// The first fault among the sources to which the members of an object refer.
pub open spec fn members_fault(schema: JsonValue, members: Seq<(Seq<char>, JsonValue)>, sources: Seq<Source>) -> Option<
    RequestFault,
>
    decreases members,
{
    if members.len() == 0 {
        None
    } else {
        match members_fault(schema, members.drop_last(), sources) {
            Some(fault) => Some(fault),
            None => match property_schema(schema, members.last().0) {
                Some(child) => metadata_fault(child, members.last().1, sources),
                None => None,
            },
        }
    }
}

/// The first fault among the sources to which the items of an array refer.
pub open spec fn items_fault(schema: JsonValue, items: Seq<JsonValue>, sources: Seq<Source>) -> Option<RequestFault>
    decreases items,
{
    if items.len() == 0 {
        None
    } else {
        match items_fault(schema, items.drop_last(), sources) {
            Some(fault) => Some(fault),
            None => metadata_fault(schema, items.last(), sources),
        }
    }
}

proof fn lemma_members_fault(schema: JsonValue, members: Seq<(Seq<char>, JsonValue)>, sources: Seq<Source>, count: int)
    requires
        0 <= count <= members.len(),
        members_fault(schema, members.take(count), sources) is Some,
    ensures
        members_fault(schema, members, sources) == members_fault(schema, members.take(count), sources),
    decreases members.len() - count,
{
    if count == members.len() {
        assert(members.take(count) =~= members);
    } else {
        assert(members.take(count + 1).drop_last() =~= members.take(count));
        lemma_members_fault(schema, members, sources, count + 1);
    }
}

proof fn lemma_items_fault(schema: JsonValue, items: Seq<JsonValue>, sources: Seq<Source>, count: int)
    requires
        0 <= count <= items.len(),
        items_fault(schema, items.take(count), sources) is Some,
    ensures
        items_fault(schema, items, sources) == items_fault(schema, items.take(count), sources),
    decreases items.len() - count,
{
    if count == items.len() {
        assert(items.take(count) =~= items);
    } else {
        assert(items.take(count + 1).drop_last() =~= items.take(count));
        lemma_items_fault(schema, items, sources, count + 1);
    }
}

fn find_source<'a>(sources: &'a Vec<Source>, id: &str) -> (found: Option<&'a Source>)
    ensures
        match found {
            Some(source) => source_named(sources@, id@) == Some(*source),
            None => source_named(sources@, id@) is None,
        },
{
    let mut index: usize = 0;
    assert(sources@.skip(0) =~= sources@);
    while index < sources.len()
        invariant
            index <= sources.len(),
            source_named(sources@, id@) == source_named(sources@.skip(index as int), id@),
        decreases sources.len() - index,
    {
        assert(sources@.skip(index as int)[0] == sources@[index as int]);
        if same_text(sources[index].id.as_str(), id) {
            return Some(&sources[index]);
        }
        assert(sources@.skip(index as int).drop_first() =~= sources@.skip(index + 1));
        index += 1;
    }
    None
}

/// Whether the text `expected` is one of the values.
pub fn lists_text(values: &Vec<Json>, expected: &str) -> (found: bool)
    ensures
        found == values_of(values@).contains(JsonValue::Text(expected@)),
{
    let mut index: usize = 0;
    while index < values.len()
        invariant
            index <= values.len(),
            forall|i: int| 0 <= i < index ==> values_of(values@)[i] != JsonValue::Text(expected@),
        decreases values.len() - index,
    {
        assert(values_of(values@)[index as int] == values@[index as int]@);
        if let Some(text) = values[index].as_text() {
            if same_text(text, expected) {
                return true;
            }
        }
        index += 1;
    }
    false
}

/// Checks the size and media type of the source to which a schema refers.
fn check_source(schema: &Json, source: Option<&Source>) -> (checked: Result<(), RequestFault>)
    ensures
        match checked {
            Ok(_) => source_fault(
                schema@,
                match source {
                    Some(source) => Some(*source),
                    None => None,
                },
            ) is None,
            Err(fault) => source_fault(
                schema@,
                match source {
                    Some(source) => Some(*source),
                    None => None,
                },
            ) == Some(fault),
        },
{
    let source = match source {
        Some(source) => source,
        None => return Err(RequestFault::SourceMissing),
    };
    let maximum: u64 = match schema.get_number("maxBytes") {
        Some(maximum) => maximum,
        None => MAX_SOURCE_BYTES,
    };
    if source.size > maximum {
        return Err(RequestFault::SourceTooLarge);
    }
    if let Some(types) = schema.get("mediaTypes") {
        if let Json::Array(types) = types {
            proof {
                lemma_array(*types);
            }
            if !lists_text(types, source.media_type.as_str()) {
                return Err(RequestFault::SourceMediaType);
            }
        }
    }
    Ok(())
}

/// Checks every source to which `value`, read by `schema`, refers.
pub fn validate_source_metadata(schema: &Json, value: &Json, sources: &Vec<Source>) -> (checked: Result<
    (),
    RequestFault,
>)
    ensures
        match checked {
            Ok(_) => metadata_fault(schema@, value@, sources@) is None,
            Err(fault) => metadata_fault(schema@, value@, sources@) == Some(fault),
        },
    decreases value,
{
    if source_schema(schema) {
        return match value.as_text() {
            Some(id) => check_source(schema, find_source(sources, id)),
            None => Ok(()),
        };
    }
    match value {
        Json::Object(members) => {
            let ghost all = members_of(members@);
            proof {
                lemma_object(*members);
                assert(all.take(0) =~= Seq::empty());
            }
            let mut index: usize = 0;
            while index < members.len()
                invariant
                    index <= members.len(),
                    *value == Json::Object(*members),
                    value@ == JsonValue::Object(all),
                    all == members_of(members@),
                    !is_source_schema(schema@),
                    members_fault(schema@, all.take(index as int), sources@) is None,
                decreases members.len() - index,
            {
                assert(decreases_to!(*value => value->Object_0));
                assert(decreases_to!(*members => members@));
                assert(decreases_to!(members@ => members@[index as int]));
                assert(decreases_to!(members@[index as int] => members@[index as int].1));
                proof {
                    assert(all.take(index + 1).drop_last() =~= all.take(index as int));
                    assert(all.take(index + 1).last() == (members@[index as int].0@, members@[index as int].1@));
                }
                if let Some(child) = find_property(schema, members[index].0.as_str()) {
                    match validate_source_metadata(child, &members[index].1, sources) {
                        Ok(_) => {},
                        Err(fault) => {
                            proof {
                                lemma_members_fault(schema@, all, sources@, index + 1);
                            }
                            return Err(fault);
                        },
                    }
                }
                index += 1;
            }
            assert(all.take(all.len() as int) =~= all);
            Ok(())
        },
        Json::Array(items) => {
            let ghost all = values_of(items@);
            proof {
                lemma_array(*items);
                assert(all.take(0) =~= Seq::empty());
            }
            let child = match schema.get("items") {
                Some(child) => child,
                None => return Ok(()),
            };
            let mut index: usize = 0;
            while index < items.len()
                invariant
                    index <= items.len(),
                    *value == Json::Array(*items),
                    value@ == JsonValue::Array(all),
                    all == values_of(items@),
                    !is_source_schema(schema@),
                    member(schema@, "items"@) == Some(child@),
                    items_fault(child@, all.take(index as int), sources@) is None,
                decreases items.len() - index,
            {
                assert(decreases_to!(*value => value->Array_0));
                assert(decreases_to!(*items => items@));
                assert(decreases_to!(items@ => items@[index as int]));
                proof {
                    assert(all.take(index + 1).drop_last() =~= all.take(index as int));
                    assert(all.take(index + 1).last() == items@[index as int]@);
                }
                match validate_source_metadata(child, &items[index], sources) {
                    Ok(_) => {},
                    Err(fault) => {
                        proof {
                            lemma_items_fault(child@, all, sources@, index + 1);
                        }
                        return Err(fault);
                    },
                }
                index += 1;
            }
            assert(all.take(all.len() as int) =~= all);
            Ok(())
        },
        _ => Ok(()),
    }
}

/// An operation identity: one to 64 letters, digits, underscores and hyphens.
pub open spec fn is_operation(text: Seq<char>) -> bool {
    &&& 0 < text.len() <= 64
    &&& forall|index: int| 0 <= index < text.len() ==> operation_character(#[trigger] text[index])
}

/// A character of an operation identity.
pub open spec fn operation_character(character: char) -> bool {
    alphanumeric(character) || character == '_' || character == '-'
}

fn valid_operation(operation: &str) -> (valid: bool)
    ensures
        valid == is_operation(operation@),
{
    let characters = chars_of(operation);
    if characters.len() == 0 || characters.len() > 64 {
        return false;
    }
    let mut index: usize = 0;
    while index < characters.len()
        invariant
            index <= characters.len(),
            characters@ == operation@,
            forall|i: int| 0 <= i < index ==> operation_character(#[trigger] operation@[i]),
        decreases characters.len() - index,
    {
        let character = characters[index];
        if !(is_alphanumeric(character) || character == '_' || character == '-') {
            assert(!operation_character(operation@[index as int]));
            return false;
        }
        index += 1;
    }
    true
}

/// The cursor at `index` is short, its name is new, and the action writes the
/// resource of that name.
pub open spec fn cursor_holds(cursors: Seq<Cursor>, index: int, action: Action) -> bool {
    &&& byte_count(cursors[index].value@) <= MAX_CURSOR_BYTES
    &&& forall|other: int| 0 <= other < index ==> (#[trigger] cursors[other]).name@ != cursors[index].name@
    &&& action.permits(cursors[index].name@, Capability::Write)
}

/// The source at `index` has a valid filename, a size within bounds, a media type
/// and a new id.
pub open spec fn source_holds(sources: Seq<Source>, filenames: Seq<bool>, index: int) -> bool {
    &&& index < filenames.len() && filenames[index]
    &&& sources[index].size <= MAX_SOURCE_BYTES
    &&& sources[index].media_type@.len() > 0
    &&& forall|other: int| 0 <= other < index ==> (#[trigger] sources[other]).id@ != sources[index].id@
}

/// The request lends the source `id`.
pub open spec fn lends(sources: Seq<Source>, id: Seq<char>) -> bool {
    exists|index: int| 0 <= index < sources.len() && (#[trigger] sources[index]).id@ == id
}

/// The parameters of an action refer to the source `id`.
pub open spec fn expects(action: Action, parameters: JsonValue, id: Seq<char>) -> bool {
    action.parameters matches Some(schema) && refers_to(schema@, parameters, id)
}

/// The object without members.
pub open spec fn empty_object() -> JsonValue {
    JsonValue::Object(Seq::empty())
}

/// What is wrong with a request, if anything.
pub open spec fn request_fault(manifest: Manifest, request: Request, verdicts: Verdicts) -> Option<RequestFault> {
    if byte_count(request.parameters@) > MAX_BATCH_BYTES || byte_count(request.configuration@)
        > MAX_CONFIGURATION_BYTES {
        Some(RequestFault::TooLarge)
    } else if !is_operation(request.operation@) {
        Some(RequestFault::Operation)
    } else if verdicts.parameters is None {
        Some(RequestFault::Parameters)
    } else if verdicts.configuration is None {
        Some(RequestFault::Configuration)
    } else if !manifest.actions@.dom().contains(request.action@) {
        Some(RequestFault::Action)
    } else {
        let action = manifest.actions@[request.action@];
        let parameters = verdicts.parameters->0@;
        let configuration = verdicts.configuration->0@;
        if action.parameters is Some && !verdicts.parameters_conform {
            Some(RequestFault::ParametersSchema)
        } else if action.parameters is None && parameters != empty_object() {
            Some(RequestFault::ParametersRefused)
        } else if manifest.configuration is Some && !verdicts.configuration_conforms {
            Some(RequestFault::ConfigurationSchema)
        } else if manifest.configuration is None && configuration != empty_object() {
            Some(RequestFault::ConfigurationRefused)
        } else if action.reads() && (request.cursors@.len() > 0 || parameters != empty_object()) {
            Some(RequestFault::ReaderState)
        } else if exists|index: int|
            0 <= index < request.cursors@.len() && !#[trigger] cursor_holds(request.cursors@, index, action) {
            Some(RequestFault::CursorInvalid)
        } else if exists|index: int|
            0 <= index < request.sources@.len() && !#[trigger] source_holds(
                request.sources@,
                verdicts.filenames@,
                index,
            ) {
            Some(RequestFault::SourceMetadata)
        } else if exists|id: Seq<char>| #[trigger]
            expects(action, parameters, id) != lends(request.sources@, id) {
            Some(RequestFault::SourceSet)
        } else {
            match action.parameters {
                Some(schema) => metadata_fault(schema@, parameters, request.sources@),
                None => None,
            }
        }
    }
}

fn check_cursors(cursors: &Vec<Cursor>, action: &Action) -> (valid: bool)
    requires
        action.resources.wf(),
    ensures
        valid == !exists|index: int| 0 <= index < cursors@.len() && !#[trigger] cursor_holds(cursors@, index, *action),
{
    let mut index: usize = 0;
    while index < cursors.len()
        invariant
            index <= cursors.len(),
            action.resources.wf(),
            forall|i: int| 0 <= i < index ==> #[trigger] cursor_holds(cursors@, i, *action),
        decreases cursors.len() - index,
    {
        let cursor = &cursors[index];
        if byte_len(cursor.value.as_str()) > MAX_CURSOR_BYTES || !action.allows(
            cursor.name.as_str(),
            Capability::Write,
        ) {
            assert(!cursor_holds(cursors@, index as int, *action));
            return false;
        }
        let mut other: usize = 0;
        while other < index
            invariant
                other <= index < cursors.len(),
                *cursor == cursors@[index as int],
                forall|i: int| 0 <= i < other ==> (#[trigger] cursors@[i]).name@ != cursor.name@,
            decreases index - other,
        {
            if same_text(cursors[other].name.as_str(), cursor.name.as_str()) {
                assert(!cursor_holds(cursors@, index as int, *action));
                return false;
            }
            other += 1;
        }
        assert(cursor_holds(cursors@, index as int, *action));
        index += 1;
    }
    true
}

fn check_sources(sources: &Vec<Source>, filenames: &Vec<bool>) -> (valid: bool)
    ensures
        valid == !exists|index: int|
            0 <= index < sources@.len() && !#[trigger] source_holds(sources@, filenames@, index),
{
    let mut index: usize = 0;
    while index < sources.len()
        invariant
            index <= sources.len(),
            forall|i: int| 0 <= i < index ==> #[trigger] source_holds(sources@, filenames@, i),
        decreases sources.len() - index,
    {
        let source = &sources[index];
        if index >= filenames.len() || !filenames[index] || source.size > MAX_SOURCE_BYTES
            || source.media_type.as_str().is_empty() {
            assert(!source_holds(sources@, filenames@, index as int));
            return false;
        }
        let mut other: usize = 0;
        while other < index
            invariant
                other <= index < sources.len(),
                *source == sources@[index as int],
                forall|i: int| 0 <= i < other ==> (#[trigger] sources@[i]).id@ != source.id@,
            decreases index - other,
        {
            if same_text(sources[other].id.as_str(), source.id.as_str()) {
                assert(!source_holds(sources@, filenames@, index as int));
                return false;
            }
            other += 1;
        }
        assert(source_holds(sources@, filenames@, index as int));
        index += 1;
    }
    true
}

/// Whether the request lends the source `id`.
fn is_lent(sources: &Vec<Source>, id: &str) -> (lent: bool)
    ensures
        lent == lends(sources@, id@),
{
    let mut index: usize = 0;
    while index < sources.len()
        invariant
            index <= sources.len(),
            forall|i: int| 0 <= i < index ==> (#[trigger] sources@[i]).id@ != id@,
        decreases sources.len() - index,
    {
        if same_text(sources[index].id.as_str(), id) {
            return true;
        }
        index += 1;
    }
    false
}

/// Whether the lent sources are exactly those to which the parameters refer.
fn lends_exactly(action: &Action, parameters: &Json, sources: &Vec<Source>) -> (exact: bool)
    ensures
        exact == !exists|id: Seq<char>| #[trigger] expects(*action, parameters@, id) != lends(sources@, id),
{
    let mut expected: Table<()> = Table::new();
    if let Some(schema) = &action.parameters {
        collect_sources(schema, parameters, &mut expected);
    }
    assert(forall|id: Seq<char>| #[trigger]
        expected@.dom().contains(id) <==> expects(*action, parameters@, id));
    let mut index: usize = 0;
    while index < sources.len()
        invariant
            index <= sources.len(),
            expected.wf(),
            forall|id: Seq<char>| #[trigger] expected@.dom().contains(id) <==> expects(*action, parameters@, id),
            forall|i: int| 0 <= i < index ==> expects(*action, parameters@, (#[trigger] sources@[i]).id@),
        decreases sources.len() - index,
    {
        if !expected.contains(sources[index].id.as_str()) {
            proof {
                let id = sources@[index as int].id@;
                assert(lends(sources@, id));
                assert(expects(*action, parameters@, id) != lends(sources@, id));
            }
            return false;
        }
        index += 1;
    }
    let mut place: usize = 0;
    while place < expected.entries.len()
        invariant
            place <= expected.entries.len(),
            expected.wf(),
            forall|id: Seq<char>| #[trigger] expected@.dom().contains(id) <==> expects(*action, parameters@, id),
            forall|i: int| 0 <= i < place ==> lends(sources@, (#[trigger] expected.entries@[i]).0@),
        decreases expected.entries.len() - place,
    {
        if !is_lent(sources, expected.entries[place].0.as_str()) {
            proof {
                let id = expected.entries@[place as int].0@;
                expected.lemma_entry(place as int);
                assert(expects(*action, parameters@, id) != lends(sources@, id));
            }
            return false;
        }
        place += 1;
    }
    proof {
        assert forall|id: Seq<char>| #[trigger] expects(*action, parameters@, id) implies lends(sources@, id) by {
            assert(expected@.dom().contains(id));
            let at = expected.names().index_of(id);
            assert(expected.names()[at] == id);
            assert(expected.entries@[at].0@ == id);
        }
        assert forall|id: Seq<char>| lends(sources@, id) implies #[trigger] expects(*action, parameters@, id) by {
            let at = choose|i: int| 0 <= i < sources@.len() && (#[trigger] sources@[i]).id@ == id;
            assert(sources@[at].id@ == id);
        }
    }
    true
}

/// Checks a pinned request against the manifest.
pub fn validate_request(manifest: &Manifest, request: &Request, verdicts: &Verdicts) -> (valid: Result<(), RequestFault>)
    requires
        manifest.wf(),
    ensures
        match valid {
            Ok(_) => request_fault(*manifest, *request, *verdicts) is None,
            Err(fault) => request_fault(*manifest, *request, *verdicts) == Some(fault),
        },
{
    if byte_len(request.parameters.as_str()) > MAX_BATCH_BYTES || byte_len(request.configuration.as_str())
        > MAX_CONFIGURATION_BYTES {
        return Err(RequestFault::TooLarge);
    }
    if !valid_operation(request.operation.as_str()) {
        return Err(RequestFault::Operation);
    }
    let parameters = match &verdicts.parameters {
        Some(parameters) => parameters,
        None => return Err(RequestFault::Parameters),
    };
    let configuration = match &verdicts.configuration {
        Some(configuration) => configuration,
        None => return Err(RequestFault::Configuration),
    };
    let action = match manifest.actions.get(request.action.as_str()) {
        Some(action) => action,
        None => return Err(RequestFault::Action),
    };
    assert(manifest.declares(*action));
    if action.parameters.is_some() {
        if !verdicts.parameters_conform {
            return Err(RequestFault::ParametersSchema);
        }
    } else if !parameters.is_empty_object() {
        return Err(RequestFault::ParametersRefused);
    }
    if manifest.configuration.is_some() {
        if !verdicts.configuration_conforms {
            return Err(RequestFault::ConfigurationSchema);
        }
    } else if !configuration.is_empty_object() {
        return Err(RequestFault::ConfigurationRefused);
    }
    if action.has_reader() && (request.cursors.len() > 0 || !parameters.is_empty_object()) {
        return Err(RequestFault::ReaderState);
    }
    if !check_cursors(&request.cursors, action) {
        return Err(RequestFault::CursorInvalid);
    }
    if !check_sources(&request.sources, &verdicts.filenames) {
        return Err(RequestFault::SourceMetadata);
    }
    if !lends_exactly(action, parameters, &request.sources) {
        return Err(RequestFault::SourceSet);
    }
    if let Some(schema) = &action.parameters {
        return validate_source_metadata(schema, parameters, &request.sources);
    }
    Ok(())
}

/// An operation is named by one to 64 letters, digits, underscores and hyphens.
pub proof fn law_operation_names(text: Seq<char>)
    ensures
        is_operation(text) <==> {
            &&& 1 <= text.len() <= 64
            &&& forall|i: int|
                0 <= i < text.len() ==> ('a' <= #[trigger] text[i] <= 'z') || ('A' <= text[i] <= 'Z') || ('0' <= text[i]
                    <= '9') || text[i] == '_' || text[i] == '-'
        },
{
    if is_operation(text) {
        assert forall|i: int| 0 <= i < text.len() implies ('a' <= #[trigger] text[i] <= 'z') || ('A' <= text[i] <= 'Z')
            || ('0' <= text[i] <= '9') || text[i] == '_' || text[i] == '-' by {
            assert(operation_character(text[i]));
        }
    } else if 1 <= text.len() <= 64 {
        let i = choose|i: int| 0 <= i < text.len() && !operation_character(#[trigger] text[i]);
        assert(!operation_character(text[i]));
    }
}

/// The source that is found under an id is the first that has it.
pub proof fn law_sources_are_found(sources: Seq<Source>, id: Seq<char>)
    ensures
        match source_named(sources, id) {
            Some(source) => exists|i: int|
                0 <= i < sources.len() && #[trigger] sources[i] == source && source.id@ == id && forall|j: int|
                    0 <= j < i ==> (#[trigger] sources[j]).id@ != id,
            None => forall|i: int| 0 <= i < sources.len() ==> (#[trigger] sources[i]).id@ != id,
        },
    decreases sources.len(),
{
    if sources.len() > 0 {
        if sources[0].id@ == id {
            assert(sources[0] == source_named(sources, id)->0);
        } else {
            let rest = sources.drop_first();
            law_sources_are_found(rest, id);
            assert forall|i: int| 0 <= i < rest.len() implies #[trigger] rest[i] == sources[i + 1] by {}
            if let Some(source) = source_named(rest, id) {
                let i = choose|i: int|
                    0 <= i < rest.len() && #[trigger] rest[i] == source && source.id@ == id && forall|j: int|
                        0 <= j < i ==> (#[trigger] rest[j]).id@ != id;
                assert(sources[i + 1] == source);
                assert forall|j: int| 0 <= j < i + 1 implies (#[trigger] sources[j]).id@ != id by {
                    if j > 0 {
                        assert(rest[j - 1].id@ != id);
                    }
                }
            } else {
                assert forall|i: int| 0 <= i < sources.len() implies (#[trigger] sources[i]).id@ != id by {
                    if i > 0 {
                        assert(rest[i - 1].id@ != id);
                    }
                }
            }
        }
    }
}

/// A source satisfies its declaration exactly where its metadata is there, it is no longer than
/// declared, or than any source may be, and its media type is among those that are declared,
/// where some are.
pub proof fn law_sources_satisfy_their_declaration(schema: JsonValue, source: Option<Source>)
    ensures
        source_fault(schema, source) is None <==> (source matches Some(source) && {
            &&& source.size <= match number_in(member(schema, "maxBytes"@)) {
                Some(maximum) => maximum,
                None => MAX_SOURCE_BYTES,
            }
            &&& member(schema, "mediaTypes"@) matches Some(JsonValue::Array(types)) ==> types.contains(
                JsonValue::Text(source.media_type@),
            )
        }),
{
}

/// The sources that a value refers to satisfy their declarations exactly where each does: the
/// text itself, or what stands in each item and each member.
pub proof fn law_metadata_is_checked_everywhere(schema: JsonValue, value: JsonValue, sources: Seq<Source>)
    ensures
        is_source_schema(schema) ==> (value matches JsonValue::Text(id) ==> metadata_fault(schema, value, sources)
            == source_fault(schema, source_named(sources, id))),
        !is_source_schema(schema) ==> (value matches JsonValue::Array(items) ==> (metadata_fault(schema, value, sources)
            is None <==> (member(schema, "items"@) matches Some(child) ==> forall|i: int|
            0 <= i < items.len() ==> metadata_fault(child, #[trigger] items[i], sources) is None))),
        !is_source_schema(schema) ==> (value matches JsonValue::Object(members) ==> (metadata_fault(schema, value, sources)
            is None <==> forall|i: int|
            0 <= i < members.len() ==> (property_schema(schema, (#[trigger] members[i]).0) matches Some(child)
                ==> metadata_fault(child, members[i].1, sources) is None))),
{
    match value {
        JsonValue::Array(items) => {
            if let Some(child) = member(schema, "items"@) {
                lemma_items_checked(child, items, sources);
            }
        },
        JsonValue::Object(members) => {
            lemma_members_checked(schema, members, sources);
        },
        _ => {},
    }
}

proof fn lemma_items_checked(schema: JsonValue, items: Seq<JsonValue>, sources: Seq<Source>)
    ensures
        items_fault(schema, items, sources) is None <==> forall|i: int|
            0 <= i < items.len() ==> metadata_fault(schema, #[trigger] items[i], sources) is None,
    decreases items.len(),
{
    if items.len() > 0 {
        let earlier = items.drop_last();
        lemma_items_checked(schema, earlier, sources);
        assert forall|i: int| 0 <= i < earlier.len() implies #[trigger] earlier[i] == items[i] by {}
        if items_fault(schema, items, sources) is None {
            assert forall|i: int| 0 <= i < items.len() implies metadata_fault(schema, #[trigger] items[i], sources) is None by {
                if i < earlier.len() {
                    assert(earlier[i] == items[i]);
                }
            }
        }
    }
}

proof fn lemma_members_checked(schema: JsonValue, members: Seq<(Seq<char>, JsonValue)>, sources: Seq<Source>)
    ensures
        members_fault(schema, members, sources) is None <==> forall|i: int|
            0 <= i < members.len() ==> (property_schema(schema, (#[trigger] members[i]).0) matches Some(child)
                ==> metadata_fault(child, members[i].1, sources) is None),
    decreases members.len(),
{
    if members.len() > 0 {
        let earlier = members.drop_last();
        lemma_members_checked(schema, earlier, sources);
        assert forall|i: int| 0 <= i < earlier.len() implies #[trigger] earlier[i] == members[i] by {}
        if members_fault(schema, members, sources) is None {
            assert forall|i: int| 0 <= i < members.len() implies (property_schema(schema, (#[trigger] members[i]).0) matches Some(
                child,
            ) ==> metadata_fault(child, members[i].1, sources) is None) by {
                if i < earlier.len() {
                    assert(earlier[i] == members[i]);
                }
            }
        }
    }
}

/// The state and the sources that a request carries to an action are as they are declared: each
/// writer once, with a cursor that fits, each source once, and those of the parameters alone.
pub open spec fn carries(action: Action, parameters: JsonValue, request: Request, verdicts: Verdicts) -> bool {
    &&& forall|i: int|
        0 <= i < request.cursors@.len() ==> byte_count((#[trigger] request.cursors@[i]).value@) <= 1024 && action.permits(
            request.cursors@[i].name@,
            Capability::Write,
        )
    &&& forall|i: int, j: int|
        0 <= i < j < request.cursors@.len() ==> (#[trigger] request.cursors@[i]).name@ != (
        #[trigger] request.cursors@[j]).name@
    &&& forall|i: int|
        0 <= i < request.sources@.len() ==> (#[trigger] request.sources@[i]).size <= MAX_SOURCE_BYTES
            && request.sources@[i].media_type@.len() > 0
    &&& request.sources@.len() <= verdicts.filenames@.len()
    &&& forall|i: int| 0 <= i < request.sources@.len() ==> #[trigger] verdicts.filenames@[i]
    &&& forall|i: int, j: int|
        0 <= i < j < request.sources@.len() ==> (#[trigger] request.sources@[i]).id@ != (#[trigger] request.sources@[j]).id@
    &&& forall|id: Seq<char>| #[trigger]
        lends(request.sources@, id) <==> (action.parameters matches Some(schema) && refers_to(schema@, parameters, id))
    &&& action.parameters is Some ==> metadata_fault(action.parameters->0@, parameters, request.sources@) is None
}

/// A request is accepted exactly where it fits, names an operation and a declared action, its
/// parameters and configuration are objects that are accepted, it carries no state to a reader,
/// and what it carries is as it is declared.
pub proof fn law_requests_are_accepted(manifest: Manifest, request: Request, verdicts: Verdicts)
    ensures
        request_fault(manifest, request, verdicts) is None <==> {
            let action = manifest.actions@[request.action@];
            let parameters = verdicts.parameters->0@;
            let nothing = JsonValue::Object(Seq::empty());
            &&& byte_count(request.parameters@) <= 8 * 1024 * 1024 && byte_count(request.configuration@)
                <= MAX_CONFIGURATION_BYTES
            &&& is_operation(request.operation@)
            &&& verdicts.parameters is Some && verdicts.configuration is Some
            &&& manifest.actions@.dom().contains(request.action@)
            &&& action.parameters is Some ==> verdicts.parameters_conform
            &&& action.parameters is None ==> parameters == nothing
            &&& manifest.configuration is Some ==> verdicts.configuration_conforms
            &&& manifest.configuration is None ==> verdicts.configuration->0@ == nothing
            &&& action.reads() ==> request.cursors@.len() == 0 && parameters == nothing
            &&& carries(action, parameters, request, verdicts)
        },
{
    let action = manifest.actions@[request.action@];
    let parameters = verdicts.parameters->0@;
    lemma_carries(action, parameters, request, verdicts);
}

proof fn lemma_carries(action: Action, parameters: JsonValue, request: Request, verdicts: Verdicts)
    ensures
        carries(action, parameters, request, verdicts) <==> {
            &&& !(exists|i: int| 0 <= i < request.cursors@.len() && !#[trigger] cursor_holds(request.cursors@, i, action))
            &&& !(exists|i: int|
                0 <= i < request.sources@.len() && !#[trigger] source_holds(request.sources@, verdicts.filenames@, i))
            &&& !(exists|id: Seq<char>| #[trigger] expects(action, parameters, id) != lends(request.sources@, id))
            &&& action.parameters is Some ==> metadata_fault(action.parameters->0@, parameters, request.sources@) is None
        },
{
    let cursors = request.cursors@;
    let sources = request.sources@;
    if carries(action, parameters, request, verdicts) {
        assert forall|i: int| 0 <= i < cursors.len() implies #[trigger] cursor_holds(cursors, i, action) by {
            assert(action.permits(cursors[i].name@, Capability::Write));
        }
        assert forall|i: int| 0 <= i < sources.len() implies #[trigger] source_holds(sources, verdicts.filenames@, i) by {
            assert(sources[i].size <= MAX_SOURCE_BYTES);
            assert(verdicts.filenames@[i]);
        }
        assert forall|id: Seq<char>| #[trigger] expects(action, parameters, id) == lends(sources, id) by {}
    } else {
        if forall|i: int| 0 <= i < cursors.len() ==> #[trigger] cursor_holds(cursors, i, action) {
            assert forall|i: int| 0 <= i < cursors.len() implies byte_count((#[trigger] cursors[i]).value@) <= 1024
                && action.permits(cursors[i].name@, Capability::Write) by {
                assert(cursor_holds(cursors, i, action));
            }
            assert forall|i: int, j: int| 0 <= i < j < cursors.len() implies (#[trigger] cursors[i]).name@ != (
            #[trigger] cursors[j]).name@ by {
                assert(cursor_holds(cursors, j, action));
            }
        }
        if forall|i: int| 0 <= i < sources.len() ==> #[trigger] source_holds(sources, verdicts.filenames@, i) {
            assert forall|i: int| 0 <= i < sources.len() implies (#[trigger] sources[i]).size <= MAX_SOURCE_BYTES
                && sources[i].media_type@.len() > 0 by {
                assert(source_holds(sources, verdicts.filenames@, i));
            }
            assert(sources.len() <= verdicts.filenames@.len()) by {
                if sources.len() > 0 {
                    assert(source_holds(sources, verdicts.filenames@, sources.len() - 1));
                }
            }
            assert forall|i: int| 0 <= i < sources.len() implies #[trigger] verdicts.filenames@[i] by {
                assert(source_holds(sources, verdicts.filenames@, i));
            }
            assert forall|i: int, j: int| 0 <= i < j < sources.len() implies (#[trigger] sources[i]).id@ != (
            #[trigger] sources[j]).id@ by {
                assert(source_holds(sources, verdicts.filenames@, j));
            }
        }
        if forall|id: Seq<char>| #[trigger] expects(action, parameters, id) == lends(sources, id) {
            assert forall|id: Seq<char>| #[trigger] lends(sources, id) <==> (action.parameters matches Some(schema)
                && refers_to(schema@, parameters, id)) by {
                assert(expects(action, parameters, id) == lends(sources, id));
            }
        }
    }
}

} // verus!

//! The working document of a run: what is persisted of its state at every step.

use vstd::prelude::*;
use vstd::string::*;

use crate::completion::{table_members, writers_json, writers_value};
use crate::json::{lemma_array, lemma_object, members_of, values_of, Json, JsonValue, Number, NumberView};
use crate::receipt::{operation_document, operation_value, push_member, push_words};
use crate::store::{Operation, ReadState, Setup, SourceRead, Store};
use crate::table::Table;
use crate::text::{decimal, write_decimal};
use crate::tool::unsigned;

verus! {

/// How far a resource was read, as it is persisted: a page that is not
/// acknowledged leaves no trace.
pub open spec fn reader_value(reader: ReadState) -> JsonValue {
    JsonValue::Object(
        seq![
            ("acknowledged"@, unsigned(reader.acknowledged as u64)),
            ("drained"@, JsonValue::Bool(reader.drained)),
        ],
    )
}

/// What was read of a source, as it is persisted.
pub open spec fn source_read_value(read: SourceRead) -> JsonValue {
    JsonValue::Object(
        seq![
            ("sourceId"@, JsonValue::Text(read.source_id@)),
            ("filename"@, JsonValue::Text(read.filename@)),
            ("sha256"@, JsonValue::Text(read.sha256@)),
            ("sizeBytes"@, JsonValue::Text(decimal(read.size as nat))),
        ],
    )
}

/// Where a source is held, as it is persisted.
pub open spec fn binding_value(binding: (String, String)) -> JsonValue {
    JsonValue::Array(seq![JsonValue::Text(binding.0@), JsonValue::Text(binding.1@)])
}

/// The names in a table, in their order.
pub open spec fn names_value(names: Seq<(String, ())>) -> JsonValue {
    JsonValue::Array(names.map_values(|entry: (String, ())| JsonValue::Text(entry.0@)))
}

/// The lines of a log.
pub open spec fn lines_value(lines: Seq<String>) -> JsonValue {
    JsonValue::Array(lines.map_values(|line: String| JsonValue::Text(line@)))
}

/// The document of the operation, where it was admitted.
pub open spec fn admitted_value(setup: Setup, operation: Option<Operation>) -> JsonValue {
    match operation {
        Some(operation) => operation_value(setup, operation@),
        None => JsonValue::Null,
    }
}

fn names_json(names: &Table<()>) -> (json: Json)
    ensures
        json@ == names_value(names.entries@),
{
    let mut items: Vec<Json> = Vec::new();
    let mut index: usize = 0;
    while index < names.entries.len()
        invariant
            index <= names.entries.len(),
            items@.len() == index,
            forall|i: int| 0 <= i < index ==> (#[trigger] items@[i])@ == JsonValue::Text(names.entries@[i].0@),
        decreases names.entries.len() - index,
    {
        items.push(Json::Text(names.entries[index].0.clone()));
        index += 1;
    }
    proof {
        lemma_array(items);
        assert(values_of(items@) =~= names_value(names.entries@)->Array_0);
    }
    Json::Array(items)
}

fn lines_json(lines: &Vec<String>) -> (json: Json)
    ensures
        json@ == lines_value(lines@),
{
    let mut items: Vec<Json> = Vec::new();
    let mut index: usize = 0;
    while index < lines.len()
        invariant
            index <= lines.len(),
            items@.len() == index,
            forall|i: int| 0 <= i < index ==> (#[trigger] items@[i])@ == JsonValue::Text(lines@[i]@),
        decreases lines.len() - index,
    {
        items.push(Json::Text(lines[index].clone()));
        index += 1;
    }
    proof {
        lemma_array(items);
        assert(values_of(items@) =~= lines_value(lines@)->Array_0);
    }
    Json::Array(items)
}

fn readers_json(readers: &Table<ReadState>) -> (json: Json)
    ensures
        json@ == table_members(readers.entries@, |reader: ReadState| reader_value(reader)),
{
    let mut members: Vec<(String, Json)> = Vec::new();
    let mut index: usize = 0;
    while index < readers.entries.len()
        invariant
            index <= readers.entries.len(),
            members@.len() == index,
            forall|i: int|
                0 <= i < index ==> (#[trigger] members@[i]).0@ == readers.entries@[i].0@ && members@[i].1@
                    == reader_value(readers.entries@[i].1),
        decreases readers.entries.len() - index,
    {
        let entry = &readers.entries[index];
        let mut inner: Vec<(String, Json)> = Vec::new();
        push_member(&mut inner, "acknowledged", Json::Number(Number::Unsigned(entry.1.acknowledged as u64)));
        push_member(&mut inner, "drained", Json::Bool(entry.1.drained));
        proof {
            lemma_object(inner);
            assert(members_of(inner@) =~= reader_value(entry.1)->Object_0);
        }
        members.push((entry.0.clone(), Json::Object(inner)));
        index += 1;
    }
    proof {
        lemma_object(members);
        assert(members_of(members@) =~= table_members(
            readers.entries@,
            |reader: ReadState| reader_value(reader),
        )->Object_0);
    }
    Json::Object(members)
}

fn bindings_json(bindings: &Table<(String, String)>) -> (json: Json)
    ensures
        json@ == table_members(bindings.entries@, |binding: (String, String)| binding_value(binding)),
{
    let mut members: Vec<(String, Json)> = Vec::new();
    let mut index: usize = 0;
    while index < bindings.entries.len()
        invariant
            index <= bindings.entries.len(),
            members@.len() == index,
            forall|i: int|
                0 <= i < index ==> (#[trigger] members@[i]).0@ == bindings.entries@[i].0@ && members@[i].1@
                    == binding_value(bindings.entries@[i].1),
        decreases bindings.entries.len() - index,
    {
        let entry = &bindings.entries[index];
        let mut pair: Vec<Json> = Vec::new();
        pair.push(Json::Text(entry.1.0.clone()));
        pair.push(Json::Text(entry.1.1.clone()));
        proof {
            lemma_array(pair);
            assert(values_of(pair@) =~= binding_value(entry.1)->Array_0);
        }
        members.push((entry.0.clone(), Json::Array(pair)));
        index += 1;
    }
    proof {
        lemma_object(members);
        assert(members_of(members@) =~= table_members(
            bindings.entries@,
            |binding: (String, String)| binding_value(binding),
        )->Object_0);
    }
    Json::Object(members)
}

fn source_reads_json(reads: &Table<SourceRead>) -> (json: Json)
    ensures
        json@ == table_members(reads.entries@, |read: SourceRead| source_read_value(read)),
{
    let mut members: Vec<(String, Json)> = Vec::new();
    let mut index: usize = 0;
    while index < reads.entries.len()
        invariant
            index <= reads.entries.len(),
            members@.len() == index,
            forall|i: int|
                0 <= i < index ==> (#[trigger] members@[i]).0@ == reads.entries@[i].0@ && members@[i].1@
                    == source_read_value(reads.entries@[i].1),
        decreases reads.entries.len() - index,
    {
        let entry = &reads.entries[index];
        let mut inner: Vec<(String, Json)> = Vec::new();
        push_words(&mut inner, "sourceId", entry.1.source_id.as_str());
        push_words(&mut inner, "filename", entry.1.filename.as_str());
        push_words(&mut inner, "sha256", entry.1.sha256.as_str());
        push_words(&mut inner, "sizeBytes", write_decimal(entry.1.size).as_str());
        proof {
            lemma_object(inner);
            assert(members_of(inner@) =~= source_read_value(entry.1)->Object_0);
        }
        members.push((entry.0.clone(), Json::Object(inner)));
        index += 1;
    }
    proof {
        lemma_object(members);
        assert(members_of(members@) =~= table_members(
            reads.entries@,
            |read: SourceRead| source_read_value(read),
        )->Object_0);
    }
    Json::Object(members)
}

impl Store {
    /// What is persisted of the state: neither the bytes of the sources, nor what is
    /// staged, nor a page that is not acknowledged.
    pub open spec fn working_value(&self) -> JsonValue {
        JsonValue::Object(
            seq![
                ("admitted"@, JsonValue::Bool(self.operation is Some)),
                ("operation"@, admitted_value(self.setup, self.operation)),
                ("readers"@, table_members(self.readers.entries@, |reader: ReadState| reader_value(reader))),
                ("writers"@, writers_value(self.writers.entries@)),
                ("produced"@, names_value(self.produced.entries@)),
                (
                    "source_bindings"@,
                    table_members(self.bindings.entries@, |binding: (String, String)| binding_value(binding)),
                ),
                ("lent"@, names_value(self.lent.entries@)),
                ("logs"@, lines_value(self.logs@)),
                ("log_bytes"@, unsigned(self.budget.bytes as u64)),
                ("source_reads"@, table_members(self.source_reads.entries@, |read: SourceRead| source_read_value(read))),
            ],
        )
    }

    /// Returns what is persisted of the state.
    pub fn working_document(&self) -> (document: Json)
        ensures
            document@ == self.working_value(),
    {
        let operation = match &self.operation {
            Some(operation) => operation_document(&self.setup, operation),
            None => Json::Null,
        };
        let mut members: Vec<(String, Json)> = Vec::new();
        push_member(&mut members, "admitted", Json::Bool(self.operation.is_some()));
        push_member(&mut members, "operation", operation);
        push_member(&mut members, "readers", readers_json(&self.readers));
        push_member(&mut members, "writers", writers_json(&self.writers));
        push_member(&mut members, "produced", names_json(&self.produced));
        push_member(&mut members, "source_bindings", bindings_json(&self.bindings));
        push_member(&mut members, "lent", names_json(&self.lent));
        push_member(&mut members, "logs", lines_json(&self.logs));
        push_member(&mut members, "log_bytes", Json::Number(Number::Unsigned(self.budget.bytes as u64)));
        push_member(&mut members, "source_reads", source_reads_json(&self.source_reads));
        proof {
            lemma_object(members);
            assert(members_of(members@) =~= self.working_value()->Object_0);
        }
        Json::Object(members)
    }
}

/// What is persisted of a run says whether it was admitted, how far each resource was read,
/// what was committed, what was produced, lent and logged, and what was read of sources.
pub proof fn law_state_is_persisted(store: Store)
    ensures
        store.working_value() matches JsonValue::Object(members) && {
            &&& members.len() == 10
            &&& members.contains(("admitted"@, JsonValue::Bool(store.operation is Some)))
            &&& store.operation matches Some(operation) ==> members.contains(
                ("operation"@, operation_value(store.setup, operation@)),
            )
            &&& members.contains(("writers"@, writers_value(store.writers.entries@)))
            &&& members.contains(("log_bytes"@, JsonValue::Number(NumberView::Unsigned(store.budget.bytes as u64))))
            &&& members[2].0 == "readers"@
            &&& members[2].1 matches JsonValue::Object(readers) && readers.len()
                == store.readers.entries@.len() && forall|i: int|
                0 <= i < readers.len() ==> #[trigger] readers[i] == (
                    store.readers.entries@[i].0@,
                    JsonValue::Object(
                        seq![
                            (
                                "acknowledged"@,
                                JsonValue::Number(
                                    NumberView::Unsigned(store.readers.entries@[i].1.acknowledged as u64),
                                ),
                            ),
                            ("drained"@, JsonValue::Bool(store.readers.entries@[i].1.drained)),
                        ],
                    ),
                )
            &&& members[4].0 == "produced"@
            &&& members[4].1 matches JsonValue::Array(produced) && produced.len()
                == store.produced.entries@.len() && forall|i: int|
                0 <= i < produced.len() ==> #[trigger] produced[i] == JsonValue::Text(store.produced.entries@[i].0@)
            &&& members[5].0 == "source_bindings"@
            &&& members[5].1 matches JsonValue::Object(bindings) && bindings.len()
                == store.bindings.entries@.len() && forall|i: int|
                0 <= i < bindings.len() ==> #[trigger] bindings[i] == (
                    store.bindings.entries@[i].0@,
                    JsonValue::Array(
                        seq![
                            JsonValue::Text(store.bindings.entries@[i].1.0@),
                            JsonValue::Text(store.bindings.entries@[i].1.1@),
                        ],
                    ),
                )
            &&& members[6].0 == "lent"@
            &&& members[6].1 matches JsonValue::Array(lent) && lent.len()
                == store.lent.entries@.len() && forall|i: int|
                0 <= i < lent.len() ==> #[trigger] lent[i] == JsonValue::Text(store.lent.entries@[i].0@)
            &&& members[7].0 == "logs"@
            &&& members[7].1 matches JsonValue::Array(logs) && logs.len() == store.logs@.len()
                && forall|i: int| 0 <= i < logs.len() ==> #[trigger] logs[i] == JsonValue::Text(store.logs@[i]@)
            &&& members[9].0 == "source_reads"@
            &&& members[9].1 matches JsonValue::Object(reads) && reads.len()
                == store.source_reads.entries@.len() && forall|i: int|
                0 <= i < reads.len() ==> (#[trigger] reads[i]).0 == store.source_reads.entries@[i].0@ && shows_read(
                    reads[i].1,
                    store.source_reads.entries@[i].1,
                )
        },
{
    let members = store.working_value()->Object_0;
    assert(members[0] == ("admitted"@, JsonValue::Bool(store.operation is Some)));
    assert(members[1] == ("operation"@, admitted_value(store.setup, store.operation)));
    assert(members[3] == ("writers"@, writers_value(store.writers.entries@)));
    assert(members[8] == ("log_bytes"@, JsonValue::Number(NumberView::Unsigned(store.budget.bytes as u64))));
}

/// What was read of a source: which, under which name, how much, and its hash.
pub open spec fn shows_read(shown: JsonValue, read: SourceRead) -> bool {
    shown == JsonValue::Object(
        seq![
            ("sourceId"@, JsonValue::Text(read.source_id@)),
            ("filename"@, JsonValue::Text(read.filename@)),
            ("sha256"@, JsonValue::Text(read.sha256@)),
            ("sizeBytes"@, JsonValue::Text(decimal(read.size as nat))),
        ],
    )
}

} // verus!

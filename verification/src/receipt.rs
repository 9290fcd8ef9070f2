//! What a local run shows: the document of its operation, and what it exports.

use vstd::prelude::*;
use vstd::string::*;
use vstd::utf8::*;

use crate::completion::{export_filename, key_value, keys_value, unwritable};
use crate::json::{
    json_text, lemma_array, lemma_object, members_of, values_of, write_json, Json, JsonValue, Number, NumberView,
};
use crate::store::{optional, Operation, OperationView, Phase, Report, ReportView, Setup, Store};
use crate::table::Table;
use crate::text::{decimal, joined, write_decimal};
use crate::tool::unsigned;

verus! {

impl Phase {
    /// The name of this phase.
    pub open spec fn text_spec(self) -> Seq<char> {
        match self {
            Phase::Queued => "QUEUED"@,
            Phase::Running => "RUNNING"@,
            Phase::Succeeded => "SUCCEEDED"@,
            Phase::Failed => "FAILED"@,
        }
    }

    /// Returns the name of this phase.
    pub fn text(&self) -> (text: &'static str)
        ensures
            text@ == self.text_spec(),
    {
        match self {
            Phase::Queued => "QUEUED",
            Phase::Running => "RUNNING",
            Phase::Succeeded => "SUCCEEDED",
            Phase::Failed => "FAILED",
        }
    }
}

/// A member with a text, where there is one.
pub open spec fn optional_member(name: Seq<char>, text: Option<Seq<char>>) -> Seq<(Seq<char>, JsonValue)> {
    match text {
        Some(text) => seq![(name, JsonValue::Text(text))],
        None => Seq::empty(),
    }
}

/// What a report adds to the document of its operation.
pub open spec fn report_members(report: ReportView) -> Seq<(Seq<char>, JsonValue)> {
    seq![
        ("resources"@, JsonValue::Array(report.resources.map_values(|entry: (Seq<char>, u64)| resource_value(entry)))),
        ("reads"@, JsonValue::Array(report.reads.map_values(|entry: (Seq<char>, u64, u64)| read_value(entry)))),
        ("writtenItemKeysTruncated"@, JsonValue::Bool(report.truncated)),
        (
            "writtenItemKeys"@,
            JsonValue::Array(report.keys.map_values(|key: (Seq<char>, Seq<char>)| key_value(key))),
        ),
        ("sourceCount"@, JsonValue::Text(decimal(report.source_count as nat))),
        ("settledCount"@, JsonValue::Text("0"@)),
    ]
}

/// A written resource in a report.
pub open spec fn resource_value(entry: (Seq<char>, u64)) -> JsonValue {
    JsonValue::Object(
        seq![
            ("extensionResourceId"@, JsonValue::Text(entry.0)),
            ("inbox"@, JsonValue::Text("0"@)),
            ("written"@, JsonValue::Text(decimal(entry.1 as nat))),
        ],
    )
}

/// A read resource in a report.
pub open spec fn read_value(entry: (Seq<char>, u64, u64)) -> JsonValue {
    JsonValue::Object(
        seq![
            ("extensionResourceId"@, JsonValue::Text(entry.0)),
            ("selected"@, JsonValue::Bool(false)),
            ("skipped"@, JsonValue::Text("0"@)),
            ("absent"@, JsonValue::Text("0"@)),
            ("total"@, JsonValue::Text(decimal(entry.1 as nat))),
            ("read"@, JsonValue::Text(decimal(entry.2 as nat))),
        ],
    )
}

/// Who runs an operation locally.
pub open spec fn actor_value() -> JsonValue {
    JsonValue::Object(
        seq![
            ("kind"@, JsonValue::Text("AGENT"@)),
            ("origin"@, JsonValue::Text("CLI"@)),
            ("id"@, JsonValue::Text("local-run"@)),
        ],
    )
}

/// The members that every operation has.
pub open spec fn identity_members(setup: Setup, operation: OperationView) -> Seq<(Seq<char>, JsonValue)> {
    seq![
        ("id"@, JsonValue::Text(setup.operation_id@)),
        ("workspaceId"@, JsonValue::Text(setup.workspace@)),
        ("branch"@, JsonValue::Text("local"@)),
        ("inputCommitId"@, JsonValue::Text(setup.input_commit@)),
        ("workspaceVersion"@, JsonValue::Text("1"@)),
        (
            "extensionAction"@,
            JsonValue::Object(
                seq![
                    ("extensionId"@, JsonValue::Text(setup.manifest.name@)),
                    ("actionId"@, JsonValue::Text(setup.inputs.action@)),
                ],
            ),
        ),
        ("state"@, JsonValue::Text(operation.phase.text_spec())),
        ("actor"@, actor_value()),
        ("parameters"@, setup.inputs.parameters@),
        ("attempt"@, unsigned(operation.attempt as u64)),
        ("createTime"@, JsonValue::Text(operation.create_time)),
        ("updateTime"@, JsonValue::Text(operation.update_time)),
    ]
}

/// The document of an operation.
pub open spec fn operation_value(setup: Setup, operation: OperationView) -> JsonValue {
    JsonValue::Object(
        identity_members(setup, operation) + optional_member("startTime"@, operation.start_time) + optional_member(
            "nextAttemptTime"@,
            operation.next_attempt_time,
        ) + optional_member("endTime"@, operation.end_time) + (match operation.failure {
            Some(failure) => seq![("failure"@, failure)],
            None => Seq::empty(),
        }) + optional_member("resultCommitId"@, operation.result_commit) + (match operation.report {
            Some(report) => report_members(report),
            None => Seq::empty(),
        }),
    )
}

pub(crate) fn push_member(members: &mut Vec<(String, Json)>, name: &str, value: Json)
    ensures
        members_of(final(members)@) == members_of(old(members)@).push((name@, value@)),
{
    let ghost before = members@;
    let ghost pair = (name@, value@);
    members.push((name.to_owned(), value));
    assert(members_of(members@) =~= members_of(before).push(pair));
}

pub(crate) fn push_words(members: &mut Vec<(String, Json)>, name: &str, text: &str)
    ensures
        members_of(final(members)@) == members_of(old(members)@).push((name@, JsonValue::Text(text@))),
{
    push_member(members, name, Json::Text(text.to_owned()));
}

fn push_optional(members: &mut Vec<(String, Json)>, name: &str, text: &Option<String>)
    ensures
        members_of(final(members)@) == members_of(old(members)@) + optional_member(
            name@,
            optional(*text),
        ),
{
    let ghost before = members_of(members@);
    if let Some(text) = text {
        push_words(members, name, text.as_str());
    }
    assert(members_of(members@) =~= before + optional_member(name@, optional(*text)));
}

fn push_report(members: &mut Vec<(String, Json)>, report: &Report)
    ensures
        members_of(final(members)@) == members_of(old(members)@) + report_members(report@),
{
    let ghost before = members_of(members@);
    let mut resources: Vec<Json> = Vec::new();
    let mut index: usize = 0;
    while index < report.resources.len()
        invariant
            index <= report.resources.len(),
            resources@.len() == index,
            forall|i: int|
                0 <= i < index ==> (#[trigger] resources@[i])@ == resource_value(report@.resources[i]),
        decreases report.resources.len() - index,
    {
        let entry = &report.resources[index];
        let mut inner: Vec<(String, Json)> = Vec::new();
        push_words(&mut inner, "extensionResourceId", entry.0.as_str());
        push_words(&mut inner, "inbox", "0");
        push_words(&mut inner, "written", write_decimal(entry.1).as_str());
        proof {
            lemma_object(inner);
            assert(members_of(inner@) =~= resource_value(report@.resources[index as int])->Object_0);
        }
        resources.push(Json::Object(inner));
        index += 1;
    }
    let mut reads: Vec<Json> = Vec::new();
    let mut place: usize = 0;
    while place < report.reads.len()
        invariant
            place <= report.reads.len(),
            reads@.len() == place,
            forall|i: int| 0 <= i < place ==> (#[trigger] reads@[i])@ == read_value(report@.reads[i]),
        decreases report.reads.len() - place,
    {
        let entry = &report.reads[place];
        let mut inner: Vec<(String, Json)> = Vec::new();
        push_words(&mut inner, "extensionResourceId", entry.0.as_str());
        push_member(&mut inner, "selected", Json::Bool(false));
        push_words(&mut inner, "skipped", "0");
        push_words(&mut inner, "absent", "0");
        push_words(&mut inner, "total", write_decimal(entry.1).as_str());
        push_words(&mut inner, "read", write_decimal(entry.2).as_str());
        proof {
            lemma_object(inner);
            assert(members_of(inner@) =~= read_value(report@.reads[place as int])->Object_0);
        }
        reads.push(Json::Object(inner));
        place += 1;
    }
    let mut keys: Vec<Json> = Vec::new();
    let mut at: usize = 0;
    while at < report.keys.len()
        invariant
            at <= report.keys.len(),
            keys@.len() == at,
            forall|i: int| 0 <= i < at ==> (#[trigger] keys@[i])@ == key_value(report@.keys[i]),
        decreases report.keys.len() - at,
    {
        let entry = &report.keys[at];
        let mut inner: Vec<(String, Json)> = Vec::new();
        push_words(&mut inner, "extensionResourceId", entry.0.as_str());
        push_words(&mut inner, "key", entry.1.as_str());
        proof {
            lemma_object(inner);
            assert(members_of(inner@) =~= key_value(report@.keys[at as int])->Object_0);
        }
        keys.push(Json::Object(inner));
        at += 1;
    }
    proof {
        lemma_array(resources);
        lemma_array(reads);
        lemma_array(keys);
        assert(values_of(resources@) =~= report@.resources.map_values(|entry: (Seq<char>, u64)| resource_value(entry)));
        assert(values_of(reads@) =~= report@.reads.map_values(|entry: (Seq<char>, u64, u64)| read_value(entry)));
        assert(values_of(keys@) =~= report@.keys.map_values(|key: (Seq<char>, Seq<char>)| key_value(key)));
    }
    push_member(members, "resources", Json::Array(resources));
    push_member(members, "reads", Json::Array(reads));
    push_member(members, "writtenItemKeysTruncated", Json::Bool(report.truncated));
    push_member(members, "writtenItemKeys", Json::Array(keys));
    push_words(members, "sourceCount", write_decimal(report.source_count).as_str());
    push_words(members, "settledCount", "0");
    assert(members_of(members@) =~= before + report_members(report@));
}

/// Writes the document of an operation.
pub fn operation_document(setup: &Setup, operation: &Operation) -> (document: Json)
    ensures
        document@ == operation_value(*setup, operation@),
{
    let mut action: Vec<(String, Json)> = Vec::new();
    push_words(&mut action, "extensionId", setup.manifest.name.as_str());
    push_words(&mut action, "actionId", setup.inputs.action.as_str());
    let mut actor: Vec<(String, Json)> = Vec::new();
    push_words(&mut actor, "kind", "AGENT");
    push_words(&mut actor, "origin", "CLI");
    push_words(&mut actor, "id", "local-run");
    proof {
        lemma_object(action);
        lemma_object(actor);
        assert(members_of(action@) =~= seq![
            ("extensionId"@, JsonValue::Text(setup.manifest.name@)),
            ("actionId"@, JsonValue::Text(setup.inputs.action@)),
        ]);
        assert(members_of(actor@) =~= actor_value()->Object_0);
    }
    let mut members: Vec<(String, Json)> = Vec::new();
    push_words(&mut members, "id", setup.operation_id.as_str());
    push_words(&mut members, "workspaceId", setup.workspace.as_str());
    push_words(&mut members, "branch", "local");
    push_words(&mut members, "inputCommitId", setup.input_commit.as_str());
    push_words(&mut members, "workspaceVersion", "1");
    push_member(&mut members, "extensionAction", Json::Object(action));
    push_words(&mut members, "state", operation.phase.text());
    push_member(&mut members, "actor", Json::Object(actor));
    push_member(&mut members, "parameters", setup.inputs.parameters.copy());
    push_member(&mut members, "attempt", Json::Number(Number::Unsigned(operation.attempt as u64)));
    push_words(&mut members, "createTime", operation.create_time.as_str());
    push_words(&mut members, "updateTime", operation.update_time.as_str());
    assert(members_of(members@) =~= identity_members(*setup, operation@));
    push_optional(&mut members, "startTime", &operation.start_time);
    push_optional(&mut members, "nextAttemptTime", &operation.next_attempt_time);
    push_optional(&mut members, "endTime", &operation.end_time);
    let ghost before = members_of(members@);
    if let Some(failure) = &operation.failure {
        push_member(&mut members, "failure", failure.copy());
    }
    assert(members_of(members@) =~= before + (match operation@.failure {
        Some(failure) => seq![("failure"@, failure)],
        None => Seq::empty(),
    }));
    push_optional(&mut members, "resultCommitId", &operation.result_commit);
    let ghost ended = members_of(members@);
    if let Some(report) = &operation.report {
        push_report(&mut members, report);
    }
    proof {
        assert(members_of(members@) =~= ended + (match operation@.report {
            Some(report) => report_members(report),
            None => Seq::empty(),
        }));
        lemma_object(members);
    }
    Json::Object(members)
}

/// A resource that a run exported.
#[derive(Debug)]
pub struct ResourceResult {
    /// The name of the resource.
    pub extension_resource_id: String,
    /// How many items it has, in decimal digits.
    pub items: String,
    /// Where its items were written.
    pub path: String,
}

/// A source that a run exported.
#[derive(Debug)]
pub struct SourceResult {
    /// The id of the source.
    pub source_id: String,
    /// Where its bytes were written.
    pub path: String,
}

/// What a run leaves behind.
#[derive(Debug)]
pub struct RunResult {
    /// The state, the times and the failures of the operation.
    pub operation: Json,
    /// Where the run was exported to.
    pub out: String,
    pub resources: Vec<ResourceResult>,
    pub sources: Vec<SourceResult>,
}

/// A file to export: the names of its directories and of itself, and its bytes.
pub struct ExportFile {
    pub path: Vec<String>,
    pub bytes: Vec<u8>,
}

/// The items of a writer, one JSON text a line, in the order of their keys.
pub open spec fn item_lines(items: Seq<(String, Json)>) -> Seq<u8>
    decreases items.len(),
{
    if items.len() == 0 {
        Seq::empty()
    } else {
        item_lines(items.drop_last()) + encode_utf8(json_text(items.last().1@)).push(0x0a)
    }
}

fn write_lines(items: &Table<Json>) -> (bytes: Vec<u8>)
    ensures
        bytes@ == item_lines(items.entries@),
{
    let mut bytes: Vec<u8> = Vec::new();
    let mut index: usize = 0;
    assert(items.entries@.take(0) =~= Seq::empty());
    while index < items.entries.len()
        invariant
            index <= items.entries.len(),
            bytes@ == item_lines(items.entries@.take(index as int)),
        decreases items.entries.len() - index,
    {
        let text = write_json(&items.entries[index].1);
        let ghost before = bytes@;
        bytes.extend_from_slice(text.as_str().as_bytes());
        bytes.push(0x0a);
        proof {
            let next = items.entries@.take(index + 1);
            assert(next.drop_last() =~= items.entries@.take(index as int));
            assert(bytes@ =~= before + encode_utf8(text@).push(0x0a));
        }
        index += 1;
    }
    assert(items.entries@.take(items.entries@.len() as int) =~= items.entries@);
    bytes
}

impl Store {
    /// Returns the files of the written resources, each named after its resource, in
    /// the order of the names.
    pub fn resource_files(&self) -> (files: Vec<ExportFile>)
        ensures
            files@.len() == self.writers.entries@.len(),
            forall|index: int|
                0 <= index < files@.len() ==> (#[trigger] files@[index]).path@.len() == 1 && files@[index].path@[0]@
                    == self.writers.entries@[index].0@ + ".jsonl"@ && files@[index].bytes@ == item_lines(
                    self.writers.entries@[index].1.items.entries@,
                ),
    {
        let mut files: Vec<ExportFile> = Vec::new();
        let mut index: usize = 0;
        while index < self.writers.entries.len()
            invariant
                index <= self.writers.entries.len(),
                files@.len() == index,
                forall|i: int|
                    0 <= i < index ==> (#[trigger] files@[i]).path@.len() == 1 && files@[i].path@[0]@
                        == self.writers.entries@[i].0@ + ".jsonl"@ && files@[i].bytes@ == item_lines(
                        self.writers.entries@[i].1.items.entries@,
                    ),
            decreases self.writers.entries.len() - index,
        {
            let entry = &self.writers.entries[index];
            let mut path: Vec<String> = Vec::new();
            path.push(joined(entry.0.as_str(), ".jsonl"));
            files.push(ExportFile { path, bytes: write_lines(&entry.1.items) });
            index += 1;
        }
        files
    }

    /// Returns the files of the produced sources, each in a directory named after its
    /// id, in the order of the ids.
    pub fn source_files(&self, windows: bool) -> (files: Vec<ExportFile>)
        requires
            self.wf(),
        ensures
            files@.len() == self.produced.entries@.len(),
            forall|index: int|
                0 <= index < files@.len() ==> ({
                    let id = self.produced.entries@[index].0@;
                    let source = self@.sources[id];
                    &&& (#[trigger] files@[index]).path@.len() == 3
                    &&& files@[index].path@[0]@ == "sources"@
                    &&& files@[index].path@[1]@ == id
                    &&& files@[index].path@[2]@ == (if windows && unwritable(source.filename) {
                        "source"@
                    } else {
                        source.filename
                    })
                    &&& files@[index].bytes@ == source.bytes
                }),
    {
        let mut files: Vec<ExportFile> = Vec::new();
        let mut index: usize = 0;
        while index < self.produced.entries.len()
            invariant
                index <= self.produced.entries.len(),
                self.wf(),
                files@.len() == index,
                forall|i: int|
                    0 <= i < index ==> ({
                        let id = self.produced.entries@[i].0@;
                        let source = self@.sources[id];
                        &&& (#[trigger] files@[i]).path@.len() == 3
                        &&& files@[i].path@[0]@ == "sources"@
                        &&& files@[i].path@[1]@ == id
                        &&& files@[i].path@[2]@ == (if windows && unwritable(source.filename) {
                            "source"@
                        } else {
                            source.filename
                        })
                        &&& files@[i].bytes@ == source.bytes
                    }),
            decreases self.produced.entries.len() - index,
        {
            let id = &self.produced.entries[index].0;
            proof {
                self.produced.lemma_entry(index as int);
                assert(self.sources@.dom().contains(id@));
            }
            if let Some(source) = self.sources.get(id.as_str()) {
                let mut path: Vec<String> = Vec::new();
                path.push("sources".to_owned());
                path.push(id.clone());
                path.push(export_filename(source.filename.as_str(), windows).to_owned());
                files.push(ExportFile { path, bytes: vstd::slice::slice_to_vec(source.bytes.as_slice()) });
            }
            index += 1;
        }
        files
    }
}

impl Store {
    /// Reports what a run leaves behind in `out`. `resources` and `sources` are where the
    /// files of the written resources and of the produced sources stand, each in its order.
    pub fn exported(&self, out: &str, resources: Vec<String>, sources: Vec<String>) -> (result: RunResult)
        requires
            self.operation is Some,
            resources@.len() == self.writers.entries@.len(),
            sources@.len() == self.produced.entries@.len(),
        ensures
            result.operation@ == operation_value(self.setup, self.operation->0@),
            result.out@ == out@,
            result.resources@.len() == self.writers.entries@.len(),
            forall|index: int|
                0 <= index < result.resources@.len() ==> {
                    let entry = self.writers.entries@[index];
                    &&& (#[trigger] result.resources@[index]).extension_resource_id@ == entry.0@
                    &&& result.resources@[index].items@ == decimal(entry.1.items.entries@.len())
                    &&& result.resources@[index].path@ == resources@[index]@
                },
            result.sources@.len() == self.produced.entries@.len(),
            forall|index: int|
                0 <= index < result.sources@.len() ==> (#[trigger] result.sources@[index]).source_id@
                    == self.produced.entries@[index].0@ && result.sources@[index].path@ == sources@[index]@,
    {
        let operation = match &self.operation {
            Some(operation) => operation_document(&self.setup, operation),
            None => Json::Null,
        };
        let mut written: Vec<ResourceResult> = Vec::new();
        let mut index: usize = 0;
        while index < self.writers.entries.len()
            invariant
                index <= self.writers.entries.len(),
                resources@.len() == self.writers.entries@.len(),
                written@.len() == index,
                forall|i: int|
                    0 <= i < index ==> {
                        let entry = self.writers.entries@[i];
                        &&& (#[trigger] written@[i]).extension_resource_id@ == entry.0@
                        &&& written@[i].items@ == decimal(entry.1.items.entries@.len())
                        &&& written@[i].path@ == resources@[i]@
                    },
            decreases self.writers.entries.len() - index,
        {
            let entry = &self.writers.entries[index];
            written.push(
                ResourceResult {
                    extension_resource_id: entry.0.clone(),
                    items: write_decimal(entry.1.items.entries.len() as u64),
                    path: resources[index].clone(),
                },
            );
            index += 1;
        }
        let mut produced: Vec<SourceResult> = Vec::new();
        let mut place: usize = 0;
        while place < self.produced.entries.len()
            invariant
                place <= self.produced.entries.len(),
                sources@.len() == self.produced.entries@.len(),
                produced@.len() == place,
                forall|i: int|
                    0 <= i < place ==> (#[trigger] produced@[i]).source_id@ == self.produced.entries@[i].0@
                        && produced@[i].path@ == sources@[i]@,
            decreases self.produced.entries.len() - place,
        {
            produced.push(
                SourceResult { source_id: self.produced.entries[place].0.clone(), path: sources[place].clone() },
            );
            place += 1;
        }
        RunResult { operation, out: out.to_owned(), resources: written, sources: produced }
    }
}

/// The bytes are cut at `ends` into as many lines as there are items: line by line the JSON
/// text of the item, and a line break.
pub open spec fn are_lines(bytes: Seq<u8>, items: Seq<(String, Json)>, ends: Seq<int>) -> bool {
    &&& ends.len() == items.len() + 1
    &&& ends[0] == 0
    &&& ends[items.len() as int] == bytes.len()
    &&& forall|i: int| 0 <= i < items.len() ==> #[trigger] is_line(bytes, items[i], ends[i], ends[i + 1])
}

/// The JSON text of the item and a line break stand between two places.
pub open spec fn is_line(bytes: Seq<u8>, item: (String, Json), start: int, end: int) -> bool {
    &&& 0 <= start < end <= bytes.len()
    &&& bytes.subrange(start, end) == encode_utf8(json_text(item.1@)) + seq![0x0au8]
}

/// The file of a writer has one line for each of its items, in the order of their keys: the
/// JSON text of that item, and a line break. Nothing stands between the lines, before them or
/// behind them.
pub proof fn law_every_item_is_one_line(items: Seq<(String, Json)>)
    ensures
        exists|ends: Seq<int>| #[trigger] are_lines(item_lines(items), items, ends),
    decreases items.len(),
{
    let lines = item_lines(items);
    if items.len() == 0 {
        assert(are_lines(lines, items, seq![0int]));
    } else {
        let earlier = items.drop_last();
        let before = item_lines(earlier);
        let line = encode_utf8(json_text(items.last().1@)) + seq![0x0au8];
        law_every_item_is_one_line(earlier);
        let inner = choose|ends: Seq<int>| #[trigger] are_lines(before, earlier, ends);
        let ends = inner.push(lines.len() as int);
        assert(lines =~= before + line);
        assert(ends[0] == inner[0] && ends[items.len() as int] == lines.len());
        assert forall|i: int| 0 <= i < items.len() implies #[trigger] is_line(lines, items[i], ends[i], ends[i + 1]) by {
            if i < earlier.len() {
                assert(is_line(before, earlier[i], inner[i], inner[i + 1]));
                assert(ends[i] == inner[i] && ends[i + 1] == inner[i + 1]);
                assert(lines.subrange(ends[i], ends[i + 1]) =~= before.subrange(inner[i], inner[i + 1]));
            } else {
                assert(ends[i] == before.len() && ends[i + 1] == lines.len());
                assert(lines.subrange(ends[i], ends[i + 1]) =~= line);
            }
        }
        assert(are_lines(lines, items, ends));
    }
}

/// An item behind the others leaves their lines as they were, and adds its own.
pub proof fn law_later_items_keep_earlier_lines(items: Seq<(String, Json)>, item: (String, Json))
    ensures
        item_lines(items.push(item)).take(item_lines(items).len() as int) == item_lines(items),
        item_lines(items.push(item)).skip(item_lines(items).len() as int) == encode_utf8(json_text(item.1@)) + seq![0x0au8],
{
    assert(items.push(item).drop_last() =~= items);
    let all = item_lines(items.push(item));
    assert(all.take(item_lines(items).len() as int) =~= item_lines(items));
    assert(all.skip(item_lines(items).len() as int) =~= encode_utf8(json_text(item.1@)) + seq![0x0au8]);
}

/// The document of an operation says which it is, what runs with which parameters, in which
/// state and attempt it is, and since when; it has a further member for each time, failure and
/// result that there is, six for a report, and no others.
pub proof fn law_operations_are_told(setup: Setup, operation: OperationView)
    ensures
        operation_value(setup, operation) matches JsonValue::Object(members) && {
            &&& members.contains(("id"@, JsonValue::Text(setup.operation_id@)))
            &&& members.contains(("workspaceId"@, JsonValue::Text(setup.workspace@)))
            &&& members.contains(("inputCommitId"@, JsonValue::Text(setup.input_commit@)))
            &&& members.contains(("parameters"@, setup.inputs.parameters@))
            &&& members.contains(("attempt"@, JsonValue::Number(NumberView::Unsigned(operation.attempt as u64))))
            &&& members.contains(("createTime"@, JsonValue::Text(operation.create_time)))
            &&& members.contains(("updateTime"@, JsonValue::Text(operation.update_time)))
            &&& operation.phase == Phase::Queued ==> members.contains(("state"@, JsonValue::Text("QUEUED"@)))
            &&& operation.phase == Phase::Running ==> members.contains(("state"@, JsonValue::Text("RUNNING"@)))
            &&& operation.phase == Phase::Succeeded ==> members.contains(("state"@, JsonValue::Text("SUCCEEDED"@)))
            &&& operation.phase == Phase::Failed ==> members.contains(("state"@, JsonValue::Text("FAILED"@)))
            &&& members.contains(
                (
                    "extensionAction"@,
                    JsonValue::Object(
                        seq![
                            ("extensionId"@, JsonValue::Text(setup.manifest.name@)),
                            ("actionId"@, JsonValue::Text(setup.inputs.action@)),
                        ],
                    ),
                ),
            )
            &&& operation.start_time matches Some(time) ==> members.contains(("startTime"@, JsonValue::Text(time)))
            &&& operation.next_attempt_time matches Some(time) ==> members.contains(
                ("nextAttemptTime"@, JsonValue::Text(time)),
            )
            &&& operation.end_time matches Some(time) ==> members.contains(("endTime"@, JsonValue::Text(time)))
            &&& operation.failure matches Some(failure) ==> members.contains(("failure"@, failure))
            &&& operation.result_commit matches Some(commit) ==> members.contains(
                ("resultCommitId"@, JsonValue::Text(commit)),
            )
            &&& members.len() == 12 + counted(operation.start_time is Some) + counted(operation.next_attempt_time is Some)
                + counted(operation.end_time is Some) + counted(operation.failure is Some) + counted(
                operation.result_commit is Some,
            ) + 6 * counted(operation.report is Some)
        },
{
    let identity = identity_members(setup, operation);
    let members = operation_value(setup, operation)->Object_0;
    assert forall|i: int| 0 <= i < 12 implies #[trigger] members[i] == identity[i] by {}
    assert(members[0] == identity[0] && members[1] == identity[1] && members[3] == identity[3] && members[5] == identity[5]
        && members[6] == identity[6] && members[8] == identity[8] && members[9] == identity[9] && members[10] == identity[10]
        && members[11] == identity[11]);
    let started: int = counted(operation.start_time is Some);
    let next: int = counted(operation.next_attempt_time is Some);
    let ended: int = counted(operation.end_time is Some);
    let failed: int = counted(operation.failure is Some);
    if operation.start_time is Some {
        assert(members[12] == ("startTime"@, JsonValue::Text(operation.start_time->0)));
    }
    if operation.next_attempt_time is Some {
        assert(members[12 + started] == ("nextAttemptTime"@, JsonValue::Text(operation.next_attempt_time->0)));
    }
    if operation.end_time is Some {
        assert(members[12 + started + next] == ("endTime"@, JsonValue::Text(operation.end_time->0)));
    }
    if operation.failure is Some {
        assert(members[12 + started + next + ended] == ("failure"@, operation.failure->0));
    }
    if operation.result_commit is Some {
        assert(members[12 + started + next + ended + failed] == (
            "resultCommitId"@,
            JsonValue::Text(operation.result_commit->0),
        ));
    }
}

/// One where it is there.
pub open spec fn counted(there: bool) -> int {
    if there {
        1
    } else {
        0
    }
}

/// A report is shown with every resource that was written and how often, every resource that
/// was read, of how many items and how far, and the keys that it lists.
pub proof fn law_reports_are_told(report: ReportView)
    ensures
        ({
            let members = report_members(report);
            &&& members.len() == 6
            &&& members[0].0 == "resources"@
            &&& members[0].1 matches JsonValue::Array(resources) && resources.len()
                == report.resources.len() && forall|i: int|
                0 <= i < resources.len() ==> #[trigger] resources[i] == JsonValue::Object(
                    seq![
                        ("extensionResourceId"@, JsonValue::Text(report.resources[i].0)),
                        ("inbox"@, JsonValue::Text("0"@)),
                        ("written"@, JsonValue::Text(decimal(report.resources[i].1 as nat))),
                    ],
                )
            &&& members[1].0 == "reads"@
            &&& members[1].1 matches JsonValue::Array(reads) && reads.len() == report.reads.len()
                && forall|i: int|
                0 <= i < reads.len() ==> ((#[trigger] reads[i]) matches JsonValue::Object(read) && read.contains(
                    ("extensionResourceId"@, JsonValue::Text(report.reads[i].0)),
                ) && read.contains(("total"@, JsonValue::Text(decimal(report.reads[i].1 as nat)))) && read.contains(
                    ("read"@, JsonValue::Text(decimal(report.reads[i].2 as nat))),
                ))
            &&& members[2] == ("writtenItemKeysTruncated"@, JsonValue::Bool(report.truncated))
            &&& members[3].0 == "writtenItemKeys"@ && members[3].1 == keys_value(report.keys)
            &&& members[4] == ("sourceCount"@, JsonValue::Text(decimal(report.source_count as nat)))
        }),
{
    let members = report_members(report);
    let reads = members[1].1->Array_0;
    assert forall|i: int| 0 <= i < reads.len() implies ((#[trigger] reads[i]) matches JsonValue::Object(read) && read.contains(
        ("extensionResourceId"@, JsonValue::Text(report.reads[i].0)),
    ) && read.contains(("total"@, JsonValue::Text(decimal(report.reads[i].1 as nat)))) && read.contains(
        ("read"@, JsonValue::Text(decimal(report.reads[i].2 as nat))),
    )) by {
        let read = read_value(report.reads[i])->Object_0;
        assert(reads[i] == read_value(report.reads[i]));
        assert(read[0] == ("extensionResourceId"@, JsonValue::Text(report.reads[i].0)));
        assert(read[4] == ("total"@, JsonValue::Text(decimal(report.reads[i].1 as nat))));
        assert(read[5] == ("read"@, JsonValue::Text(decimal(report.reads[i].2 as nat))));
    }
    assert(members[3].1 == keys_value(report.keys));
}

/// The phases of an operation have names of their own.
pub proof fn law_names_of_phases(phase: Phase, other: Phase)
    ensures
        phase is Queued ==> phase.text_spec() == "QUEUED"@,
        phase is Running ==> phase.text_spec() == "RUNNING"@,
        phase is Succeeded ==> phase.text_spec() == "SUCCEEDED"@,
        phase is Failed ==> phase.text_spec() == "FAILED"@,
        phase.text_spec() == other.text_spec() ==> phase == other,
{
    reveal_strlit("QUEUED");
    reveal_strlit("RUNNING");
    reveal_strlit("SUCCEEDED");
    reveal_strlit("FAILED");
    assert("QUEUED"@.len() == 6 && "RUNNING"@.len() == 7 && "SUCCEEDED"@.len() == 9 && "FAILED"@.len() == 6);
    assert("QUEUED"@[0] != "FAILED"@[0]);
}

/// A local operation is told to be one: on the local branch, in the first version of its
/// workspace, by the command line.
pub proof fn law_local_operations_are_told(setup: Setup, operation: OperationView)
    ensures
        operation_value(setup, operation) is Object,
        operation_value(setup, operation)->Object_0.contains(("branch"@, JsonValue::Text("local"@))),
        operation_value(setup, operation)->Object_0.contains(("workspaceVersion"@, JsonValue::Text("1"@))),
        operation_value(setup, operation)->Object_0.contains(("actor"@, actor_value())),
        actor_value() is Object,
        actor_value()->Object_0.len() == 3,
        actor_value()->Object_0.contains(("kind"@, JsonValue::Text("AGENT"@))),
        actor_value()->Object_0.contains(("origin"@, JsonValue::Text("CLI"@))),
        actor_value()->Object_0.contains(("id"@, JsonValue::Text("local-run"@))),
{
    let identity = identity_members(setup, operation);
    let members = operation_value(setup, operation)->Object_0;
    assert forall|i: int| 0 <= i < 12 implies #[trigger] members[i] == identity[i] by {}
    assert(members[2] == identity[2] && members[4] == identity[4] && members[7] == identity[7]);
    let actor = actor_value()->Object_0;
    assert(actor[0] == ("kind"@, JsonValue::Text("AGENT"@)));
    assert(actor[1] == ("origin"@, JsonValue::Text("CLI"@)));
    assert(actor[2] == ("id"@, JsonValue::Text("local-run"@)));
}

/// What was written to a resource is told with its name and how much it was, and what was
/// read of one with its name, how much there was and how much of it was read; nothing is
/// selected, skipped or absent in a local run, and nothing waits.
pub proof fn law_counts_are_told(written: (Seq<char>, u64), read: (Seq<char>, u64, u64))
    ensures
        ({
            let resource = resource_value(written);
            let fixture = read_value(read);
            &&& resource is Object && resource->Object_0.len() == 3
            &&& resource->Object_0.contains(("extensionResourceId"@, JsonValue::Text(written.0)))
            &&& resource->Object_0.contains(("inbox"@, JsonValue::Text("0"@)))
            &&& resource->Object_0.contains(("written"@, JsonValue::Text(decimal(written.1 as nat))))
            &&& fixture is Object && fixture->Object_0.len() == 6
            &&& fixture->Object_0.contains(("extensionResourceId"@, JsonValue::Text(read.0)))
            &&& fixture->Object_0.contains(("selected"@, JsonValue::Bool(false)))
            &&& fixture->Object_0.contains(("skipped"@, JsonValue::Text("0"@)))
            &&& fixture->Object_0.contains(("absent"@, JsonValue::Text("0"@)))
            &&& fixture->Object_0.contains(("total"@, JsonValue::Text(decimal(read.1 as nat))))
            &&& fixture->Object_0.contains(("read"@, JsonValue::Text(decimal(read.2 as nat))))
        }),
{
    let resource = resource_value(written)->Object_0;
    let fixture = read_value(read)->Object_0;
    assert(resource.contains(resource[0]) && resource.contains(resource[1]) && resource.contains(resource[2]));
    assert(fixture.contains(fixture[0]) && fixture.contains(fixture[1]) && fixture.contains(fixture[2]));
    assert(fixture.contains(fixture[3]) && fixture.contains(fixture[4]) && fixture.contains(fixture[5]));
}

} // verus!
